use docx::codec::{escape, unescape};
use docx::error::XmlError;

#[test]
fn escape_replaces_all_four_specials() {
    assert_eq!(escape("A&B<C>D\"E"), "A&amp;B&lt;C&gt;D&quot;E");
}

#[test]
fn escape_leaves_plain_text_alone() {
    assert_eq!(escape("Arial"), "Arial");
    assert_eq!(escape(""), "");
}

#[test]
fn unescape_inverts_escape() {
    let original = "a&b<c>d\"e & <<>>\"\"&&";
    let encoded = escape(original);
    assert_eq!(unescape(&encoded), Ok(original.to_string()));
}

#[test]
fn unescape_decodes_each_entity() {
    assert_eq!(unescape("&amp;&lt;&gt;&quot;"), Ok("&<>\"".to_string()));
}

#[test]
fn unescape_leaves_plain_text_alone() {
    assert_eq!(unescape("Arial"), Ok("Arial".to_string()));
}

#[test]
fn unescape_rejects_unknown_entity() {
    assert_eq!(unescape("&xyz;"), Err(XmlError::UnrecognizedEntity));
}

#[test]
fn unescape_rejects_truncated_entity() {
    assert_eq!(unescape("a&am"), Err(XmlError::UnrecognizedEntity));
}
