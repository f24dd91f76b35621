use docx::cursor::{current_tag, read_text, skip_subtree, Token};
use docx::error::XmlError;

fn start(name: &str) -> Token {
    Token::Start { name: name.to_string() }
}

fn attr(name: &str, value: &str) -> Token {
    Token::Attr { name: name.to_string(), value: value.to_string() }
}

fn text(t: &str) -> Token {
    Token::Text { text: t.to_string() }
}

fn end(name: &str) -> Token {
    Token::End { name: name.to_string() }
}

#[test]
fn current_tag_peeks_start_tags_only() {
    let toks = vec![start("w:font"), attr("w:name", "Arial"), end("w:font")];
    assert_eq!(current_tag(&toks, 0), Some("w:font".to_string()));
    assert_eq!(current_tag(&toks, 1), None);
    assert_eq!(current_tag(&toks, 2), None);
    assert_eq!(current_tag(&toks, 3), None);
}

#[test]
fn read_text_concatenates_and_unescapes_segments() {
    let toks = vec![text("a&amp;b"), text(" &lt;c&gt;"), end("w:t")];
    let (decoded, next) = read_text(&toks, 0).unwrap();
    assert_eq!(decoded, "a&b <c>");
    assert_eq!(next, 2);
}

#[test]
fn read_text_at_a_tag_reads_nothing() {
    let toks = vec![start("w:t"), text("hi"), end("w:t")];
    let (decoded, next) = read_text(&toks, 0).unwrap();
    assert_eq!(decoded, "");
    assert_eq!(next, 0);
}

#[test]
fn read_text_rejects_unknown_entities() {
    let toks = vec![text("a&nbsp;b")];
    assert_eq!(read_text(&toks, 0).unwrap_err(), XmlError::UnrecognizedEntity);
}

#[test]
fn skip_subtree_consumes_nested_elements() {
    let toks = vec![
        start("w:outer"),
        attr("w:a", "1"),
        text("x"),
        start("w:inner"),
        start("w:deep"),
        end("w:deep"),
        end("w:inner"),
        end("w:outer"),
        start("w:next"),
    ];
    assert_eq!(skip_subtree(&toks, 0), Ok(8));
}

#[test]
fn skip_subtree_rejects_mismatched_end() {
    let toks = vec![start("w:outer"), end("w:other")];
    assert_eq!(skip_subtree(&toks, 0), Err(XmlError::UnbalancedTag));
}

#[test]
fn skip_subtree_rejects_unterminated_element() {
    let toks = vec![start("w:outer"), start("w:inner"), end("w:inner")];
    assert_eq!(skip_subtree(&toks, 0), Err(XmlError::UnbalancedTag));
}
