use docx::cursor::Token;
use docx::error::XmlError;
use docx::font_table::{Charset, Family, Font, FontTable, Pitch};
use docx::schema::{schema_main, schema_relationships};

fn start(name: &str) -> Token {
    Token::Start { name: name.to_string() }
}

fn attr(name: &str, value: &str) -> Token {
    Token::Attr { name: name.to_string(), value: value.to_string() }
}

fn text(t: &str) -> Token {
    Token::Text { text: t.to_string() }
}

fn end(name: &str) -> Token {
    Token::End { name: name.to_string() }
}

fn table_tokens(inner: Vec<Token>) -> Vec<Token> {
    let mut toks = vec![
        start("w:fonts"),
        attr("xmlns:w", schema_main()),
        attr("xmlns:r", schema_relationships()),
    ];
    toks.extend(inner);
    toks.push(end("w:fonts"));
    toks
}

#[test]
fn empty_table_encodes_to_bare_tag_pair() {
    let table = FontTable::default();
    let expected = format!(
        "<w:fonts xmlns:w=\"{}\" xmlns:r=\"{}\"></w:fonts>",
        schema_main(),
        schema_relationships()
    );
    assert_eq!(table.to_xml(), expected);
}

#[test]
fn populated_table_encodes_fonts_in_order() {
    let mut table = FontTable::default();
    table.push_font(Font::new("Arial"));
    table.push_font(Font::new("Helvetica"));
    let expected = format!(
        "<w:fonts xmlns:w=\"{}\" xmlns:r=\"{}\">\
         <w:font w:name=\"Arial\"></w:font>\
         <w:font w:name=\"Helvetica\"></w:font></w:fonts>",
        schema_main(),
        schema_relationships()
    );
    assert_eq!(table.to_xml(), expected);
}

#[test]
fn font_children_encode_in_declared_order() {
    let mut table = FontTable::default();
    table.push_font(Font::new("Courier").pitch("fixed").family("modern").charset("00"));
    let expected = format!(
        "<w:fonts xmlns:w=\"{}\" xmlns:r=\"{}\"><w:font w:name=\"Courier\">\
         <w:charset w:val=\"00\"></w:charset>\
         <w:family w:val=\"modern\"></w:family>\
         <w:pitch w:val=\"fixed\"></w:pitch></w:font></w:fonts>",
        schema_main(),
        schema_relationships()
    );
    assert_eq!(table.to_xml(), expected);
}

#[test]
fn name_with_specials_encodes_escaped() {
    let mut table = FontTable::default();
    table.push_font(Font::new("A&B<C\"D"));
    let xml = table.to_xml();
    assert!(xml.contains("w:name=\"A&amp;B&lt;C&quot;D\""));
}

#[test]
fn round_trip_preserves_every_field() {
    let mut table = FontTable::default();
    table.push_font(Font::new("Arial"));
    table.push_font(Font::new("Helvetica").family("swiss").charset("00").pitch("variable"));
    table.push_font(Font::new("A&B<C>D\"E"));
    let toks = table.to_tokens();
    let (decoded, used) = FontTable::decode(&toks, 0).unwrap();
    assert_eq!(used, toks.len());
    assert_eq!(decoded, table);
}

#[test]
fn decode_then_encode_reproduces_canonical_text() {
    let toks = table_tokens(vec![
        start("w:font"),
        attr("w:name", "Helvetica"),
        start("w:family"),
        attr("w:val", "swiss"),
        end("w:family"),
        end("w:font"),
    ]);
    let (decoded, _) = FontTable::decode(&toks, 0).unwrap();
    let expected = format!(
        "<w:fonts xmlns:w=\"{}\" xmlns:r=\"{}\"><w:font w:name=\"Helvetica\">\
         <w:family w:val=\"swiss\"></w:family></w:font></w:fonts>",
        schema_main(),
        schema_relationships()
    );
    assert_eq!(decoded.to_xml(), expected);
}

#[test]
fn unknown_child_is_skipped_and_rest_decodes() {
    let toks = table_tokens(vec![
        start("w:font"),
        attr("w:name", "Arial"),
        end("w:font"),
        start("w:defaultFonts"),
        attr("w:ascii", "Times"),
        text("stray"),
        start("w:inner"),
        end("w:inner"),
        end("w:defaultFonts"),
        start("w:font"),
        attr("w:name", "Helvetica"),
        end("w:font"),
    ]);
    let (decoded, used) = FontTable::decode(&toks, 0).unwrap();
    assert_eq!(used, toks.len());
    assert_eq!(decoded.fonts.len(), 2);
    assert_eq!(decoded.fonts[0].name, "Arial");
    assert_eq!(decoded.fonts[1].name, "Helvetica");
}

#[test]
fn unknown_font_child_and_attribute_are_ignored() {
    let toks = table_tokens(vec![
        start("w:font"),
        attr("w:name", "Arial"),
        attr("w:altName", "Helvetica"),
        start("w:sig"),
        attr("w:usb0", "0"),
        end("w:sig"),
        start("w:family"),
        attr("w:val", "swiss"),
        end("w:family"),
        end("w:font"),
    ]);
    let (decoded, _) = FontTable::decode(&toks, 0).unwrap();
    assert_eq!(decoded.fonts.len(), 1);
    let font = &decoded.fonts[0];
    assert_eq!(font.name, "Arial");
    assert_eq!(font.family, Some(Family { value: "swiss".to_string() }));
    assert_eq!(font.charset, None);
    assert_eq!(font.pitch, None);
}

#[test]
fn escaped_attribute_value_decodes_to_literal() {
    let toks = table_tokens(vec![
        start("w:font"),
        attr("w:name", "A&amp;B&lt;C&gt;D&quot;E"),
        start("w:family"),
        attr("w:val", "sw&amp;iss"),
        end("w:family"),
        end("w:font"),
    ]);
    let (decoded, _) = FontTable::decode(&toks, 0).unwrap();
    assert_eq!(decoded.fonts[0].name, "A&B<C>D\"E");
    assert_eq!(decoded.fonts[0].family, Some(Family { value: "sw&iss".to_string() }));
}

#[test]
fn missing_required_name_attribute_fails() {
    let toks = vec![start("w:font"), end("w:font")];
    let err = Font::decode(&toks, 0).unwrap_err();
    assert_eq!(err, XmlError::MissingAttribute { name: "w:name".to_string() });
}

#[test]
fn missing_required_name_attribute_fails_inside_table() {
    let toks = table_tokens(vec![start("w:font"), end("w:font")]);
    let err = FontTable::decode(&toks, 0).unwrap_err();
    assert_eq!(err, XmlError::MissingAttribute { name: "w:name".to_string() });
}

#[test]
fn missing_required_val_attribute_fails() {
    let toks = table_tokens(vec![
        start("w:font"),
        attr("w:name", "Arial"),
        start("w:pitch"),
        end("w:pitch"),
        end("w:font"),
    ]);
    let err = FontTable::decode(&toks, 0).unwrap_err();
    assert_eq!(err, XmlError::MissingAttribute { name: "w:val".to_string() });
}

#[test]
fn wrong_start_tag_fails_with_tag_mismatch() {
    let toks = vec![start("w:body"), end("w:body")];
    let err = FontTable::decode(&toks, 0).unwrap_err();
    assert_eq!(
        err,
        XmlError::TagMismatch { expected: "w:fonts".to_string(), found: "w:body".to_string() }
    );
}

#[test]
fn missing_end_tag_fails_with_unbalanced_tag() {
    let toks = vec![start("w:fonts"), start("w:font"), attr("w:name", "Arial"), end("w:font")];
    let err = FontTable::decode(&toks, 0).unwrap_err();
    assert_eq!(err, XmlError::UnbalancedTag);
}

#[test]
fn mismatched_end_tag_fails_with_unbalanced_tag() {
    let toks = vec![start("w:fonts"), end("w:body")];
    let err = FontTable::decode(&toks, 0).unwrap_err();
    assert_eq!(err, XmlError::UnbalancedTag);
}

#[test]
fn bad_entity_in_attribute_fails_decode() {
    let toks = table_tokens(vec![start("w:font"), attr("w:name", "&nbsp;"), end("w:font")]);
    let err = FontTable::decode(&toks, 0).unwrap_err();
    assert_eq!(err, XmlError::UnrecognizedEntity);
}

#[test]
fn repeated_single_child_last_wins() {
    let toks = table_tokens(vec![
        start("w:font"),
        attr("w:name", "Arial"),
        start("w:family"),
        attr("w:val", "roman"),
        end("w:family"),
        start("w:family"),
        attr("w:val", "swiss"),
        end("w:family"),
        end("w:font"),
    ]);
    let (decoded, _) = FontTable::decode(&toks, 0).unwrap();
    assert_eq!(decoded.fonts[0].family, Some(Family { value: "swiss".to_string() }));
}

#[test]
fn into_owned_is_idempotent() {
    let mut table = FontTable::default();
    table.push_font(Font::new("Arial").charset("00"));
    let once = table.clone().into_owned();
    let twice = once.clone().into_owned();
    assert_eq!(once, table);
    assert_eq!(twice, once);
}

#[test]
fn push_font_appends_in_order() {
    let mut table = FontTable::new();
    table.push_font(Font::new("Arial"));
    table.push_font(Font::new("Courier"));
    assert_eq!(table.fonts.len(), 2);
    assert_eq!(table.fonts[0].name, "Arial");
    assert_eq!(table.fonts[1].name, "Courier");
}

#[test]
fn builder_populates_every_field() {
    let font = Font::new("Courier").charset("00").family("modern").pitch("fixed");
    assert_eq!(font.name, "Courier");
    assert_eq!(font.charset, Some(Charset { value: "00".to_string() }));
    assert_eq!(font.family, Some(Family { value: "modern".to_string() }));
    assert_eq!(font.pitch, Some(Pitch { value: "fixed".to_string() }));
}

#[test]
fn decode_stops_after_the_table_subtree() {
    let mut toks = table_tokens(vec![start("w:font"), attr("w:name", "Arial"), end("w:font")]);
    let table_len = toks.len();
    toks.push(start("w:styles"));
    toks.push(end("w:styles"));
    let (decoded, used) = FontTable::decode(&toks, 0).unwrap();
    assert_eq!(used, table_len);
    assert_eq!(decoded.fonts.len(), 1);
}
