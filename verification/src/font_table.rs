//! Font table records and their XML binding.
//!
//! The font table is the fragment stored at `/word/fontTable.xml` of a
//! document package.  Each record type here declares one XML tag, maps its
//! fields to attributes or child elements, and implements the two binding
//! capabilities: decoding from a token stream and encoding to XML text.
//! The table is the root of the fragment, so encoding it also injects the
//! `xmlns:w` and `xmlns:r` namespace declarations into its start tag.

use vstd::prelude::*;

use crate::codec::{escape, escape_seq, unescape, unescape_seq};
use crate::cursor::{
    attr_end, close_element, expect_start, find_attr, skip_subtree, sp_attr_end, sp_close,
    sp_expect_start, sp_find_attr, sp_skip_subtree, str_eq, toks_view, Token, TokV,
};
use crate::error::{XmlError, XmlErrorV};
use crate::schema::{schema_main, schema_relationships, spec_schema_main,
    spec_schema_relationships};

verus! {

// ---------------------------------------------------------------------------
// Declared tag and attribute names
// ---------------------------------------------------------------------------
/// The tag the font table decodes from and encodes to.
pub open spec fn fonts_tag() -> Seq<char> {
    "w:fonts"@
}

/// The tag of one font record.
pub open spec fn font_tag() -> Seq<char> {
    "w:font"@
}

/// The tag of a font's character-set child.
pub open spec fn charset_tag() -> Seq<char> {
    "w:charset"@
}

/// The tag of a font's family child.
pub open spec fn family_tag() -> Seq<char> {
    "w:family"@
}

/// The tag of a font's pitch child.
pub open spec fn pitch_tag() -> Seq<char> {
    "w:pitch"@
}

/// The required attribute holding a font's name.
pub open spec fn name_attr() -> Seq<char> {
    "w:name"@
}

/// The attribute holding the value of a leaf child element.
pub open spec fn val_attr() -> Seq<char> {
    "w:val"@
}

/// The namespace declaration bound to the `w` prefix.
pub open spec fn xmlns_w_attr() -> Seq<char> {
    "xmlns:w"@
}

/// The namespace declaration bound to the `r` prefix.
pub open spec fn xmlns_r_attr() -> Seq<char> {
    "xmlns:r"@
}

// ---------------------------------------------------------------------------
// Record types and their models
// ---------------------------------------------------------------------------
/// Character set of a font: a leaf record with one required `w:val`
/// attribute.
#[derive(Debug, Clone, PartialEq)]
pub struct Charset {
    pub value: String,
}

/// Family of a font: a leaf record with one required `w:val` attribute.
#[derive(Debug, Clone, PartialEq)]
pub struct Family {
    pub value: String,
}

/// Pitch of a font: a leaf record with one required `w:val` attribute.
#[derive(Debug, Clone, PartialEq)]
pub struct Pitch {
    pub value: String,
}

/// One font of the table: tag `w:font`, required attribute `w:name`, and
/// three optional leaf children.
#[derive(Debug, Clone, PartialEq)]
pub struct Font {
    pub name: String,
    pub charset: Option<Charset>,
    pub family: Option<Family>,
    pub pitch: Option<Pitch>,
}

/// The font table: tag `w:fonts`, an ordered list of `w:font` children,
/// and the namespace declarations on its start tag.
#[derive(Debug, Clone, PartialEq)]
pub struct FontTable {
    pub fonts: Vec<Font>,
}

/// Mathematical model of one font.
#[verifier::ext_equal]
pub struct FontV {
    pub name: Seq<char>,
    pub charset: Option<Seq<char>>,
    pub family: Option<Seq<char>>,
    pub pitch: Option<Seq<char>>,
}

/// Mathematical model of the font table.
#[verifier::ext_equal]
pub struct FontTableV {
    pub fonts: Seq<FontV>,
}

impl View for Charset {
    type V = Seq<char>;

    open spec fn view(&self) -> Seq<char> {
        self.value@
    }
}

impl View for Family {
    type V = Seq<char>;

    open spec fn view(&self) -> Seq<char> {
        self.value@
    }
}

impl View for Pitch {
    type V = Seq<char>;

    open spec fn view(&self) -> Seq<char> {
        self.value@
    }
}

impl View for Font {
    type V = FontV;

    open spec fn view(&self) -> FontV {
        FontV {
            name: self.name@,
            charset: match self.charset {
                Some(c) => Some(c@),
                None => None,
            },
            family: match self.family {
                Some(f) => Some(f@),
                None => None,
            },
            pitch: match self.pitch {
                Some(p) => Some(p@),
                None => None,
            },
        }
    }
}

/// The models of a list of fonts, in order.
pub open spec fn fonts_view(fonts: Seq<Font>) -> Seq<FontV> {
    fonts.map_values(|f: Font| f@)
}

impl View for FontTable {
    type V = FontTableV;

    open spec fn view(&self) -> FontTableV {
        FontTableV { fonts: fonts_view(self.fonts@) }
    }
}

// ---------------------------------------------------------------------------
// Construction
// ---------------------------------------------------------------------------
impl Charset {
    /// A character set with the given value.
    pub fn new(value: &str) -> (r: Self)
        ensures
            r@ == value@,
    {
        Charset { value: value.to_owned() }
    }
}

impl Family {
    /// A family with the given value.
    pub fn new(value: &str) -> (r: Self)
        ensures
            r@ == value@,
    {
        Family { value: value.to_owned() }
    }
}

impl Pitch {
    /// A pitch with the given value.
    pub fn new(value: &str) -> (r: Self)
        ensures
            r@ == value@,
    {
        Pitch { value: value.to_owned() }
    }
}

impl Font {
    /// A font with the given name and no optional children.
    pub fn new(name: &str) -> (r: Self)
        ensures
            r@ == (FontV { name: name@, charset: None, family: None, pitch: None }),
    {
        Font { name: name.to_owned(), charset: None, family: None, pitch: None }
    }

    /// The same font with its character set replaced.
    pub fn charset(self, value: &str) -> (r: Self)
        ensures
            r@ == (FontV { charset: Some(value@), ..self@ }),
    {
        Font { charset: Some(Charset::new(value)), ..self }
    }

    /// The same font with its family replaced.
    pub fn family(self, value: &str) -> (r: Self)
        ensures
            r@ == (FontV { family: Some(value@), ..self@ }),
    {
        Font { family: Some(Family::new(value)), ..self }
    }

    /// The same font with its pitch replaced.
    pub fn pitch(self, value: &str) -> (r: Self)
        ensures
            r@ == (FontV { pitch: Some(value@), ..self@ }),
    {
        Font { pitch: Some(Pitch::new(value)), ..self }
    }
}

impl FontTable {
    /// An empty font table.
    pub fn new() -> (r: Self)
        ensures
            r@ == (FontTableV { fonts: Seq::<FontV>::empty() }),
    {
        let t = FontTable { fonts: Vec::new() };
        proof {
            assert(fonts_view(t.fonts@) =~= Seq::<FontV>::empty());
        }
        t
    }

    /// Appends a font at the end of the table's child list.
    pub fn push_font(&mut self, font: Font)
        ensures
            final(self)@.fonts == old(self)@.fonts.push(font@),
    {
        let ghost before = self.fonts@;
        self.fonts.push(font);
        proof {
            assert(fonts_view(self.fonts@) =~= fonts_view(before).push(self.fonts@.last()@));
        }
    }
}

impl Default for FontTable {
    /// An empty font table.
    fn default() -> (r: Self)
        ensures
            r@ == (FontTableV { fonts: Seq::<FontV>::empty() }),
    {
        FontTable::new()
    }
}

// ---------------------------------------------------------------------------
// Ownership normalizer
// ---------------------------------------------------------------------------
impl Charset {
    /// A copy of this record whose fields own their data.  The model is
    /// unchanged, so normalizing twice equals normalizing once.
    pub fn into_owned(self) -> (r: Self)
        ensures
            r@ == self@,
    {
        Charset { value: self.value }
    }
}

impl Family {
    /// A copy of this record whose fields own their data.  The model is
    /// unchanged, so normalizing twice equals normalizing once.
    pub fn into_owned(self) -> (r: Self)
        ensures
            r@ == self@,
    {
        Family { value: self.value }
    }
}

impl Pitch {
    /// A copy of this record whose fields own their data.  The model is
    /// unchanged, so normalizing twice equals normalizing once.
    pub fn into_owned(self) -> (r: Self)
        ensures
            r@ == self@,
    {
        Pitch { value: self.value }
    }
}

impl Font {
    /// A copy of this record whose fields own their data, each nested
    /// record normalized in turn.  The model is unchanged, so normalizing
    /// twice equals normalizing once.
    pub fn into_owned(self) -> (r: Self)
        ensures
            r@ == self@,
    {
        let Font { name, charset, family, pitch } = self;
        Font {
            name,
            charset: match charset {
                Some(c) => Some(c.into_owned()),
                None => None,
            },
            family: match family {
                Some(f) => Some(f.into_owned()),
                None => None,
            },
            pitch: match pitch {
                Some(p) => Some(p.into_owned()),
                None => None,
            },
        }
    }
}

impl FontTable {
    /// A copy of this table whose records own their data, every child
    /// normalized in encounter order.  The model is unchanged, so
    /// normalizing twice equals normalizing once.
    pub fn into_owned(self) -> (r: Self)
        ensures
            r@ == self@,
    {
        let FontTable { mut fonts } = self;
        let ghost orig = fonts_view(fonts@);
        let mut owned: Vec<Font> = Vec::new();
        while fonts.len() > 0
            invariant
                orig == fonts_view(owned@) + fonts_view(fonts@),
            decreases fonts@.len(),
        {
            let ghost fv0 = fonts_view(fonts@);
            let f = fonts.remove(0);
            owned.push(f.into_owned());
            proof {
                assert(fonts_view(owned@) =~= fonts_view(owned@.drop_last()).push(
                    owned@.last()@,
                ));
                assert(fonts_view(fonts@) =~= fv0.drop_first());
                assert(fonts_view(owned@) + fonts_view(fonts@) =~= orig);
            }
        }
        let r = FontTable { fonts: owned };
        proof {
            assert(fonts_view(r.fonts@) + fonts_view(Seq::<Font>::empty()) =~= fonts_view(
                r.fonts@,
            ));
            assert(r@.fonts =~= orig);
        }
        r
    }
}

// ---------------------------------------------------------------------------
// Encode direction
// ---------------------------------------------------------------------------
/// One attribute as it appears inside a start tag; the value is taken as
/// given, so callers pass it already escaped where escaping is wanted.
pub open spec fn xml_attr_text(name: Seq<char>, value: Seq<char>) -> Seq<char> {
    seq![' '] + name + seq!['=', '"'] + value + seq!['"']
}

/// The extra attribute text injected into the root start tag: the two
/// namespace declarations, verbatim.
pub open spec fn table_ns_attrs() -> Seq<char> {
    xml_attr_text(xmlns_w_attr(), spec_schema_main()) + xml_attr_text(
        xmlns_r_attr(),
        spec_schema_relationships(),
    )
}

/// The text of a leaf record: a start tag with one escaped `w:val`
/// attribute and an explicit closing tag.
pub open spec fn xml_of_leaf(tag: Seq<char>, value: Seq<char>) -> Seq<char> {
    seq!['<'] + tag + xml_attr_text(val_attr(), escape_seq(value)) + seq!['>'] + seq!['<', '/']
        + tag + seq!['>']
}

/// The text of an optional leaf: absent fields emit nothing at all.
pub open spec fn xml_of_opt_leaf(tag: Seq<char>, value: Option<Seq<char>>) -> Seq<char> {
    match value {
        Some(v) => xml_of_leaf(tag, v),
        None => Seq::<char>::empty(),
    }
}

/// The text of one font: its escaped name attribute, then each present
/// child in declared field order.
pub open spec fn xml_of_font(f: FontV) -> Seq<char> {
    seq!['<'] + font_tag() + xml_attr_text(name_attr(), escape_seq(f.name)) + seq!['>']
        + xml_of_opt_leaf(charset_tag(), f.charset) + xml_of_opt_leaf(family_tag(), f.family)
        + xml_of_opt_leaf(pitch_tag(), f.pitch) + seq!['<', '/'] + font_tag() + seq!['>']
}

/// The text of a font list: each font's text, in list order.
pub open spec fn xml_of_fonts(fs: Seq<FontV>) -> Seq<char>
    decreases fs.len(),
{
    if fs.len() == 0 {
        Seq::<char>::empty()
    } else {
        xml_of_font(fs.first()) + xml_of_fonts(fs.drop_first())
    }
}

/// The text of the whole table: start tag, namespace declarations, the
/// fonts in order, and an explicit closing tag.
pub open spec fn xml_of_table(t: FontTableV) -> Seq<char> {
    seq!['<'] + fonts_tag() + table_ns_attrs() + seq!['>'] + xml_of_fonts(t.fonts) + seq![
        '<',
        '/',
    ] + fonts_tag() + seq!['>']
}

/// Law: encoding a child list emits the children in list order, piecewise.
pub proof fn lemma_xml_of_fonts_add(a: Seq<FontV>, b: Seq<FontV>)
    ensures
        xml_of_fonts(a + b) == xml_of_fonts(a) + xml_of_fonts(b),
    decreases a.len(),
{
    if a.len() == 0 {
        assert(a + b =~= b);
        assert(xml_of_fonts(a) + xml_of_fonts(b) =~= xml_of_fonts(b));
    } else {
        assert((a + b).drop_first() =~= a.drop_first() + b);
        lemma_xml_of_fonts_add(a.drop_first(), b);
        assert((a + b).first() == a.first());
        assert(xml_of_fonts(a + b) =~= xml_of_fonts(a) + xml_of_fonts(b));
    }
}

/// Law: a table with no fonts encodes to exactly the tag pair, with only
/// the namespace declarations inside the start tag.
pub proof fn lemma_encode_empty(t: FontTableV)
    requires
        t.fonts.len() == 0,
    ensures
        xml_of_table(t) == seq!['<'] + fonts_tag() + table_ns_attrs() + seq!['>'] + seq![
            '<',
            '/',
        ] + fonts_tag() + seq!['>'],
{
    assert(xml_of_table(t) =~= seq!['<'] + fonts_tag() + table_ns_attrs() + seq!['>'] + seq![
        '<',
        '/',
    ] + fonts_tag() + seq!['>']);
}

/// Appends ` name="value"` with the value escaped.
fn write_attr(out: &mut String, name: &str, value: &str)
    ensures
        final(out)@ == old(out)@ + xml_attr_text(name@, escape_seq(value@)),
{
    out.append(" ");
    out.append(name);
    out.append("=\"");
    let e = escape(value);
    out.append(e.as_str());
    out.append("\"");
    proof {
        reveal_strlit(" ");
        reveal_strlit("=\"");
        reveal_strlit("\"");
        assert(" "@ =~= seq![' ']);
        assert("=\""@ =~= seq!['=', '"']);
        assert("\""@ =~= seq!['"']);
        assert(out@ =~= old(out)@ + xml_attr_text(name@, escape_seq(value@)));
    }
}

/// Appends ` name="value"` with the value taken verbatim.
fn write_raw_attr(out: &mut String, name: &str, value: &str)
    ensures
        final(out)@ == old(out)@ + xml_attr_text(name@, value@),
{
    out.append(" ");
    out.append(name);
    out.append("=\"");
    out.append(value);
    out.append("\"");
    proof {
        reveal_strlit(" ");
        reveal_strlit("=\"");
        reveal_strlit("\"");
        assert(" "@ =~= seq![' ']);
        assert("=\""@ =~= seq!['=', '"']);
        assert("\""@ =~= seq!['"']);
        assert(out@ =~= old(out)@ + xml_attr_text(name@, value@));
    }
}

/// The attribute extension hook of the font table: appends the `xmlns:w`
/// and `xmlns:r` namespace declarations to the root start tag.  Only the
/// root of the fragment carries these; nested records do not.
pub fn font_table_extend_attrs(_table: &FontTable, out: &mut String)
    ensures
        final(out)@ == old(out)@ + table_ns_attrs(),
{
    write_raw_attr(out, "xmlns:w", schema_main());
    write_raw_attr(out, "xmlns:r", schema_relationships());
    proof {
        assert(out@ =~= old(out)@ + table_ns_attrs());
    }
}

/// Appends the text of one leaf record.
fn write_leaf(out: &mut String, tag: &str, value: &str)
    ensures
        final(out)@ == old(out)@ + xml_of_leaf(tag@, value@),
{
    out.append("<");
    out.append(tag);
    write_attr(out, "w:val", value);
    out.append(">");
    out.append("</");
    out.append(tag);
    out.append(">");
    proof {
        reveal_strlit("<");
        reveal_strlit(">");
        reveal_strlit("</");
        assert("<"@ =~= seq!['<']);
        assert(">"@ =~= seq!['>']);
        assert("</"@ =~= seq!['<', '/']);
        assert(out@ =~= old(out)@ + xml_of_leaf(tag@, value@));
    }
}

impl Font {
    /// Encodes this font as a subtree, appended to the sink.
    #[verifier::rlimit(50)]
    #[verifier::spinoff_prover]
    pub fn write_xml(&self, out: &mut String)
        ensures
            final(out)@ == old(out)@ + xml_of_font(self@),
    {
        proof {
            reveal_strlit("<");
            reveal_strlit(">");
            reveal_strlit("</");
            assert("<"@ =~= seq!['<']);
            assert(">"@ =~= seq!['>']);
            assert("</"@ =~= seq!['<', '/']);
        }
        out.append("<");
        out.append("w:font");
        write_attr(out, "w:name", self.name.as_str());
        out.append(">");
        let ghost g1 = old(out)@ + seq!['<'] + font_tag() + xml_attr_text(
            name_attr(),
            escape_seq(self@.name),
        ) + seq!['>'];
        proof {
            assert(out@ =~= g1);
        }
        match &self.charset {
            Some(c) => write_leaf(out, "w:charset", c.value.as_str()),
            None => (),
        }
        let ghost g2 = g1 + xml_of_opt_leaf(charset_tag(), self@.charset);
        proof {
            assert(out@ =~= g2);
        }
        match &self.family {
            Some(f) => write_leaf(out, "w:family", f.value.as_str()),
            None => (),
        }
        let ghost g3 = g2 + xml_of_opt_leaf(family_tag(), self@.family);
        proof {
            assert(out@ =~= g3);
        }
        match &self.pitch {
            Some(p) => write_leaf(out, "w:pitch", p.value.as_str()),
            None => (),
        }
        let ghost g4 = g3 + xml_of_opt_leaf(pitch_tag(), self@.pitch);
        proof {
            assert(out@ =~= g4);
        }
        out.append("</");
        out.append("w:font");
        out.append(">");
        proof {
            assert(out@ =~= g4 + seq!['<', '/'] + font_tag() + seq!['>']);
            assert(out@ =~= old(out)@ + xml_of_font(self@));
        }
    }
}

impl FontTable {
    /// Encodes the whole table as XML text: the root start tag with its
    /// namespace declarations, each font in list order, and an explicit
    /// closing tag.
    pub fn to_xml(&self) -> (r: String)
        ensures
            r@ == xml_of_table(self@),
    {
        let mut out = String::new();
        out.append("<");
        out.append("w:fonts");
        font_table_extend_attrs(self, &mut out);
        out.append(">");
        let ghost head = seq!['<'] + fonts_tag() + table_ns_attrs() + seq!['>'];
        proof {
            reveal_strlit("<");
            reveal_strlit(">");
            assert("<"@ =~= seq!['<']);
            assert(">"@ =~= seq!['>']);
            assert(out@ =~= head);
            assert(fonts_view(self.fonts@).subrange(0, 0) =~= Seq::<FontV>::empty());
        }
        let n = self.fonts.len();
        let mut i: usize = 0;
        while i < n
            invariant
                i <= n,
                n == self.fonts@.len(),
                out@ == head + xml_of_fonts(fonts_view(self.fonts@).subrange(0, i as int)),
            decreases n - i,
        {
            let f = &self.fonts[i];
            f.write_xml(&mut out);
            proof {
                let fv = fonts_view(self.fonts@);
                assert(fv[i as int] == self.fonts@[i as int]@);
                lemma_xml_of_fonts_add(fv.subrange(0, i as int), seq![fv[i as int]]);
                assert(fv.subrange(0, i as int) + seq![fv[i as int]] =~= fv.subrange(
                    0,
                    i as int + 1,
                ));
                assert(seq![fv[i as int]].drop_first() =~= Seq::<FontV>::empty());
                assert(seq![fv[i as int]].first() == fv[i as int]);
                assert(xml_of_fonts(Seq::<FontV>::empty()) == Seq::<char>::empty());
                assert(xml_of_fonts(seq![fv[i as int]]) == xml_of_font(fv[i as int])
                    + xml_of_fonts(seq![fv[i as int]].drop_first()));
                assert(xml_of_fonts(seq![fv[i as int]]) =~= xml_of_font(fv[i as int]));
            }
            i = i + 1;
        }
        out.append("</");
        out.append("w:fonts");
        out.append(">");
        proof {
            reveal_strlit("</");
            reveal_strlit(">");
            assert("</"@ =~= seq!['<', '/']);
            assert(">"@ =~= seq!['>']);
            assert(fonts_view(self.fonts@).subrange(0, n as int) =~= self@.fonts);
            assert(out@ =~= xml_of_table(self@));
        }
        out
    }
}

// ---------------------------------------------------------------------------
// Decode direction
// ---------------------------------------------------------------------------
/// The outcome of decoding a leaf record with tag `tag` at `pos`: its
/// unescaped `w:val` attribute and the position past its end tag.
pub open spec fn sp_decode_leaf(toks: Seq<TokV>, pos: int, tag: Seq<char>) -> Result<
    (Seq<char>, int),
    XmlErrorV,
> {
    match sp_expect_start(toks, pos, tag) {
        Err(e) => Err(e),
        Ok(apos) => match sp_find_attr(toks, apos, val_attr()) {
            None => Err(XmlErrorV::MissingAttribute { name: val_attr() }),
            Some(raw) => match unescape_seq(raw) {
                None => Err(XmlErrorV::UnrecognizedEntity),
                Some(value) => match sp_close(toks, sp_attr_end(toks, apos), tag) {
                    Err(e) => Err(e),
                    Ok(end) => Ok((value, end)),
                },
            },
        },
    }
}

/// The child loop of a font: each recognized child routes to its leaf
/// decode (last wins when repeated), unrecognized children are skipped,
/// and the font's end tag finishes the record.
pub open spec fn sp_font_fields(toks: Seq<TokV>, pos: int, f: FontV) -> Result<
    (FontV, int),
    XmlErrorV,
>
    decreases toks.len() - pos
        when 0 <= pos <= toks.len()
{
    if pos >= toks.len() {
        Err(XmlErrorV::UnbalancedTag)
    } else {
        match toks[pos] {
            TokV::End { name } => if name == font_tag() {
                Ok((f, pos + 1))
            } else {
                Err(XmlErrorV::UnbalancedTag)
            },
            TokV::Start { name } => if name == charset_tag() {
                match sp_decode_leaf(toks, pos, charset_tag()) {
                    Ok(r) => if pos < r.1 <= toks.len() {
                        sp_font_fields(
                            toks,
                            r.1,
                            FontV { name: f.name, charset: Some(r.0), family: f.family, pitch: f.pitch },
                        )
                    } else {
                        Err(XmlErrorV::UnbalancedTag)
                    },
                    Err(e) => Err(e),
                }
            } else if name == family_tag() {
                match sp_decode_leaf(toks, pos, family_tag()) {
                    Ok(r) => if pos < r.1 <= toks.len() {
                        sp_font_fields(
                            toks,
                            r.1,
                            FontV { name: f.name, charset: f.charset, family: Some(r.0), pitch: f.pitch },
                        )
                    } else {
                        Err(XmlErrorV::UnbalancedTag)
                    },
                    Err(e) => Err(e),
                }
            } else if name == pitch_tag() {
                match sp_decode_leaf(toks, pos, pitch_tag()) {
                    Ok(r) => if pos < r.1 <= toks.len() {
                        sp_font_fields(
                            toks,
                            r.1,
                            FontV { name: f.name, charset: f.charset, family: f.family, pitch: Some(r.0) },
                        )
                    } else {
                        Err(XmlErrorV::UnbalancedTag)
                    },
                    Err(e) => Err(e),
                }
            } else {
                match sp_skip_subtree(toks, pos) {
                    Some(p) => if pos < p <= toks.len() {
                        sp_font_fields(toks, p, f)
                    } else {
                        Err(XmlErrorV::UnbalancedTag)
                    },
                    None => Err(XmlErrorV::UnbalancedTag),
                }
            },
            _ => sp_font_fields(toks, pos + 1, f),
        }
    }
}

/// The outcome of decoding one font at `pos`: its required `w:name`
/// attribute, then its children, then the position past its end tag.
pub open spec fn sp_decode_font(toks: Seq<TokV>, pos: int) -> Result<(FontV, int), XmlErrorV> {
    match sp_expect_start(toks, pos, font_tag()) {
        Err(e) => Err(e),
        Ok(apos) => match sp_find_attr(toks, apos, name_attr()) {
            None => Err(XmlErrorV::MissingAttribute { name: name_attr() }),
            Some(raw) => match unescape_seq(raw) {
                None => Err(XmlErrorV::UnrecognizedEntity),
                Some(nm) => sp_font_fields(
                    toks,
                    sp_attr_end(toks, apos),
                    FontV { name: nm, charset: None, family: None, pitch: None },
                ),
            },
        },
    }
}

/// The child loop of the table: each `w:font` child decodes and is
/// appended in encounter order, unrecognized children are skipped, and the
/// table's end tag finishes the record.
pub open spec fn sp_table_fonts(toks: Seq<TokV>, pos: int, fs: Seq<FontV>) -> Result<
    (Seq<FontV>, int),
    XmlErrorV,
>
    decreases toks.len() - pos
        when 0 <= pos <= toks.len()
{
    if pos >= toks.len() {
        Err(XmlErrorV::UnbalancedTag)
    } else {
        match toks[pos] {
            TokV::End { name } => if name == fonts_tag() {
                Ok((fs, pos + 1))
            } else {
                Err(XmlErrorV::UnbalancedTag)
            },
            TokV::Start { name } => if name == font_tag() {
                match sp_decode_font(toks, pos) {
                    Ok(r) => if pos < r.1 <= toks.len() {
                        sp_table_fonts(toks, r.1, fs.push(r.0))
                    } else {
                        Err(XmlErrorV::UnbalancedTag)
                    },
                    Err(e) => Err(e),
                }
            } else {
                match sp_skip_subtree(toks, pos) {
                    Some(p) => if pos < p <= toks.len() {
                        sp_table_fonts(toks, p, fs)
                    } else {
                        Err(XmlErrorV::UnbalancedTag)
                    },
                    None => Err(XmlErrorV::UnbalancedTag),
                }
            },
            _ => sp_table_fonts(toks, pos + 1, fs),
        }
    }
}

/// The outcome of decoding a font table at `pos`.  Attributes of the start
/// tag — the namespace declarations among them — are ignored: the table
/// declares no attribute fields.
pub open spec fn sp_decode_table(toks: Seq<TokV>, pos: int) -> Result<
    (FontTableV, int),
    XmlErrorV,
> {
    match sp_expect_start(toks, pos, fonts_tag()) {
        Err(e) => Err(e),
        Ok(apos) => match sp_table_fonts(toks, sp_attr_end(toks, apos), Seq::<FontV>::empty()) {
            Err(e) => Err(e),
            Ok(r) => Ok((FontTableV { fonts: r.0 }, r.1)),
        },
    }
}

/// Decodes a leaf record: expects the start tag, takes the required
/// `w:val` attribute unescaped, skips unknown children, and consumes the
/// matching end tag.
pub fn decode_leaf(toks: &Vec<Token>, pos: usize, tag: &str) -> (res: Result<
    (String, usize),
    XmlError,
>)
    ensures
        match res {
            Ok(r) => sp_decode_leaf(toks_view(toks@), pos as int, tag@) == Ok::<
                (Seq<char>, int),
                XmlErrorV,
            >((r.0@, r.1 as int)) && pos < r.1 <= toks@.len(),
            Err(e) => sp_decode_leaf(toks_view(toks@), pos as int, tag@) == Err::<
                (Seq<char>, int),
                XmlErrorV,
            >(e@),
        },
{
    let apos = match expect_start(toks, pos, tag) {
        Ok(p) => p,
        Err(e) => {
            return Err(e);
        },
    };
    let raw = match find_attr(toks, apos, "w:val") {
        Some(v) => v,
        None => {
            return Err(XmlError::MissingAttribute { name: "w:val".to_owned() });
        },
    };
    let value = match unescape(raw.as_str()) {
        Ok(v) => v,
        Err(e) => {
            return Err(e);
        },
    };
    let cpos = attr_end(toks, apos);
    let end = match close_element(toks, cpos, tag) {
        Ok(p) => p,
        Err(e) => {
            return Err(e);
        },
    };
    Ok((value, end))
}

impl Font {
    /// Decodes one font from the token stream, the cursor standing at its
    /// start tag.  Unknown attributes and children are ignored; a repeated
    /// recognized child overwrites the earlier one (last wins).
    pub fn decode(toks: &Vec<Token>, pos: usize) -> (res: Result<(Font, usize), XmlError>)
        ensures
            match res {
                Ok(r) => sp_decode_font(toks_view(toks@), pos as int) == Ok::<
                    (FontV, int),
                    XmlErrorV,
                >((r.0@, r.1 as int)) && pos < r.1 <= toks@.len(),
                Err(e) => sp_decode_font(toks_view(toks@), pos as int) == Err::<
                    (FontV, int),
                    XmlErrorV,
                >(e@),
            },
    {
        let ghost tv = toks_view(toks@);
        let apos = match expect_start(toks, pos, "w:font") {
            Ok(p) => p,
            Err(e) => {
                return Err(e);
            },
        };
        let raw = match find_attr(toks, apos, "w:name") {
            Some(v) => v,
            None => {
                return Err(XmlError::MissingAttribute { name: "w:name".to_owned() });
            },
        };
        let name = match unescape(raw.as_str()) {
            Ok(v) => v,
            Err(e) => {
                return Err(e);
            },
        };
        let cpos = attr_end(toks, apos);
        let mut font = Font { name, charset: None, family: None, pitch: None };
        let mut i: usize = cpos;
        loop
            invariant
                pos < i <= toks@.len(),
                tv == toks_view(toks@),
                tv.len() == toks@.len(),
                sp_font_fields(tv, i as int, font@) == sp_decode_font(tv, pos as int),
            decreases toks@.len() - i,
        {
            if i >= toks.len() {
                return Err(XmlError::UnbalancedTag);
            }
            proof {
                assert(tv[i as int] == toks@[i as int]@);
            }
            let ghost f0 = font@;
            match &toks[i] {
                Token::End { name: n } => {
                    if str_eq(n.as_str(), "w:font") {
                        return Ok((font, i + 1));
                    } else {
                        return Err(XmlError::UnbalancedTag);
                    }
                },
                Token::Start { name: n } => {
                    if str_eq(n.as_str(), "w:charset") {
                        match decode_leaf(toks, i, "w:charset") {
                            Ok(r) => {
                                let (v, p) = r;
                                font.charset = Some(Charset { value: v });
                                proof {
                                    assert(font@ =~= (FontV {
                                        name: f0.name,
                                        charset: font@.charset,
                                        family: f0.family,
                                        pitch: f0.pitch,
                                    }));
                                }
                                i = p;
                            },
                            Err(e) => {
                                return Err(e);
                            },
                        }
                    } else if str_eq(n.as_str(), "w:family") {
                        match decode_leaf(toks, i, "w:family") {
                            Ok(r) => {
                                let (v, p) = r;
                                font.family = Some(Family { value: v });
                                proof {
                                    assert(font@ =~= (FontV {
                                        name: f0.name,
                                        charset: f0.charset,
                                        family: font@.family,
                                        pitch: f0.pitch,
                                    }));
                                }
                                i = p;
                            },
                            Err(e) => {
                                return Err(e);
                            },
                        }
                    } else if str_eq(n.as_str(), "w:pitch") {
                        match decode_leaf(toks, i, "w:pitch") {
                            Ok(r) => {
                                let (v, p) = r;
                                font.pitch = Some(Pitch { value: v });
                                proof {
                                    assert(font@ =~= (FontV {
                                        name: f0.name,
                                        charset: f0.charset,
                                        family: f0.family,
                                        pitch: font@.pitch,
                                    }));
                                }
                                i = p;
                            },
                            Err(e) => {
                                return Err(e);
                            },
                        }
                    } else {
                        match skip_subtree(toks, i) {
                            Ok(p) => {
                                i = p;
                            },
                            Err(e) => {
                                return Err(e);
                            },
                        }
                    }
                },
                _ => {
                    i = i + 1;
                },
            }
        }
    }
}

impl FontTable {
    /// Decodes a font table from the token stream, the cursor standing at
    /// its start tag.  Unknown attributes — the namespace declarations
    /// among them — and unknown children are ignored; recognized children
    /// are collected in encounter order.
    pub fn decode(toks: &Vec<Token>, pos: usize) -> (res: Result<(FontTable, usize), XmlError>)
        ensures
            match res {
                Ok(r) => sp_decode_table(toks_view(toks@), pos as int) == Ok::<
                    (FontTableV, int),
                    XmlErrorV,
                >((r.0@, r.1 as int)) && pos < r.1 <= toks@.len(),
                Err(e) => sp_decode_table(toks_view(toks@), pos as int) == Err::<
                    (FontTableV, int),
                    XmlErrorV,
                >(e@),
            },
    {
        let ghost tv = toks_view(toks@);
        let apos = match expect_start(toks, pos, "w:fonts") {
            Ok(p) => p,
            Err(e) => {
                return Err(e);
            },
        };
        let cpos = attr_end(toks, apos);
        let mut fonts: Vec<Font> = Vec::new();
        let mut i: usize = cpos;
        proof {
            assert(fonts_view(fonts@) =~= Seq::<FontV>::empty());
        }
        loop
            invariant
                pos < i <= toks@.len(),
                tv == toks_view(toks@),
                tv.len() == toks@.len(),
                sp_table_fonts(tv, i as int, fonts_view(fonts@)) == sp_table_fonts(
                    tv,
                    sp_attr_end(tv, pos as int + 1),
                    Seq::<FontV>::empty(),
                ),
                sp_expect_start(tv, pos as int, fonts_tag()) == Ok::<int, XmlErrorV>(
                    pos as int + 1,
                ),
            decreases toks@.len() - i,
        {
            if i >= toks.len() {
                return Err(XmlError::UnbalancedTag);
            }
            proof {
                assert(tv[i as int] == toks@[i as int]@);
            }
            let ghost fs0 = fonts_view(fonts@);
            match &toks[i] {
                Token::End { name: n } => {
                    if str_eq(n.as_str(), "w:fonts") {
                        let table = FontTable { fonts };
                        return Ok((table, i + 1));
                    } else {
                        return Err(XmlError::UnbalancedTag);
                    }
                },
                Token::Start { name: n } => {
                    if str_eq(n.as_str(), "w:font") {
                        match Font::decode(toks, i) {
                            Ok(r) => {
                                let (f, p) = r;
                                fonts.push(f);
                                proof {
                                    assert(fonts_view(fonts@) =~= fs0.push(
                                        fonts@.last()@,
                                    ));
                                }
                                i = p;
                            },
                            Err(e) => {
                                return Err(e);
                            },
                        }
                    } else {
                        match skip_subtree(toks, i) {
                            Ok(p) => {
                                i = p;
                            },
                            Err(e) => {
                                return Err(e);
                            },
                        }
                    }
                },
                _ => {
                    i = i + 1;
                },
            }
        }
    }
}

// ---------------------------------------------------------------------------
// Token encoding, and the round-trip law
// ---------------------------------------------------------------------------
/// The token encoding of a leaf record: start tag, escaped `w:val`
/// attribute, end tag.
pub open spec fn toks_of_leaf(tag: Seq<char>, value: Seq<char>) -> Seq<TokV> {
    seq![
        TokV::Start { name: tag },
        TokV::Attr { name: val_attr(), value: escape_seq(value) },
        TokV::End { name: tag },
    ]
}

/// The token encoding of an optional leaf: absent fields emit no tokens.
pub open spec fn toks_of_opt_leaf(tag: Seq<char>, value: Option<Seq<char>>) -> Seq<TokV> {
    match value {
        Some(v) => toks_of_leaf(tag, v),
        None => Seq::<TokV>::empty(),
    }
}

/// The token encoding of one font: start tag, escaped name attribute, each
/// present child in declared field order, end tag.
pub open spec fn toks_of_font(f: FontV) -> Seq<TokV> {
    seq![
        TokV::Start { name: font_tag() },
        TokV::Attr { name: name_attr(), value: escape_seq(f.name) },
    ] + toks_of_opt_leaf(charset_tag(), f.charset) + toks_of_opt_leaf(family_tag(), f.family)
        + toks_of_opt_leaf(pitch_tag(), f.pitch) + seq![TokV::End { name: font_tag() }]
}

/// The token encoding of a font list: each font's tokens, in list order.
pub open spec fn toks_of_fonts(fs: Seq<FontV>) -> Seq<TokV>
    decreases fs.len(),
{
    if fs.len() == 0 {
        Seq::<TokV>::empty()
    } else {
        toks_of_font(fs.first()) + toks_of_fonts(fs.drop_first())
    }
}

/// The token encoding of the whole table: start tag, the two namespace
/// declarations as plain attributes, the fonts in order, end tag.
pub open spec fn toks_of_table(t: FontTableV) -> Seq<TokV> {
    seq![
        TokV::Start { name: fonts_tag() },
        TokV::Attr { name: xmlns_w_attr(), value: spec_schema_main() },
        TokV::Attr { name: xmlns_r_attr(), value: spec_schema_relationships() },
    ] + toks_of_fonts(t.fonts) + seq![TokV::End { name: fonts_tag() }]
}

/// Decoding a leaf's own token encoding yields its value back.
proof fn lemma_decode_leaf_of_tokens(toks: Seq<TokV>, pos: int, tag: Seq<char>, v: Seq<char>)
    requires
        0 <= pos,
        pos + 3 <= toks.len(),
        toks[pos] == (TokV::Start { name: tag }),
        toks[pos + 1] == (TokV::Attr { name: val_attr(), value: escape_seq(v) }),
        toks[pos + 2] == (TokV::End { name: tag }),
    ensures
        sp_decode_leaf(toks, pos, tag) == Ok::<(Seq<char>, int), XmlErrorV>((v, pos + 3)),
{
    assert(sp_expect_start(toks, pos, tag) == Ok::<int, XmlErrorV>(pos + 1));
    assert(sp_find_attr(toks, pos + 1, val_attr()) == Some(escape_seq(v)));
    crate::codec::lemma_unescape_escape(v);
    assert(sp_attr_end(toks, pos + 1) == sp_attr_end(toks, pos + 2));
    assert(sp_attr_end(toks, pos + 2) == pos + 2);
    assert(sp_close(toks, pos + 2, tag) == Ok::<int, XmlErrorV>(pos + 3));
}

/// Decoding a font's own token encoding yields the font back.
proof fn lemma_decode_font_of_tokens(toks: Seq<TokV>, pos: int, f: FontV)
    requires
        0 <= pos,
        pos + toks_of_font(f).len() <= toks.len(),
        forall|k: int|
            0 <= k < toks_of_font(f).len() ==> toks[pos + k] == #[trigger] toks_of_font(f)[k],
    ensures
        sp_decode_font(toks, pos) == Ok::<(FontV, int), XmlErrorV>(
            (f, pos + toks_of_font(f).len()),
        ),
{
    reveal_strlit("w:font");
    reveal_strlit("w:charset");
    reveal_strlit("w:family");
    reveal_strlit("w:pitch");
    assert(charset_tag().len() == 9 && family_tag().len() == 8 && pitch_tag().len() == 7);
    assert(family_tag() != charset_tag());
    assert(pitch_tag() != charset_tag());
    assert(pitch_tag() != family_tag());
    let ft = toks_of_font(f);
    let base = seq![
        TokV::Start { name: font_tag() },
        TokV::Attr { name: name_attr(), value: escape_seq(f.name) },
    ];
    let ct = toks_of_opt_leaf(charset_tag(), f.charset);
    let fa = toks_of_opt_leaf(family_tag(), f.family);
    let pt = toks_of_opt_leaf(pitch_tag(), f.pitch);
    let tail = seq![TokV::End { name: font_tag() }];
    assert(ft == base + ct + fa + pt + tail);
    let lc = ct.len() as int;
    let lf = fa.len() as int;
    let lp = pt.len() as int;
    assert(ft.len() == 3 + lc + lf + lp);
    assert(forall|k: int| 0 <= k < ft.len() ==> toks[pos + k] == #[trigger] ft[k]);
    // The start tag and the name attribute.
    assert(toks[pos + 0] == ft[0]);
    assert(toks[pos + 1] == ft[1]);
    assert(toks[pos + 2] == ft[2]);
    assert(ft[0] == base[0]);
    assert(ft[1] == base[1]);
    assert(toks[pos] == (TokV::Start { name: font_tag() }));
    assert(toks[pos + 1] == (TokV::Attr { name: name_attr(), value: escape_seq(f.name) }));
    assert(sp_expect_start(toks, pos, font_tag()) == Ok::<int, XmlErrorV>(pos + 1));
    assert(sp_find_attr(toks, pos + 1, name_attr()) == Some(escape_seq(f.name)));
    crate::codec::lemma_unescape_escape(f.name);
    // The attribute run ends at the first child or at the end tag.
    assert(toks[pos + 2] == ft[2]);
    assert(!(ft[2] is Attr));
    assert(sp_attr_end(toks, pos + 2) == pos + 2);
    assert(sp_attr_end(toks, pos + 1) == pos + 2);
    // Walk the three optional children in declared order.
    let f0 = FontV { name: f.name, charset: None, family: None, pitch: None };
    let p1 = pos + 2;
    let p2 = p1 + lc;
    let p3 = p2 + lf;
    let p4 = p3 + lp;
    let f1 = FontV { name: f.name, charset: f.charset, family: None, pitch: None };
    let f2 = FontV { name: f.name, charset: f.charset, family: f.family, pitch: None };
    if f.charset is Some {
        let v = f.charset->Some_0;
        assert(ct == toks_of_leaf(charset_tag(), v));
        assert(ft[2] == ct[0] && ft[3] == ct[1] && ft[4] == ct[2]);
        assert(toks[pos + 2] == ft[2] && toks[pos + 3] == ft[3] && toks[pos + 4] == ft[4]);
        assert(toks[p1] == (TokV::Start { name: charset_tag() }));
        assert(toks[p1 + 1] == (TokV::Attr { name: val_attr(), value: escape_seq(v) }));
        assert(toks[p1 + 2] == (TokV::End { name: charset_tag() }));
        lemma_decode_leaf_of_tokens(toks, p1, charset_tag(), v);
        assert(sp_font_fields(toks, p1, f0) == sp_font_fields(toks, p2, f1));
    } else {
        assert(p1 == p2);
        assert(f0 == f1);
    }
    if f.family is Some {
        let v = f.family->Some_0;
        assert(fa == toks_of_leaf(family_tag(), v));
        assert(ft[2 + lc] == fa[0] && ft[3 + lc] == fa[1] && ft[4 + lc] == fa[2]);
        assert(toks[pos + (2 + lc)] == ft[2 + lc] && toks[pos + (3 + lc)] == ft[3 + lc]
            && toks[pos + (4 + lc)] == ft[4 + lc]);
        assert(toks[p2] == (TokV::Start { name: family_tag() }));
        assert(toks[p2 + 1] == (TokV::Attr { name: val_attr(), value: escape_seq(v) }));
        assert(toks[p2 + 2] == (TokV::End { name: family_tag() }));
        lemma_decode_leaf_of_tokens(toks, p2, family_tag(), v);
        assert(sp_font_fields(toks, p2, f1) == sp_font_fields(toks, p3, f2));
    } else {
        assert(p2 == p3);
        assert(f1 == f2);
    }
    if f.pitch is Some {
        let v = f.pitch->Some_0;
        assert(pt == toks_of_leaf(pitch_tag(), v));
        assert(ft[2 + lc + lf] == pt[0] && ft[3 + lc + lf] == pt[1] && ft[4 + lc + lf] == pt[2]);
        assert(toks[pos + (2 + lc + lf)] == ft[2 + lc + lf] && toks[pos + (3 + lc + lf)] == ft[3
            + lc + lf] && toks[pos + (4 + lc + lf)] == ft[4 + lc + lf]);
        assert(toks[p3] == (TokV::Start { name: pitch_tag() }));
        assert(toks[p3 + 1] == (TokV::Attr { name: val_attr(), value: escape_seq(v) }));
        assert(toks[p3 + 2] == (TokV::End { name: pitch_tag() }));
        lemma_decode_leaf_of_tokens(toks, p3, pitch_tag(), v);
        assert(sp_font_fields(toks, p3, f2) == sp_font_fields(toks, p4, f));
    } else {
        assert(p3 == p4);
        assert(f2 =~= f);
    }
    // The end tag closes the font.
    assert(ft[2 + lc + lf + lp] == tail[0]);
    assert(toks[pos + (2 + lc + lf + lp)] == ft[2 + lc + lf + lp]);
    assert(toks[p4] == (TokV::End { name: font_tag() }));
    assert(sp_font_fields(toks, p4, f) == Ok::<(FontV, int), XmlErrorV>((f, p4 + 1)));
    assert(p4 + 1 == pos + ft.len());
}

/// Decoding the token encoding of a font list, closed by the table's end
/// tag, appends exactly those fonts to the accumulator.
proof fn lemma_decode_fonts_of_tokens(toks: Seq<TokV>, pos: int, fs: Seq<FontV>, acc: Seq<FontV>)
    requires
        0 <= pos,
        pos + toks_of_fonts(fs).len() + 1 <= toks.len(),
        forall|k: int|
            0 <= k < toks_of_fonts(fs).len() ==> toks[pos + k] == #[trigger] toks_of_fonts(
                fs,
            )[k],
        toks[pos + toks_of_fonts(fs).len()] == (TokV::End { name: fonts_tag() }),
    ensures
        sp_table_fonts(toks, pos, acc) == Ok::<(Seq<FontV>, int), XmlErrorV>(
            (acc + fs, pos + toks_of_fonts(fs).len() + 1),
        ),
    decreases fs.len(),
{
    reveal_strlit("w:fonts");
    reveal_strlit("w:font");
    if fs.len() == 0 {
        assert(toks[pos] == (TokV::End { name: fonts_tag() }));
        assert(acc + fs =~= acc);
    } else {
        let f0 = fs.first();
        let ft = toks_of_font(f0);
        let rest = toks_of_fonts(fs.drop_first());
        assert(toks_of_fonts(fs) == ft + rest);
        assert forall|k: int| 0 <= k < ft.len() implies toks[pos + k] == #[trigger] ft[k] by {
            assert(toks[pos + k] == toks_of_fonts(fs)[k]);
            assert(toks_of_fonts(fs)[k] == ft[k]);
        }
        lemma_decode_font_of_tokens(toks, pos, f0);
        assert(toks[pos + 0] == ft[0]);
        assert(toks[pos] == (TokV::Start { name: font_tag() }));
        let p = pos + ft.len();
        assert(ft.len() >= 3);
        assert forall|k: int| 0 <= k < rest.len() implies toks[p + k] == #[trigger] rest[k] by {
            assert(toks[pos + (ft.len() + k)] == toks_of_fonts(fs)[ft.len() + k]);
            assert(toks_of_fonts(fs)[ft.len() + k] == rest[k]);
            assert(pos + (ft.len() + k) == p + k);
        }
        assert(toks[pos + toks_of_fonts(fs).len() as int] == (TokV::End { name: fonts_tag() }));
        assert(p + rest.len() == pos + toks_of_fonts(fs).len());
        assert(toks[p + rest.len() as int] == (TokV::End { name: fonts_tag() }));
        lemma_decode_fonts_of_tokens(toks, p, fs.drop_first(), acc.push(f0));
        assert(acc.push(f0) + fs.drop_first() =~= acc + fs);
        assert(sp_table_fonts(toks, pos, acc) == sp_table_fonts(toks, p, acc.push(f0)));
    }
}

/// Law: decoding the token encoding of any table yields that table back,
/// consuming every token.  Together with the contracts of `to_tokens` and
/// `decode`, this is the record-to-record round trip.
pub proof fn lemma_round_trip(t: FontTableV)
    ensures
        sp_decode_table(toks_of_table(t), 0) == Ok::<(FontTableV, int), XmlErrorV>(
            (t, toks_of_table(t).len() as int),
        ),
{
    reveal_strlit("w:fonts");
    let toks = toks_of_table(t);
    let head = seq![
        TokV::Start { name: fonts_tag() },
        TokV::Attr { name: xmlns_w_attr(), value: spec_schema_main() },
        TokV::Attr { name: xmlns_r_attr(), value: spec_schema_relationships() },
    ];
    let body = toks_of_fonts(t.fonts);
    let tail = seq![TokV::End { name: fonts_tag() }];
    assert(toks == head + body + tail);
    assert(toks[0] == (TokV::Start { name: fonts_tag() }));
    assert(sp_expect_start(toks, 0, fonts_tag()) == Ok::<int, XmlErrorV>(1));
    assert(toks[1] is Attr);
    assert(toks[2] is Attr);
    if t.fonts.len() == 0 {
        assert(toks[3] == tail[0]);
        assert(!(toks[3] is Attr));
    } else {
        assert(toks[3] == toks_of_font(t.fonts.first())[0]);
        assert(!(toks[3] is Attr));
    }
    assert(sp_attr_end(toks, 3) == 3);
    assert(sp_attr_end(toks, 2) == 3);
    assert(sp_attr_end(toks, 1) == 3);
    assert forall|k: int| 0 <= k < body.len() implies toks[3 + k] == #[trigger] body[k] by {
        assert(toks[3 + k] == (head + body + tail)[3 + k]);
        assert((head + body + tail)[3 + k] == body[k]);
    }
    assert(toks[3 + body.len() as int] == tail[0]);
    assert(toks[3 + body.len() as int] == (TokV::End { name: fonts_tag() }));
    lemma_decode_fonts_of_tokens(toks, 3, t.fonts, Seq::<FontV>::empty());
    assert(Seq::<FontV>::empty() + t.fonts =~= t.fonts);
    assert((FontTableV { fonts: t.fonts }) =~= t);
    assert(toks.len() == 3 + body.len() + 1);
}

/// Appends the token encoding of one leaf record.
fn push_leaf_tokens(out: &mut Vec<Token>, tag: &str, value: &str)
    ensures
        toks_view(final(out)@) == toks_view(old(out)@) + toks_of_leaf(tag@, value@),
{
    let ghost g0 = toks_view(out@);
    out.push(Token::Start { name: tag.to_owned() });
    proof {
        assert(toks_view(out@) =~= g0.push(out@.last()@));
    }
    let ghost g1 = toks_view(out@);
    let escaped = escape(value);
    out.push(Token::Attr { name: "w:val".to_owned(), value: escaped });
    proof {
        assert(toks_view(out@) =~= g1.push(out@.last()@));
    }
    let ghost g2 = toks_view(out@);
    out.push(Token::End { name: tag.to_owned() });
    proof {
        assert(toks_view(out@) =~= g2.push(out@.last()@));
        assert(toks_view(out@) =~= toks_view(old(out)@) + toks_of_leaf(tag@, value@));
    }
}

impl Font {
    /// Appends this font's token encoding: the tokens that decode back to
    /// this font.
    pub fn push_tokens(&self, out: &mut Vec<Token>)
        ensures
            toks_view(final(out)@) == toks_view(old(out)@) + toks_of_font(self@),
    {
        let ghost g0 = toks_view(out@);
        out.push(Token::Start { name: "w:font".to_owned() });
        proof {
            assert(toks_view(out@) =~= g0.push(out@.last()@));
        }
        let ghost g1 = toks_view(out@);
        let escaped = escape(self.name.as_str());
        out.push(Token::Attr { name: "w:name".to_owned(), value: escaped });
        proof {
            assert(toks_view(out@) =~= g1.push(out@.last()@));
        }
        match &self.charset {
            Some(c) => push_leaf_tokens(out, "w:charset", c.value.as_str()),
            None => (),
        }
        let ghost g2 = toks_view(out@);
        proof {
            assert(g2 =~= toks_view(old(out)@) + seq![
                TokV::Start { name: font_tag() },
                TokV::Attr { name: name_attr(), value: escape_seq(self@.name) },
            ] + toks_of_opt_leaf(charset_tag(), self@.charset));
        }
        match &self.family {
            Some(f) => push_leaf_tokens(out, "w:family", f.value.as_str()),
            None => (),
        }
        let ghost g3 = toks_view(out@);
        proof {
            assert(g3 =~= g2 + toks_of_opt_leaf(family_tag(), self@.family));
        }
        match &self.pitch {
            Some(p) => push_leaf_tokens(out, "w:pitch", p.value.as_str()),
            None => (),
        }
        let ghost g4 = toks_view(out@);
        proof {
            assert(g4 =~= g3 + toks_of_opt_leaf(pitch_tag(), self@.pitch));
        }
        out.push(Token::End { name: "w:font".to_owned() });
        proof {
            assert(toks_view(out@) =~= g4.push(out@.last()@));
            assert(toks_view(out@) =~= toks_view(old(out)@) + toks_of_font(self@));
        }
    }
}

impl FontTable {
    /// The table's token encoding: the tokens that decode back to this
    /// table, namespace declarations included.
    pub fn to_tokens(&self) -> (r: Vec<Token>)
        ensures
            toks_view(r@) == toks_of_table(self@),
    {
        let mut out: Vec<Token> = Vec::new();
        let ghost g0 = toks_view(out@);
        out.push(Token::Start { name: "w:fonts".to_owned() });
        proof {
            assert(toks_view(out@) =~= g0.push(out@.last()@));
        }
        let ghost g1 = toks_view(out@);
        out.push(Token::Attr { name: "xmlns:w".to_owned(), value: schema_main().to_owned() });
        proof {
            assert(toks_view(out@) =~= g1.push(out@.last()@));
        }
        let ghost g2 = toks_view(out@);
        out.push(
            Token::Attr { name: "xmlns:r".to_owned(), value: schema_relationships().to_owned() },
        );
        proof {
            assert(toks_view(out@) =~= g2.push(out@.last()@));
        }
        let ghost head = toks_view(out@);
        proof {
            assert(head =~= seq![
                TokV::Start { name: fonts_tag() },
                TokV::Attr { name: xmlns_w_attr(), value: spec_schema_main() },
                TokV::Attr { name: xmlns_r_attr(), value: spec_schema_relationships() },
            ]);
            assert(fonts_view(self.fonts@).subrange(0, 0) =~= Seq::<FontV>::empty());
            assert(head + toks_of_fonts(Seq::<FontV>::empty()) =~= head);
        }
        let n = self.fonts.len();
        let mut i: usize = 0;
        while i < n
            invariant
                i <= n,
                n == self.fonts@.len(),
                toks_view(out@) == head + toks_of_fonts(fonts_view(self.fonts@).subrange(
                    0,
                    i as int,
                )),
                head == seq![
                    TokV::Start { name: fonts_tag() },
                    TokV::Attr { name: xmlns_w_attr(), value: spec_schema_main() },
                    TokV::Attr { name: xmlns_r_attr(), value: spec_schema_relationships() },
                ],
            decreases n - i,
        {
            let f = &self.fonts[i];
            f.push_tokens(&mut out);
            proof {
                let fv = fonts_view(self.fonts@);
                assert(fv[i as int] == self.fonts@[i as int]@);
                lemma_toks_of_fonts_add(fv.subrange(0, i as int), seq![fv[i as int]]);
                assert(fv.subrange(0, i as int) + seq![fv[i as int]] =~= fv.subrange(
                    0,
                    i as int + 1,
                ));
                assert(seq![fv[i as int]].drop_first() =~= Seq::<FontV>::empty());
                assert(seq![fv[i as int]].first() == fv[i as int]);
                assert(toks_of_fonts(Seq::<FontV>::empty()) == Seq::<TokV>::empty());
                assert(toks_of_fonts(seq![fv[i as int]]) == toks_of_font(fv[i as int])
                    + toks_of_fonts(seq![fv[i as int]].drop_first()));
                assert(toks_of_fonts(seq![fv[i as int]]) =~= toks_of_font(fv[i as int]));
            }
            i = i + 1;
        }
        let ghost g5 = toks_view(out@);
        out.push(Token::End { name: "w:fonts".to_owned() });
        proof {
            assert(toks_view(out@) =~= g5.push(out@.last()@));
            assert(fonts_view(self.fonts@).subrange(0, n as int) =~= self@.fonts);
            assert(toks_view(out@) =~= toks_of_table(self@));
        }
        out
    }
}

/// Law: an unrecognized child element among the table's children is
/// skipped whole and contributes nothing: decoding continues past its
/// subtree with the same fonts collected.
pub proof fn lemma_unknown_child_ignored(
    toks: Seq<TokV>,
    pos: int,
    fs: Seq<FontV>,
    name: Seq<char>,
    p: int,
)
    requires
        0 <= pos < toks.len(),
        toks[pos] == (TokV::Start { name }),
        name != font_tag(),
        sp_skip_subtree(toks, pos) == Some(p),
        pos < p <= toks.len(),
    ensures
        sp_table_fonts(toks, pos, fs) == sp_table_fonts(toks, p, fs),
{
}

/// Token encoding of a child list is piecewise, in list order.
proof fn lemma_toks_of_fonts_add(a: Seq<FontV>, b: Seq<FontV>)
    ensures
        toks_of_fonts(a + b) == toks_of_fonts(a) + toks_of_fonts(b),
    decreases a.len(),
{
    if a.len() == 0 {
        assert(a + b =~= b);
        assert(toks_of_fonts(a) + toks_of_fonts(b) =~= toks_of_fonts(b));
    } else {
        assert((a + b).drop_first() =~= a.drop_first() + b);
        lemma_toks_of_fonts_add(a.drop_first(), b);
        assert((a + b).first() == a.first());
        assert(toks_of_fonts(a + b) =~= toks_of_fonts(a) + toks_of_fonts(b));
    }
}

} // verus!
