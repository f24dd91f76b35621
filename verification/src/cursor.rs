//! Element cursor: navigation over a stream of XML tokens.
//!
//! A fragment arrives as a flat sequence of start-tag, attribute, end-tag
//! and text events produced by a token-level reader.  Decoding walks this
//! sequence by position: the functions here find attributes of the current
//! start tag, skip whole subtrees of unrecognized elements, and locate the
//! matching end tag.  Attribute values and text carry their escaped form;
//! the text codec decodes them.

use vstd::prelude::*;

use crate::error::{XmlError, XmlErrorV};

verus! {

/// One XML token.  Attribute tokens follow the start tag they belong to.
#[derive(Debug, Clone, PartialEq)]
pub enum Token {
    /// A start tag with the given name.
    Start { name: String },
    /// One attribute of the preceding start tag; the value is escaped.
    Attr { name: String, value: String },
    /// A run of element text, in escaped form.
    Text { text: String },
    /// An end tag with the given name.
    End { name: String },
}

/// Mathematical model of one token.
pub enum TokV {
    Start { name: Seq<char> },
    Attr { name: Seq<char>, value: Seq<char> },
    Text { text: Seq<char> },
    End { name: Seq<char> },
}

impl View for Token {
    type V = TokV;

    open spec fn view(&self) -> TokV {
        match self {
            Token::Start { name } => TokV::Start { name: name@ },
            Token::Attr { name, value } => TokV::Attr { name: name@, value: value@ },
            Token::Text { text } => TokV::Text { text: text@ },
            Token::End { name } => TokV::End { name: name@ },
        }
    }
}

/// The model of a token sequence: each token's model, in order.
pub open spec fn toks_view(toks: Seq<Token>) -> Seq<TokV> {
    toks.map_values(|t: Token| t@)
}

/// Compares two strings by characters.
pub fn str_eq(a: &str, b: &str) -> (r: bool)
    ensures
        r == (a@ == b@),
{
    let na = a.unicode_len();
    let nb = b.unicode_len();
    if na != nb {
        return false;
    }
    let mut i: usize = 0;
    while i < na
        invariant
            i <= na,
            na == a@.len(),
            na == b@.len(),
            forall|j: int| 0 <= j < i ==> a@[j] == b@[j],
        decreases na - i,
    {
        if a.get_char(i) != b.get_char(i) {
            return false;
        }
        i = i + 1;
    }
    proof {
        assert(a@ =~= b@);
    }
    true
}

/// The name of the start tag at `pos`, if a start tag stands there.
pub open spec fn sp_current_tag(toks: Seq<TokV>, pos: int) -> Option<Seq<char>> {
    if 0 <= pos < toks.len() {
        match toks[pos] {
            TokV::Start { name } => Some(name),
            _ => None,
        }
    } else {
        None
    }
}

/// Peeks the name of the start tag under the cursor, without advancing.
pub fn current_tag(toks: &Vec<Token>, pos: usize) -> (res: Option<String>)
    ensures
        match res {
            Some(name) => sp_current_tag(toks_view(toks@), pos as int) == Some(name@),
            None => sp_current_tag(toks_view(toks@), pos as int) is None,
        },
{
    if pos >= toks.len() {
        return None;
    }
    proof {
        assert(toks_view(toks@)[pos as int] == toks@[pos as int]@);
    }
    match &toks[pos] {
        Token::Start { name } => Some(name.clone()),
        _ => None,
    }
}

/// The position just past the run of attribute tokens that starts at `pos`.
pub open spec fn sp_attr_end(toks: Seq<TokV>, pos: int) -> int
    decreases toks.len() - pos
        when 0 <= pos <= toks.len()
{
    if pos < toks.len() && (toks[pos] is Attr) {
        sp_attr_end(toks, pos + 1)
    } else {
        pos
    }
}

/// The escaped value of the first attribute named `name` in the attribute
/// run that starts at `pos`, if any.
pub open spec fn sp_find_attr(toks: Seq<TokV>, pos: int, name: Seq<char>) -> Option<Seq<char>>
    decreases toks.len() - pos
        when 0 <= pos <= toks.len()
{
    if pos < toks.len() {
        match toks[pos] {
            TokV::Attr { name: n, value: v } => if n == name {
                Some(v)
            } else {
                sp_find_attr(toks, pos + 1, name)
            },
            _ => None,
        }
    } else {
        None
    }
}

/// Walks tokens from `pos` with a stack of open element names; succeeds at
/// the position just past the end tag that closes the last open name.
pub open spec fn sp_skip_rest(toks: Seq<TokV>, pos: int, stack: Seq<Seq<char>>) -> Option<int>
    decreases toks.len() - pos
        when 0 <= pos <= toks.len()
{
    if stack.len() == 0 {
        Some(pos)
    } else if pos >= toks.len() {
        None
    } else {
        match toks[pos] {
            TokV::Start { name } => sp_skip_rest(toks, pos + 1, stack.push(name)),
            TokV::End { name } => if stack.last() == name {
                sp_skip_rest(toks, pos + 1, stack.drop_last())
            } else {
                None
            },
            _ => sp_skip_rest(toks, pos + 1, stack),
        }
    }
}

/// The position just past the whole subtree whose start tag stands at
/// `pos`, or `None` if the stream ends or closes a different element first.
pub open spec fn sp_skip_subtree(toks: Seq<TokV>, pos: int) -> Option<int> {
    if 0 <= pos < toks.len() {
        match toks[pos] {
            TokV::Start { name } => sp_skip_rest(toks, pos + 1, seq![name]),
            _ => None,
        }
    } else {
        None
    }
}

/// The names of a stack of open elements, as character sequences.
pub open spec fn names_view(stack: Seq<String>) -> Seq<Seq<char>> {
    stack.map_values(|s: String| s@)
}

/// Skips the whole subtree whose start tag stands at `pos`: nested elements,
/// their attributes and text.  This is how unrecognized children are
/// tolerated rather than rejected.
pub fn skip_subtree(toks: &Vec<Token>, pos: usize) -> (res: Result<usize, XmlError>)
    ensures
        match res {
            Ok(p) => sp_skip_subtree(toks_view(toks@), pos as int) == Some(p as int) && pos < p
                <= toks@.len(),
            Err(e) => sp_skip_subtree(toks_view(toks@), pos as int) is None && e@
                == (XmlErrorV::UnbalancedTag),
        },
{
    let ghost tv = toks_view(toks@);
    proof {
        assert(tv.len() == toks@.len());
    }
    if pos >= toks.len() {
        return Err(XmlError::UnbalancedTag);
    }
    let first = match &toks[pos] {
        Token::Start { name } => name.clone(),
        _ => {
            return Err(XmlError::UnbalancedTag);
        },
    };
    let mut stack: Vec<String> = Vec::new();
    stack.push(first);
    let mut i: usize = pos + 1;
    proof {
        assert(tv[pos as int] == toks@[pos as int]@);
        assert(names_view(stack@) =~= seq![first@]);
    }
    while stack.len() > 0
        invariant
            pos < i <= toks@.len(),
            tv == toks_view(toks@),
            tv.len() == toks@.len(),
            sp_skip_rest(tv, i as int, names_view(stack@)) == sp_skip_subtree(tv, pos as int),
        decreases toks@.len() - i,
    {
        if i >= toks.len() {
            return Err(XmlError::UnbalancedTag);
        }
        let ghost st0 = names_view(stack@);
        match &toks[i] {
            Token::Start { name } => {
                stack.push(name.clone());
                proof {
                    assert(names_view(stack@) =~= st0.push(name@));
                }
                i = i + 1;
            },
            Token::End { name } => {
                let top = &stack[stack.len() - 1];
                if str_eq(name.as_str(), top.as_str()) {
                    let _ = stack.pop();
                    proof {
                        assert(st0.last() == name@);
                        assert(names_view(stack@) =~= st0.drop_last());
                    }
                    i = i + 1;
                } else {
                    proof {
                        assert(st0.last() != name@);
                    }
                    return Err(XmlError::UnbalancedTag);
                }
            },
            _ => {
                i = i + 1;
            },
        }
    }
    proof {
        assert(names_view(stack@).len() == 0);
    }
    Ok(i)
}

/// The outcome of expecting the start tag `tag` at `pos`: the position of
/// the first attribute on a match, `TagMismatch` on a start tag with
/// another name, `UnbalancedTag` on anything else.
pub open spec fn sp_expect_start(toks: Seq<TokV>, pos: int, tag: Seq<char>) -> Result<
    int,
    XmlErrorV,
> {
    if 0 <= pos < toks.len() {
        match toks[pos] {
            TokV::Start { name } => if name == tag {
                Ok(pos + 1)
            } else {
                Err(XmlErrorV::TagMismatch { expected: tag, found: name })
            },
            _ => Err(XmlErrorV::UnbalancedTag),
        }
    } else {
        Err(XmlErrorV::UnbalancedTag)
    }
}

/// Expects the start tag of the record being decoded.
pub fn expect_start(toks: &Vec<Token>, pos: usize, tag: &str) -> (res: Result<usize, XmlError>)
    ensures
        match res {
            Ok(p) => sp_expect_start(toks_view(toks@), pos as int, tag@) == Ok::<int, XmlErrorV>(
                p as int,
            ) && p == pos + 1 && pos < toks@.len(),
            Err(e) => sp_expect_start(toks_view(toks@), pos as int, tag@) == Err::<
                int,
                XmlErrorV,
            >(e@),
        },
{
    if pos >= toks.len() {
        return Err(XmlError::UnbalancedTag);
    }
    proof {
        assert(toks_view(toks@)[pos as int] == toks@[pos as int]@);
    }
    match &toks[pos] {
        Token::Start { name } => {
            if str_eq(name.as_str(), tag) {
                Ok(pos + 1)
            } else {
                Err(XmlError::TagMismatch { expected: tag.to_owned(), found: name.clone() })
            }
        },
        _ => Err(XmlError::UnbalancedTag),
    }
}

/// Scans past the attribute run of the current start tag.
pub fn attr_end(toks: &Vec<Token>, pos: usize) -> (r: usize)
    requires
        pos <= toks@.len(),
    ensures
        r as int == sp_attr_end(toks_view(toks@), pos as int),
        pos <= r <= toks@.len(),
{
    let ghost tv = toks_view(toks@);
    let mut i: usize = pos;
    loop
        invariant
            pos <= i <= toks@.len(),
            tv == toks_view(toks@),
            tv.len() == toks@.len(),
            sp_attr_end(tv, i as int) == sp_attr_end(tv, pos as int),
        decreases toks@.len() - i,
    {
        if i >= toks.len() {
            return i;
        }
        proof {
            assert(tv[i as int] == toks@[i as int]@);
        }
        match &toks[i] {
            Token::Attr { .. } => {
                i = i + 1;
            },
            _ => {
                return i;
            },
        }
    }
}

/// Looks up an attribute of the current start tag by name and returns its
/// escaped value; the first occurrence wins.
pub fn find_attr(toks: &Vec<Token>, pos: usize, name: &str) -> (res: Option<String>)
    requires
        pos <= toks@.len(),
    ensures
        match res {
            Some(v) => sp_find_attr(toks_view(toks@), pos as int, name@) == Some(v@),
            None => sp_find_attr(toks_view(toks@), pos as int, name@) is None,
        },
{
    let ghost tv = toks_view(toks@);
    let mut i: usize = pos;
    loop
        invariant
            pos <= i <= toks@.len(),
            tv == toks_view(toks@),
            tv.len() == toks@.len(),
            sp_find_attr(tv, i as int, name@) == sp_find_attr(tv, pos as int, name@),
        decreases toks@.len() - i,
    {
        if i >= toks.len() {
            return None;
        }
        proof {
            assert(tv[i as int] == toks@[i as int]@);
        }
        match &toks[i] {
            Token::Attr { name: n, value } => {
                if str_eq(n.as_str(), name) {
                    return Some(value.clone());
                }
                i = i + 1;
            },
            _ => {
                return None;
            },
        }
    }
}

/// The position just past the run of text tokens that starts at `pos`.
pub open spec fn sp_text_end(toks: Seq<TokV>, pos: int) -> int
    decreases toks.len() - pos
        when 0 <= pos <= toks.len()
{
    if pos < toks.len() && (toks[pos] is Text) {
        sp_text_end(toks, pos + 1)
    } else {
        pos
    }
}

/// The decoded text of the run of text tokens that starts at `pos`, or
/// `None` on an unrecognized entity reference in any segment.
pub open spec fn sp_read_text(toks: Seq<TokV>, pos: int) -> Option<Seq<char>>
    decreases toks.len() - pos
        when 0 <= pos <= toks.len()
{
    if pos < toks.len() {
        match toks[pos] {
            TokV::Text { text } => match crate::codec::unescape_seq(text) {
                None => None,
                Some(t) => match sp_read_text(toks, pos + 1) {
                    None => None,
                    Some(rest) => Some(t + rest),
                },
            },
            _ => Some(Seq::<char>::empty()),
        }
    } else {
        Some(Seq::<char>::empty())
    }
}

/// Reads the element text under the cursor, up to the next tag boundary:
/// every consecutive text segment, unescaped and concatenated.
pub fn read_text(toks: &Vec<Token>, pos: usize) -> (res: Result<(String, usize), XmlError>)
    requires
        pos <= toks@.len(),
    ensures
        match res {
            Ok(r) => sp_read_text(toks_view(toks@), pos as int) == Some(r.0@) && r.1 as int
                == sp_text_end(toks_view(toks@), pos as int) && pos <= r.1 <= toks@.len(),
            Err(e) => sp_read_text(toks_view(toks@), pos as int) is None && e@
                == (XmlErrorV::UnrecognizedEntity),
        },
{
    let ghost tv = toks_view(toks@);
    let mut acc = String::new();
    let mut i: usize = pos;
    proof {
        assert(Seq::<char>::empty() + Seq::<char>::empty() =~= Seq::<char>::empty());
    }
    loop
        invariant
            pos <= i <= toks@.len(),
            tv == toks_view(toks@),
            tv.len() == toks@.len(),
            sp_text_end(tv, i as int) == sp_text_end(tv, pos as int),
            match sp_read_text(tv, i as int) {
                Some(t) => sp_read_text(tv, pos as int) == Some(acc@ + t),
                None => sp_read_text(tv, pos as int) is None,
            },
        decreases toks@.len() - i,
    {
        if i >= toks.len() {
            proof {
                assert(acc@ + Seq::<char>::empty() =~= acc@);
            }
            return Ok((acc, i));
        }
        proof {
            assert(tv[i as int] == toks@[i as int]@);
        }
        match &toks[i] {
            Token::Text { text } => {
                let ghost acc0 = acc@;
                match crate::codec::unescape(text.as_str()) {
                    Ok(piece) => {
                        acc.append(piece.as_str());
                        proof {
                            match sp_read_text(tv, i as int + 1) {
                                Some(rest) => {
                                    assert(acc0 + (piece@ + rest) =~= (acc0 + piece@) + rest);
                                },
                                None => {},
                            }
                        }
                        i = i + 1;
                    },
                    Err(e) => {
                        return Err(e);
                    },
                }
            },
            _ => {
                proof {
                    assert(acc@ + Seq::<char>::empty() =~= acc@);
                }
                return Ok((acc, i));
            },
        }
    }
}

/// Scans the remaining children of the current element, skipping each
/// subtree, to just past the matching end tag.
pub open spec fn sp_close(toks: Seq<TokV>, pos: int, tag: Seq<char>) -> Result<int, XmlErrorV>
    decreases toks.len() - pos
        when 0 <= pos <= toks.len()
{
    if pos >= toks.len() {
        Err(XmlErrorV::UnbalancedTag)
    } else {
        match toks[pos] {
            TokV::End { name } => if name == tag {
                Ok(pos + 1)
            } else {
                Err(XmlErrorV::UnbalancedTag)
            },
            TokV::Start { name } => match sp_skip_subtree(toks, pos) {
                Some(p) => if pos < p <= toks.len() {
                    sp_close(toks, p, tag)
                } else {
                    Err(XmlErrorV::UnbalancedTag)
                },
                None => Err(XmlErrorV::UnbalancedTag),
            },
            _ => sp_close(toks, pos + 1, tag),
        }
    }
}

/// Skips whatever children remain and consumes the matching end tag,
/// failing with `UnbalancedTag` if the stream closes another element or
/// ends first.
pub fn close_element(toks: &Vec<Token>, pos: usize, tag: &str) -> (res: Result<usize, XmlError>)
    requires
        pos <= toks@.len(),
    ensures
        match res {
            Ok(p) => sp_close(toks_view(toks@), pos as int, tag@) == Ok::<int, XmlErrorV>(
                p as int,
            ) && pos < p <= toks@.len(),
            Err(e) => sp_close(toks_view(toks@), pos as int, tag@) == Err::<int, XmlErrorV>(e@),
        },
{
    let ghost tv = toks_view(toks@);
    let mut i: usize = pos;
    loop
        invariant
            pos <= i <= toks@.len(),
            tv == toks_view(toks@),
            tv.len() == toks@.len(),
            sp_close(tv, i as int, tag@) == sp_close(tv, pos as int, tag@),
        decreases toks@.len() - i,
    {
        if i >= toks.len() {
            return Err(XmlError::UnbalancedTag);
        }
        proof {
            assert(tv[i as int] == toks@[i as int]@);
        }
        match &toks[i] {
            Token::End { name } => {
                if str_eq(name.as_str(), tag) {
                    return Ok(i + 1);
                } else {
                    return Err(XmlError::UnbalancedTag);
                }
            },
            Token::Start { .. } => {
                match skip_subtree(toks, i) {
                    Ok(p) => {
                        i = p;
                    },
                    Err(e) => {
                        return Err(e);
                    },
                }
            },
            _ => {
                i = i + 1;
            },
        }
    }
}

} // verus!
