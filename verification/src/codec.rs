//! Text codec: escaping and unescaping of XML text and attribute values.
//!
//! Exactly four entities are recognized: `&amp;`, `&lt;`, `&gt;` and
//! `&quot;`.  Escaping replaces each special character in a single pass;
//! unescaping is its exact inverse and fails on any other entity reference.

use vstd::prelude::*;

use crate::error::{XmlError, XmlErrorV};

verus! {

/// The escaped form of one character in text or attribute context.
pub open spec fn escape_char(c: char) -> Seq<char> {
    if c == '&' {
        seq!['&', 'a', 'm', 'p', ';']
    } else if c == '<' {
        seq!['&', 'l', 't', ';']
    } else if c == '>' {
        seq!['&', 'g', 't', ';']
    } else if c == '"' {
        seq!['&', 'q', 'u', 'o', 't', ';']
    } else {
        seq![c]
    }
}

/// The escaped form of a text: each character escaped, left to right.
pub open spec fn escape_seq(s: Seq<char>) -> Seq<char>
    decreases s.len(),
{
    if s.len() == 0 {
        Seq::<char>::empty()
    } else {
        escape_char(s[0]) + escape_seq(s.skip(1))
    }
}

/// Prepends a character to an unescaping that may already have failed.
pub open spec fn unescape_cons(c: char, rest: Option<Seq<char>>) -> Option<Seq<char>> {
    match rest {
        Some(t) => Some(seq![c] + t),
        None => None,
    }
}

/// The text denoted by an escaped text, or `None` on an unrecognized
/// entity reference.  Only `&` opens an entity; any other character
/// stands for itself.
pub open spec fn unescape_seq(s: Seq<char>) -> Option<Seq<char>>
    decreases s.len(),
{
    if s.len() == 0 {
        Some(Seq::<char>::empty())
    } else if s[0] == '&' {
        if s.len() >= 5 && s[1] == 'a' && s[2] == 'm' && s[3] == 'p' && s[4] == ';' {
            unescape_cons('&', unescape_seq(s.skip(5)))
        } else if s.len() >= 4 && s[1] == 'l' && s[2] == 't' && s[3] == ';' {
            unescape_cons('<', unescape_seq(s.skip(4)))
        } else if s.len() >= 4 && s[1] == 'g' && s[2] == 't' && s[3] == ';' {
            unescape_cons('>', unescape_seq(s.skip(4)))
        } else if s.len() >= 6 && s[1] == 'q' && s[2] == 'u' && s[3] == 'o' && s[4] == 't'
            && s[5] == ';' {
            unescape_cons('"', unescape_seq(s.skip(6)))
        } else {
            None
        }
    } else {
        unescape_cons(s[0], unescape_seq(s.skip(1)))
    }
}

/// Escaping distributes over concatenation: a text may be escaped piecewise.
pub proof fn lemma_escape_seq_add(a: Seq<char>, b: Seq<char>)
    ensures
        escape_seq(a + b) == escape_seq(a) + escape_seq(b),
    decreases a.len(),
{
    if a.len() == 0 {
        assert(a + b =~= b);
        assert(escape_seq(a) + escape_seq(b) =~= escape_seq(b));
    } else {
        assert((a + b).skip(1) =~= a.skip(1) + b);
        lemma_escape_seq_add(a.skip(1), b);
        assert((a + b)[0] == a[0]);
        assert(escape_seq(a + b) =~= escape_seq(a) + escape_seq(b));
    }
}

/// Law: unescaping inverts escaping, for every text.
pub proof fn lemma_unescape_escape(t: Seq<char>)
    ensures
        unescape_seq(escape_seq(t)) == Some(t),
    decreases t.len(),
{
    if t.len() == 0 {
        assert(escape_seq(t) =~= Seq::<char>::empty());
        assert(t =~= Seq::<char>::empty());
    } else {
        let c = t[0];
        let e = escape_seq(t.skip(1));
        lemma_unescape_escape(t.skip(1));
        let s = escape_seq(t);
        assert(s == escape_char(c) + e);
        if c == '&' {
            assert(s.skip(5) =~= e);
            assert(seq!['&'] + t.skip(1) =~= t);
        } else if c == '<' {
            assert(s.skip(4) =~= e);
            assert(seq!['<'] + t.skip(1) =~= t);
        } else if c == '>' {
            assert(s.skip(4) =~= e);
            assert(seq!['>'] + t.skip(1) =~= t);
        } else if c == '"' {
            assert(s.skip(6) =~= e);
            assert(seq!['"'] + t.skip(1) =~= t);
        } else {
            assert(s.skip(1) =~= e);
            assert(seq![c] + t.skip(1) =~= t);
        }
    }
}

/// Escapes a text for use inside an attribute value or element text.
pub fn escape(s: &str) -> (r: String)
    ensures
        r@ == escape_seq(s@),
{
    let n = s.unicode_len();
    let mut r = String::new();
    let mut i: usize = 0;
    while i < n
        invariant
            i <= n,
            n == s@.len(),
            r@ == escape_seq(s@.subrange(0, i as int)),
        decreases n - i,
    {
        let c = s.get_char(i);
        if c == '&' {
            r.append("&amp;");
            proof {
                reveal_strlit("&amp;");
                assert("&amp;"@ =~= escape_char('&'));
            }
        } else if c == '<' {
            r.append("&lt;");
            proof {
                reveal_strlit("&lt;");
                assert("&lt;"@ =~= escape_char('<'));
            }
        } else if c == '>' {
            r.append("&gt;");
            proof {
                reveal_strlit("&gt;");
                assert("&gt;"@ =~= escape_char('>'));
            }
        } else if c == '"' {
            r.append("&quot;");
            proof {
                reveal_strlit("&quot;");
                assert("&quot;"@ =~= escape_char('"'));
            }
        } else {
            let piece = s.substring_char(i, i + 1);
            r.append(piece);
            proof {
                assert(piece@ =~= seq![c]);
            }
        }
        proof {
            assert(s@.subrange(0, i as int) + seq![c] =~= s@.subrange(0, i as int + 1));
            lemma_escape_seq_add(s@.subrange(0, i as int), seq![c]);
            assert(seq![c].skip(1).len() == 0);
            assert(escape_seq(seq![c]) == escape_char(c) + escape_seq(seq![c].skip(1)));
            assert(escape_seq(seq![c]) =~= escape_char(c));
        }
        i = i + 1;
    }
    proof {
        assert(s@.subrange(0, n as int) =~= s@);
    }
    r
}

/// Unescapes an attribute value or element text.  Fails on any entity
/// reference other than the four recognized ones; every other character
/// stands for itself.
pub fn unescape(s: &str) -> (res: Result<String, XmlError>)
    ensures
        match res {
            Ok(r) => unescape_seq(s@) == Some(r@),
            Err(e) => unescape_seq(s@) is None && e@ == (XmlErrorV::UnrecognizedEntity),
        },
{
    let n = s.unicode_len();
    let mut r = String::new();
    let mut i: usize = 0;
    proof {
        assert(s@.skip(0) =~= s@);
        match unescape_seq(s@) {
            Some(t) => {
                assert(Seq::<char>::empty() + t =~= t);
            },
            None => {},
        }
    }
    while i < n
        invariant
            i <= n,
            n == s@.len(),
            match unescape_seq(s@.skip(i as int)) {
                Some(t) => unescape_seq(s@) == Some(r@ + t),
                None => unescape_seq(s@) is None,
            },
        decreases n - i,
    {
        let ghost pre = s@.skip(i as int);
        let ghost r0 = r@;
        proof {
            assert(pre.len() == n - i);
            assert(forall|k: int| 0 <= k < pre.len() ==> pre[k] == s@[i + k]);
        }
        let c = s.get_char(i);
        let step: usize;
        let out: char;
        if c == '&' {
            if n - i >= 5 && s.get_char(i + 1) == 'a' && s.get_char(i + 2) == 'm' && s.get_char(
                i + 3,
            ) == 'p' && s.get_char(i + 4) == ';' {
                step = 5;
                out = '&';
                r.append("&");
                proof {
                    reveal_strlit("&");
                    assert("&"@ =~= seq![out]);
                }
            } else if n - i >= 4 && s.get_char(i + 1) == 'l' && s.get_char(i + 2) == 't'
                && s.get_char(i + 3) == ';' {
                step = 4;
                out = '<';
                r.append("<");
                proof {
                    reveal_strlit("<");
                    assert("<"@ =~= seq![out]);
                }
            } else if n - i >= 4 && s.get_char(i + 1) == 'g' && s.get_char(i + 2) == 't'
                && s.get_char(i + 3) == ';' {
                step = 4;
                out = '>';
                r.append(">");
                proof {
                    reveal_strlit(">");
                    assert(">"@ =~= seq![out]);
                }
            } else if n - i >= 6 && s.get_char(i + 1) == 'q' && s.get_char(i + 2) == 'u'
                && s.get_char(i + 3) == 'o' && s.get_char(i + 4) == 't' && s.get_char(i + 5)
                == ';' {
                step = 6;
                out = '"';
                r.append("\"");
                proof {
                    reveal_strlit("\"");
                    assert("\""@ =~= seq![out]);
                }
            } else {
                proof {
                    assert(unescape_seq(pre) is None);
                }
                return Err(XmlError::UnrecognizedEntity);
            }
        } else {
            step = 1;
            out = c;
            let piece = s.substring_char(i, i + 1);
            r.append(piece);
            proof {
                assert(piece@ =~= seq![out]);
            }
        }
        proof {
            assert(r@ == r0 + seq![out]);
            assert(unescape_seq(pre) == unescape_cons(out, unescape_seq(pre.skip(step as int))));
            assert(pre.skip(step as int) =~= s@.skip(i as int + step as int));
            match unescape_seq(s@.skip(i as int + step as int)) {
                Some(t) => {
                    assert(unescape_seq(pre) == Some(seq![out] + t));
                    assert(r0 + (seq![out] + t) =~= (r0 + seq![out]) + t);
                },
                None => {
                    assert(unescape_seq(pre) is None);
                },
            }
        }
        i = i + step;
    }
    proof {
        assert(s@.skip(n as int).len() == 0);
        assert(r@ + Seq::<char>::empty() =~= r@);
    }
    Ok(r)
}

} // verus!
