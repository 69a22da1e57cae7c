//! Lazy decoding of the attribute text captured at tag-open time.

use vstd::prelude::*;
use vstd::string::StrSliceExecFns;

use crate::error::Error;
use crate::strscan::find_char_at;
use crate::strscan::find_char_from;
use crate::strscan::lemma_find_char_at;
use crate::strscan::lemma_ws_start_at;
use crate::strscan::str_eq;
use crate::strscan::trim;
use crate::strscan::trim_spec;
use crate::strscan::trim_start;
use crate::strscan::trim_start_spec;
use crate::text::Text;
use crate::text::TextModel;

verus! {

/// An iterator over XML attributes.
///
/// Wraps the raw text between a tag's name and its closing `>`: zero or
/// more whitespace-separated `name=quoted-value` pairs, with no trailing
/// whitespace. Each pull splits one pair off the front; a malformed pair
/// clears the remaining text, so the error is the last item ever yielded.
#[derive(Clone, Copy, Debug, PartialEq, Eq)]
pub struct Attrs<'a> {
    pub(crate) text: &'a str,
}

impl<'a> View for Attrs<'a> {
    type V = Seq<char>;

    closed spec fn view(&self) -> Seq<char> {
        self.text@
    }
}

/// One pull on an attribute cursor: the remaining text afterwards and what
/// the pull yields — `None` at the end, one `(name, raw value)` pair, or the
/// error that poisons the cursor.
///
/// The name is the trimmed text before the first `=`; the value is the text
/// strictly between the quote that opens after `=` and its matching quote.
pub open spec fn attrs_step(s: Seq<char>) -> (
    Seq<char>,
    Option<Result<(Seq<char>, Seq<char>), Error>>,
) {
    if s.len() == 0 {
        (s, None)
    } else {
        match find_char_at(s, 0, '=') {
            None => (Seq::empty(), Some(Err(Error::AttrMissingEq))),
            Some(eq) => {
                let name = trim_spec(s.subrange(0, eq));
                let v = trim_start_spec(s.subrange(eq + 1, s.len() as int));
                if v.len() == 0 {
                    (Seq::empty(), Some(Err(Error::AttrMissingQuote)))
                } else if v[0] != '\'' && v[0] != '"' {
                    (Seq::empty(), Some(Err(Error::AttrInvalidQuote)))
                } else {
                    match find_char_at(v, 1, v[0]) {
                        None => (Seq::empty(), Some(Err(Error::AttrMissingEndQuote))),
                        Some(close) => {
                            if name.len() == 0 {
                                (Seq::empty(), Some(Err(Error::AttrInvalidName)))
                            } else {
                                (
                                    v.subrange(close + 1, v.len() as int),
                                    Some(Ok((name, v.subrange(1, close)))),
                                )
                            }
                        },
                    }
                }
            },
        }
    }
}

/// A pull that yields a pair strictly shrinks the remaining text, and a pull
/// that yields an error clears it.
pub proof fn lemma_attrs_step_shrinks(s: Seq<char>)
    ensures
        attrs_step(s).1 matches Some(Ok(_)) ==> attrs_step(s).0.len() < s.len(),
        attrs_step(s).1 matches Some(Err(_)) ==> attrs_step(s).0.len() == 0,
{
    if s.len() > 0 {
        lemma_find_char_at(s, 0, '=');
        match find_char_at(s, 0, '=') {
            Some(eq) => {
                let after = s.subrange(eq + 1, s.len() as int);
                lemma_ws_start_at(after, 0);
                let v = trim_start_spec(after);
                if v.len() > 0 && (v[0] == '\'' || v[0] == '"') {
                    lemma_find_char_at(v, 1, v[0]);
                }
            },
            None => {},
        }
    }
}

/// The first value paired with `name` when pulling pairs in order, or the
/// error met before any such pair, or `None` when the text runs out first.
pub open spec fn attrs_lookup(s: Seq<char>, name: Seq<char>) -> Result<Option<Seq<char>>, Error>
    decreases s.len(),
    via attrs_lookup_dec
{
    let step = attrs_step(s);
    match step.1 {
        None => Ok(None),
        Some(Err(e)) => Err(e),
        Some(Ok((k, v))) => if k == name {
            Ok(Some(v))
        } else {
            attrs_lookup(step.0, name)
        },
    }
}

#[via_fn]
proof fn attrs_lookup_dec(s: Seq<char>, name: Seq<char>) {
    lemma_attrs_step_shrinks(s);
}

impl<'a> Attrs<'a> {
    /// Wraps raw attribute text, as it stands between a tag's name and its
    /// closing `>`.
    pub fn new(text: &'a str) -> (a: Attrs<'a>)
        ensures
            a@ == text@,
    {
        Attrs { text }
    }

    /// Pulls the next `(name, value)` pair off the front of the remaining
    /// text.
    ///
    /// Returns `None` when the text is exhausted. On a malformed pair the
    /// remaining text is cleared, so after an error every later pull
    /// returns `None`.
    pub fn next(&mut self) -> (r: Option<Result<(&'a str, Text<'a>), Error>>)
        ensures
            final (self)@ == attrs_step(old(self)@).0,
            match attrs_step(old(self)@).1 {
                None => r is None,
                Some(Err(e)) => r matches Some(Err(e2)) && e2 == e,
                Some(Ok((k, v))) => r matches Some(Ok((ks, vt))) && ks@ == k && vt@
                    == TextModel::Escaped(v),
            },
    {
        let s = self.text;
        let n = s.unicode_len();
        if n == 0 {
            return None;
        }
        let drained = s.substring_char(0, 0);
        proof {
            assert(drained@ =~= Seq::<char>::empty());
        }
        let eq = match find_char_from(s, 0, '=') {
            Some(i) => i,
            None => {
                self.text = drained;
                return Some(Err(Error::AttrMissingEq));
            },
        };
        proof {
            lemma_find_char_at(s@, 0, '=');
        }
        let name = trim(s.substring_char(0, eq));
        let v = trim_start(s.substring_char(eq + 1, n));
        let vn = v.unicode_len();
        if vn == 0 {
            self.text = drained;
            return Some(Err(Error::AttrMissingQuote));
        }
        let q = v.get_char(0);
        if q != '\'' && q != '"' {
            self.text = drained;
            return Some(Err(Error::AttrInvalidQuote));
        }
        let close = match find_char_from(v, 1, q) {
            Some(i) => i,
            None => {
                self.text = drained;
                return Some(Err(Error::AttrMissingEndQuote));
            },
        };
        proof {
            lemma_find_char_at(v@, 1, q);
        }
        if name.unicode_len() == 0 {
            self.text = drained;
            return Some(Err(Error::AttrInvalidName));
        }
        self.text = v.substring_char(close + 1, vn);
        Some(Ok((name, Text::Escaped(v.substring_char(1, close)))))
    }

    /// Pulls pairs in order and returns the first value whose name matches,
    /// propagating any error met before the match.
    pub fn get(&self, name: &str) -> (r: Result<Option<Text<'a>>, Error>)
        ensures
            match attrs_lookup(self@, name@) {
                Ok(Some(v)) => r matches Ok(Some(t)) && t@ == TextModel::Escaped(v),
                Ok(None) => r matches Ok(None),
                Err(e) => r matches Err(e2) && e2 == e,
            },
    {
        let mut a = Attrs { text: self.text };
        loop
            invariant
                attrs_lookup(self@, name@) == attrs_lookup(a@, name@),
            decreases a@.len(),
        {
            let ghost a_pre = a@;
            proof {
                lemma_attrs_step_shrinks(a_pre);
            }
            match a.next() {
                None => {
                    return Ok(None);
                },
                Some(Err(e)) => {
                    return Err(e);
                },
                Some(Ok((k, vt))) => {
                    if str_eq(k, name) {
                        return Ok(Some(vt));
                    }
                },
            }
        }
    }
}

/// After a pull yields an error, the next pull on the same attribute cursor
/// yields end-of-stream: the error is the last item ever produced.
pub proof fn lemma_attrs_error_then_end(s: Seq<char>)
    ensures
        attrs_step(s).1 matches Some(Err(_)) ==> attrs_step(attrs_step(s).0).1 is None,
{
    lemma_attrs_step_shrinks(s);
}

} // verus!
