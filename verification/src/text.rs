//! Lazily decoded character data, with optional entity interpretation.

use vstd::prelude::*;
use vstd::string::StrSliceExecFns;

use crate::error::Error;
use crate::strscan::find_char_at;
use crate::strscan::find_char_from;
use crate::strscan::lemma_find_char_at;
use crate::strscan::str_eq;

verus! {

/// A string that can contain XML entity references.
///
/// Pulling characters with [`Text::next`] yields the decoded characters one
/// at a time; each pull is fallible. Equality between two `Text` values, or
/// between a `Text` and a plain string, is defined over the fully decoded
/// character sequence.
#[derive(Clone, Copy, Debug)]
pub enum Text<'a> {
    /// Text interpreted as-is, without any replacements.
    Verbatim(&'a str),
    /// Text possibly interpreted with XML entity references.
    Escaped(&'a str),
}

/// The mathematical value of a `Text`: its mode and remaining characters.
pub ghost enum TextModel {
    Verbatim(Seq<char>),
    Escaped(Seq<char>),
}

impl<'a> View for Text<'a> {
    type V = TextModel;

    open spec fn view(&self) -> TextModel {
        match *self {
            Text::Verbatim(s) => TextModel::Verbatim(s@),
            Text::Escaped(s) => TextModel::Escaped(s@),
        }
    }
}

/// The characters a model has left to decode.
pub open spec fn content_of(m: TextModel) -> Seq<char> {
    match m {
        TextModel::Verbatim(s) => s,
        TextModel::Escaped(s) => s,
    }
}

/// The numeric value of one digit character, if it is a digit of `radix`
/// (10 or 16; hexadecimal digits may be in either case).
pub open spec fn digit_val(c: char, radix: int) -> Option<u32> {
    let u = c as u32;
    if ('0' as u32) <= u && u <= ('9' as u32) {
        Some((u - ('0' as u32)) as u32)
    } else if radix == 16 && ('a' as u32) <= u && u <= ('f' as u32) {
        Some((u - ('a' as u32) + 10) as u32)
    } else if radix == 16 && ('A' as u32) <= u && u <= ('F' as u32) {
        Some((u - ('A' as u32) + 10) as u32)
    } else {
        None
    }
}

/// Every character of `s` is a digit of `radix`.
pub open spec fn all_digits(s: Seq<char>, radix: int) -> bool {
    forall|k: int| 0 <= k < s.len() ==> (#[trigger] digit_val(s[k], radix)) is Some
}

/// The unbounded numeral denoted by `s` in base `radix`, reading left to
/// right; non-digit positions count as zero.
pub open spec fn num_val(s: Seq<char>, radix: int) -> int
    decreases s.len(),
{
    if s.len() == 0 {
        0
    } else {
        let d = match digit_val(s.last(), radix) {
            Some(d) => d as int,
            None => 0,
        };
        num_val(s.drop_last(), radix) * radix + d
    }
}

/// The numeral `s` parsed in base `radix`: at least one digit, all digits
/// valid, and the value within `u32` range.
pub open spec fn parse_scalar(s: Seq<char>, radix: int) -> Option<u32> {
    if s.len() > 0 && all_digits(s, radix) && num_val(s, radix) <= u32::MAX as int {
        Some(num_val(s, radix) as u32)
    } else {
        None
    }
}

/// The character denoted by a numeric entity body (the text between `&` and
/// `;`, starting with `#`): decimal, or hexadecimal after `x`/`X`, and only
/// if the value is a valid Unicode scalar.
pub open spec fn numeric_char(body: Seq<char>) -> Option<char>
    recommends
        body.len() >= 1,
{
    let hex = body.len() >= 2 && (body[1] == 'x' || body[1] == 'X');
    let digits = if hex {
        body.subrange(2, body.len() as int)
    } else {
        body.subrange(1, body.len() as int)
    };
    let radix: int = if hex {
        16
    } else {
        10
    };
    match parse_scalar(digits, radix) {
        Some(n) => if vstd::utf8::is_scalar(n) {
            Some(n as char)
        } else {
            None
        },
        None => None,
    }
}

/// One pull on a text cursor: the new cursor state and what the pull yields.
///
/// A `Verbatim` cursor hands its characters through unchanged. An `Escaped`
/// cursor sitting on `&` resolves one entity reference; on any failure it
/// clears its remaining characters, so the error is the last item ever
/// yielded.
pub open spec fn text_step(m: TextModel) -> (TextModel, Option<Result<char, Error>>) {
    match m {
        TextModel::Escaped(s) => {
            if s.len() > 0 && s[0] == '&' {
                match find_char_at(s, 0, ';') {
                    None => (
                        TextModel::Escaped(Seq::empty()),
                        Some(Err(Error::UnterminatedEntity)),
                    ),
                    Some(semi) => {
                        let body = s.subrange(1, semi);
                        let rest = s.subrange(semi + 1, s.len() as int);
                        if body == "lt"@ {
                            (TextModel::Escaped(rest), Some(Ok('<')))
                        } else if body == "gt"@ {
                            (TextModel::Escaped(rest), Some(Ok('>')))
                        } else if body == "amp"@ {
                            (TextModel::Escaped(rest), Some(Ok('&')))
                        } else if body == "apos"@ {
                            (TextModel::Escaped(rest), Some(Ok('\'')))
                        } else if body == "quot"@ {
                            (TextModel::Escaped(rest), Some(Ok('"')))
                        } else if body.len() >= 1 && body[0] == '#' {
                            match numeric_char(body) {
                                Some(c) => (TextModel::Escaped(rest), Some(Ok(c))),
                                None => (
                                    TextModel::Escaped(Seq::empty()),
                                    Some(Err(Error::InvalidNumericEntity)),
                                ),
                            }
                        } else {
                            (
                                TextModel::Escaped(Seq::empty()),
                                Some(Err(Error::InvalidNamedEntity)),
                            )
                        }
                    },
                }
            } else if s.len() > 0 {
                (TextModel::Escaped(s.drop_first()), Some(Ok(s[0])))
            } else {
                (TextModel::Escaped(s), None)
            }
        },
        TextModel::Verbatim(s) => {
            if s.len() > 0 {
                (TextModel::Verbatim(s.drop_first()), Some(Ok(s[0])))
            } else {
                (TextModel::Verbatim(s), None)
            }
        },
    }
}

/// A pull that yields a character strictly shrinks the remaining content.
pub proof fn lemma_text_step_shrinks(m: TextModel)
    ensures
        text_step(m).1 matches Some(Ok(_)) ==> content_of(text_step(m).0).len() < content_of(
            m,
        ).len(),
        text_step(m).1 matches Some(Err(_)) ==> content_of(text_step(m).0).len() == 0,
{
    match m {
        TextModel::Escaped(s) => {
            if s.len() > 0 && s[0] == '&' {
                lemma_find_char_at(s, 0, ';');
            }
        },
        TextModel::Verbatim(_) => {},
    }
}

/// The outcome of draining a text cursor: every decoded character it yields,
/// and the error that ends it, if one does.
pub open spec fn decode_full(m: TextModel) -> (Seq<char>, Option<Error>)
    decreases content_of(m).len(),
    via decode_full_dec
{
    let step = text_step(m);
    match step.1 {
        None => (Seq::empty(), None),
        Some(Err(e)) => (Seq::empty(), Some(e)),
        Some(Ok(c)) => {
            let tail = decode_full(step.0);
            (seq![c] + tail.0, tail.1)
        },
    }
}

#[via_fn]
proof fn decode_full_dec(m: TextModel) {
    lemma_text_step_shrinks(m);
}

/// Converts a scalar value to a character.
///
/// Relies on `char::from_u32`: it returns `Some` exactly when the value is a
/// Unicode scalar, that is, below the surrogate range or between the
/// surrogate range and `0x10FFFF`, and the character it returns has the
/// given value as its code point.
#[verifier::external_body]
fn char_from_u32(n: u32) -> (r: Option<char>)
    ensures
        r is Some <==> vstd::utf8::is_scalar(n),
        r matches Some(c) ==> c == n as char,
{
    char::from_u32(n)
}

/// The numeric value of one digit character, if any.
fn digit_of(c: char, radix: u32) -> (r: Option<u32>)
    requires
        radix == 10 || radix == 16,
    ensures
        r == digit_val(c, radix as int),
        r matches Some(d) ==> d < radix,
{
    let u = c as u32;
    if '0' as u32 <= u && u <= '9' as u32 {
        Some(u - '0' as u32)
    } else if radix == 16 && 'a' as u32 <= u && u <= 'f' as u32 {
        Some(u - 'a' as u32 + 10)
    } else if radix == 16 && 'A' as u32 <= u && u <= 'F' as u32 {
        Some(u - 'A' as u32 + 10)
    } else {
        None
    }
}

/// Parses `s` as a numeral in base `radix`, rejecting empty input, invalid
/// digits and values beyond `u32` range.
fn parse_scalar_exec(s: &str, radix: u32) -> (r: Option<u32>)
    requires
        radix == 10 || radix == 16,
    ensures
        r == parse_scalar(s@, radix as int),
{
    let n = s.unicode_len();
    if n == 0 {
        return None;
    }
    let mut acc: u64 = 0;
    let mut i: usize = 0;
    proof {
        assert(s@.subrange(0, 0) =~= Seq::<char>::empty());
    }
    while i < n
        invariant
            i <= n,
            n == s@.len(),
            radix == 10 || radix == 16,
            all_digits(s@.subrange(0, i as int), radix as int),
            acc <= 0x1_0000_0000u64,
            acc as int == if num_val(s@.subrange(0, i as int), radix as int) > u32::MAX as int {
                0x1_0000_0000
            } else {
                num_val(s@.subrange(0, i as int), radix as int)
            },
        decreases n - i,
    {
        let c = s.get_char(i);
        let d = match digit_of(c, radix) {
            Some(d) => d,
            None => {
                proof {
                    assert(s@.subrange(0, n as int) =~= s@);
                    assert(digit_val(s@[i as int], radix as int) is None);
                    assert(!all_digits(s@, radix as int));
                }
                return None;
            },
        };
        let ghost pre = s@.subrange(0, i as int);
        let ghost post = s@.subrange(0, i as int + 1);
        proof {
            assert(post.drop_last() =~= pre);
            assert(post.last() == s@[i as int]);
            assert(num_val(post, radix as int) == num_val(pre, radix as int) * radix + d);
            assert forall|k: int| 0 <= k < post.len() implies (#[trigger] digit_val(
                post[k],
                radix as int,
            )) is Some by {
                if k < i as int {
                    assert(post[k] == pre[k]);
                } else {
                    assert(post[k] == s@[i as int]);
                }
            }
            assert(acc as int * radix as int <= 0x1_0000_0000 * 16) by (nonlinear_arith)
                requires
                    acc <= 0x1_0000_0000u64,
                    radix == 10 || radix == 16,
            ;
        }
        let wide: u64 = acc * radix as u64 + d as u64;
        proof {
            let v = num_val(pre, radix as int);
            if v <= u32::MAX as int {
                assert(acc as int == v);
                assert(num_val(post, radix as int) == v * radix + d);
            } else {
                assert(acc == 0x1_0000_0000u64);
                assert(num_val(post, radix as int) == v * radix + d);
                assert(v * radix >= v * 10) by (nonlinear_arith)
                    requires
                        v >= 0,
                        radix == 10 || radix == 16,
                ;
                assert(v * 10 > u32::MAX as int) by (nonlinear_arith)
                    requires
                        v > u32::MAX as int,
                ;
            }
        }
        if wide > 0xFFFF_FFFFu64 {
            acc = 0x1_0000_0000u64;
            proof {
                let v = num_val(pre, radix as int);
                if v <= u32::MAX as int {
                    assert(num_val(post, radix as int) == wide as int);
                }
            }
        } else {
            acc = wide;
        }
        i = i + 1;
    }
    proof {
        assert(s@.subrange(0, n as int) =~= s@);
    }
    if acc > 0xFFFF_FFFFu64 {
        None
    } else {
        Some(acc as u32)
    }
}

impl<'a> Text<'a> {
    /// Pulls the next decoded character.
    ///
    /// Returns `None` when the text is exhausted. A failed decode clears the
    /// remaining characters, so after an error every later pull returns
    /// `None`.
    pub fn next(&mut self) -> (r: Option<Result<char, Error>>)
        ensures
            final (self)@ == text_step(old(self)@).0,
            r == text_step(old(self)@).1,
    {
        let (s0, escaped) = match *self {
            Text::Verbatim(s) => (s, false),
            Text::Escaped(s) => (s, true),
        };
        let n = s0.unicode_len();
        if n == 0 {
            return None;
        }
        let drained = s0.substring_char(0, 0);
        proof {
            assert(drained@ =~= Seq::<char>::empty());
        }
        let c0 = s0.get_char(0);
        if escaped && c0 == '&' {
            let semi = match find_char_from(s0, 0, ';') {
                Some(semi) => semi,
                None => {
                    *self = Text::Escaped(drained);
                    return Some(Err(Error::UnterminatedEntity));
                },
            };
            proof {
                lemma_find_char_at(s0@, 0, ';');
                assert(s0@[0] == '&');
            }
            let body = s0.substring_char(1, semi);
            let rest = s0.substring_char(semi + 1, n);
            if str_eq(body, "lt") {
                *self = Text::Escaped(rest);
                Some(Ok('<'))
            } else if str_eq(body, "gt") {
                *self = Text::Escaped(rest);
                Some(Ok('>'))
            } else if str_eq(body, "amp") {
                *self = Text::Escaped(rest);
                Some(Ok('&'))
            } else if str_eq(body, "apos") {
                *self = Text::Escaped(rest);
                Some(Ok('\''))
            } else if str_eq(body, "quot") {
                *self = Text::Escaped(rest);
                Some(Ok('"'))
            } else if body.unicode_len() >= 1 && body.get_char(0) == '#' {
                let m = body.unicode_len();
                let mut hex = false;
                if m >= 2 {
                    let c1 = body.get_char(1);
                    hex = c1 == 'x' || c1 == 'X';
                }
                let digits = if hex {
                    body.substring_char(2, m)
                } else {
                    body.substring_char(1, m)
                };
                let radix: u32 = if hex {
                    16
                } else {
                    10
                };
                match parse_scalar_exec(digits, radix) {
                    Some(v) => {
                        match char_from_u32(v) {
                            Some(c) => {
                                *self = Text::Escaped(rest);
                                Some(Ok(c))
                            },
                            None => {
                                *self = Text::Escaped(drained);
                                Some(Err(Error::InvalidNumericEntity))
                            },
                        }
                    },
                    None => {
                        *self = Text::Escaped(drained);
                        Some(Err(Error::InvalidNumericEntity))
                    },
                }
            } else {
                *self = Text::Escaped(drained);
                Some(Err(Error::InvalidNamedEntity))
            }
        } else {
            let rest = s0.substring_char(1, n);
            proof {
                assert(rest@ =~= s0@.drop_first());
            }
            if escaped {
                *self = Text::Escaped(rest);
            } else {
                *self = Text::Verbatim(rest);
            }
            Some(Ok(c0))
        }
    }

    /// Drains a copy of this text: all decoded characters, and the error
    /// that stopped the decode, if one did.
    pub fn decode_all(&self) -> (r: (Vec<char>, Option<Error>))
        ensures
            r.0@ == decode_full(self@).0,
            r.1 == decode_full(self@).1,
    {
        let mut t = *self;
        let mut out: Vec<char> = Vec::new();
        proof {
            assert(out@ + decode_full(t@).0 =~= decode_full(t@).0);
        }
        loop
            invariant
                decode_full(self@).0 == out@ + decode_full(t@).0,
                decode_full(self@).1 == decode_full(t@).1,
            decreases content_of(t@).len(),
        {
            let ghost t_pre = t@;
            let ghost out_pre = out@;
            proof {
                lemma_text_step_shrinks(t_pre);
            }
            match t.next() {
                None => {
                    proof {
                        assert(decode_full(t_pre) == (Seq::<char>::empty(), None::<Error>));
                        assert(decode_full(self@).0 =~= out@);
                    }
                    return (out, None);
                },
                Some(Err(e)) => {
                    proof {
                        assert(decode_full(t_pre) == (Seq::<char>::empty(), Some(e)));
                        assert(decode_full(self@).0 =~= out@);
                    }
                    return (out, Some(e));
                },
                Some(Ok(c)) => {
                    out.push(c);
                    proof {
                        assert(decode_full(t_pre).0 == seq![c] + decode_full(t@).0);
                        assert(out@ =~= out_pre + seq![c]);
                        assert(out_pre + (seq![c] + decode_full(t@).0) =~= (out_pre + seq![c])
                            + decode_full(t@).0);
                    }
                },
            }
        }
    }

    /// Whether this text and `other` decode to the same item sequence: the
    /// same characters, ended by the same error or by none.
    pub fn eq_text(&self, other: &Text<'_>) -> (r: bool)
        ensures
            r == (decode_full(self@) == decode_full(other@)),
    {
        let (c1, e1) = self.decode_all();
        let (c2, e2) = other.decode_all();
        let chars_eq = chars_eq_vec(&c1, &c2);
        let errs_eq = match (e1, e2) {
            (None, None) => true,
            (Some(a), Some(b)) => a == b,
            _ => false,
        };
        chars_eq && errs_eq
    }

    /// Whether this text decodes, without error, to exactly the characters
    /// of `other`.
    pub fn eq_str(&self, other: &str) -> (r: bool)
        ensures
            r == (decode_full(self@) == (other@, None::<Error>)),
    {
        let (c1, e1) = self.decode_all();
        if e1.is_some() {
            return false;
        }
        let n = c1.len();
        let m = other.unicode_len();
        if n != m {
            return false;
        }
        let mut k: usize = 0;
        while k < n
            invariant
                k <= n,
                n == c1@.len(),
                n == other@.len(),
                c1@ == decode_full(self@).0,
                decode_full(self@).1 is None,
                forall|j: int| 0 <= j < k ==> c1@[j] == other@[j],
            decreases n - k,
        {
            if c1[k] != other.get_char(k) {
                return false;
            }
            k = k + 1;
        }
        proof {
            assert(c1@ =~= other@);
        }
        true
    }
}

/// Whether two drained character vectors are equal element-wise.
fn chars_eq_vec(a: &Vec<char>, b: &Vec<char>) -> (r: bool)
    ensures
        r == (a@ == b@),
{
    let n = a.len();
    let m = b.len();
    if n != m {
        return false;
    }
    let mut k: usize = 0;
    while k < n
        invariant
            k <= n,
            n == a@.len(),
            n == b@.len(),
            forall|j: int| 0 <= j < k ==> a@[j] == b@[j],
        decreases n - k,
    {
        if a[k] != b[k] {
            return false;
        }
        k = k + 1;
    }
    proof {
        assert(a@ =~= b@);
    }
    true
}

impl<'a> PartialEq for Text<'a> {
    /// Two `Text` values are equal when they decode to the same characters
    /// and end the same way.
    fn eq(&self, other: &Text<'a>) -> (r: bool) {
        self.eq_text(other)
    }
}

impl<'a> vstd::std_specs::cmp::PartialEqSpecImpl for Text<'a> {
    open spec fn obeys_eq_spec() -> bool {
        true
    }

    open spec fn eq_spec(&self, other: &Text<'a>) -> bool {
        decode_full(self@) == decode_full(other@)
    }
}

/// A verbatim text decodes to exactly its own characters, with no error.
pub proof fn lemma_verbatim_decodes_plain(s: Seq<char>)
    ensures
        decode_full(TextModel::Verbatim(s)) == (s, None::<Error>),
    decreases s.len(),
{
    if s.len() == 0 {
        assert(decode_full(TextModel::Verbatim(s)).0 =~= s);
    } else {
        lemma_verbatim_decodes_plain(s.drop_first());
        assert(seq![s[0]] + s.drop_first() =~= s);
    }
}

/// Escaped text free of `&` decodes to exactly its own characters, with no
/// error: decoding such text is the identity.
pub proof fn lemma_escaped_plain_round_trip(s: Seq<char>)
    requires
        forall|k: int| 0 <= k < s.len() ==> s[k] != '&',
    ensures
        decode_full(TextModel::Escaped(s)) == (s, None::<Error>),
    decreases s.len(),
{
    if s.len() == 0 {
        assert(decode_full(TextModel::Escaped(s)).0 =~= s);
    } else {
        lemma_escaped_plain_round_trip(s.drop_first());
        assert(seq![s[0]] + s.drop_first() =~= s);
    }
}

/// After a pull yields an error, the next pull on the same text yields
/// end-of-stream: the error is the last item ever produced.
pub proof fn lemma_text_error_then_end(m: TextModel)
    ensures
        text_step(m).1 matches Some(Err(_)) ==> text_step(text_step(m).0).1 is None,
{
    lemma_text_step_shrinks(m);
}

/// Decoding is a function of the underlying slice and mode alone: two texts
/// built over the same characters always decode to the same result.
pub proof fn lemma_decode_deterministic(a: TextModel, b: TextModel)
    requires
        a == b,
    ensures
        decode_full(a) == decode_full(b),
{
}

} // verus!
