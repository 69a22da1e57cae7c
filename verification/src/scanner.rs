//! The scanner: a cursor over the whole input that classifies one lexical
//! construct per pull.

use vstd::prelude::*;
use vstd::string::StrSliceExecFns;

use crate::attrs::Attrs;
use crate::error::Error;
use crate::strscan::begins_at;
use crate::strscan::find_at;
use crate::strscan::find_char_at;
use crate::strscan::find_char_from;
use crate::strscan::find_either_at;
use crate::strscan::find_either_from;
use crate::strscan::find_pat_from;
use crate::strscan::find_ws_at;
use crate::strscan::find_ws_from;
use crate::strscan::lemma_find_at;
use crate::strscan::lemma_find_char_at;
use crate::strscan::lemma_find_either_at;
use crate::strscan::lemma_find_ws_at;
use crate::strscan::str_begins;
use crate::strscan::trim;
use crate::strscan::trim_end;
use crate::strscan::trim_end_spec;
use crate::strscan::trim_spec;
use crate::text::Text;
use crate::text::TextModel;

verus! {

/// An XML event.
///
/// All string fields are borrowed slices of the original buffer.
#[derive(Clone, Copy, Debug, PartialEq)]
pub enum Event<'a> {
    /// An opening tag of an XML element: tag name and attributes.
    Open(&'a str, Attrs<'a>),
    /// A closing tag of an XML element; also emitted after self-closing
    /// tags.
    Close(&'a str),
    /// A doctype declaration: doctype name and internal subset (possibly
    /// empty).
    Doctype(&'a str, &'a str),
    /// A processing instruction.
    Pi(&'a str),
    /// A comment.
    Comment(&'a str),
    /// Character data.
    Text(Text<'a>),
}

/// The mathematical value of an [`Event`], over character sequences.
pub ghost enum EventModel {
    Open(Seq<char>, Seq<char>),
    Close(Seq<char>),
    Doctype(Seq<char>, Seq<char>),
    Pi(Seq<char>),
    Comment(Seq<char>),
    Text(TextModel),
}

impl<'a> View for Event<'a> {
    type V = EventModel;

    open spec fn view(&self) -> EventModel {
        match *self {
            Event::Open(name, attrs) => EventModel::Open(name@, attrs@),
            Event::Close(name) => EventModel::Close(name@),
            Event::Doctype(name, subset) => EventModel::Doctype(name@, subset@),
            Event::Pi(content) => EventModel::Pi(content@),
            Event::Comment(content) => EventModel::Comment(content@),
            Event::Text(t) => EventModel::Text(t@),
        }
    }
}

/// An iterator over XML events.
///
/// Holds the remaining unconsumed slice of the buffer and, after a
/// self-closing tag, the tag name awaiting its synthetic `Close` event.
/// Once any error has been produced the remaining slice and the pending
/// slot are cleared, so every later pull returns end-of-stream.
pub struct Parser<'a> {
    doc: &'a str,
    self_closing: Option<&'a str>,
}

/// The mathematical value of a [`Parser`]: the remaining characters and the
/// pending self-close name, if one is owed.
pub ghost struct ParserModel {
    pub doc: Seq<char>,
    pub pending: Option<Seq<char>>,
}

impl<'a> View for Parser<'a> {
    type V = ParserModel;

    closed spec fn view(&self) -> ParserModel {
        ParserModel {
            doc: self.doc@,
            pending: match self.self_closing {
                Some(t) => Some(t@),
                None => None,
            },
        }
    }
}

/// The scanner state after exhaustion or after an error: nothing left to
/// read, nothing pending.
pub open spec fn empty_model() -> ParserModel {
    ParserModel { doc: Seq::empty(), pending: None }
}

/// The outcome of a quote-aware scan for a structural delimiter.
pub ghost enum QScan {
    /// A delimiter was found outside every quoted section: which one, and
    /// where.
    Found(char, int),
    /// No delimiter occurs outside quoted sections.
    NotFound,
    /// A quoted section is opened and never closed.
    Unclosed,
}

/// Scans from index `i` for `t1` (or `t2`, when given), treating `'...'`
/// and `"..."` spans as opaque so that a delimiter inside them does not
/// count.
pub open spec fn qscan_at(s: Seq<char>, i: int, t1: char, t2: Option<char>) -> QScan
    decreases s.len() - i,
    via qscan_at_dec
{
    if i < 0 || i >= s.len() {
        QScan::NotFound
    } else if s[i] == t1 || (t2 matches Some(t) && s[i] == t) {
        QScan::Found(s[i], i)
    } else if s[i] == '"' || s[i] == '\'' {
        match find_char_at(s, i + 1, s[i]) {
            None => QScan::Unclosed,
            Some(j) => qscan_at(s, j + 1, t1, t2),
        }
    } else {
        qscan_at(s, i + 1, t1, t2)
    }
}

#[via_fn]
proof fn qscan_at_dec(s: Seq<char>, i: int, t1: char, t2: Option<char>) {
    if 0 <= i < s.len() && (s[i] == '"' || s[i] == '\'') {
        lemma_find_char_at(s, i + 1, s[i]);
    }
}

/// A found delimiter lies within the scanned text and is one of the
/// targets.
pub proof fn lemma_qscan_at(s: Seq<char>, i: int, t1: char, t2: Option<char>)
    requires
        0 <= i <= s.len(),
    ensures
        qscan_at(s, i, t1, t2) matches QScan::Found(c, j) ==> i <= j < s.len() && s[j] == c && (c
            == t1 || (t2 matches Some(t) && c == t)),
    decreases s.len() - i,
{
    if 0 <= i < s.len() && !(s[i] == t1 || (t2 matches Some(t) && s[i] == t)) {
        if s[i] == '"' || s[i] == '\'' {
            lemma_find_char_at(s, i + 1, s[i]);
            match find_char_at(s, i + 1, s[i]) {
                Some(j) => lemma_qscan_at(s, j + 1, t1, t2),
                None => {},
            }
        } else {
            lemma_qscan_at(s, i + 1, t1, t2);
        }
    }
}

/// One pull past `<?`: everything up to `?>` is a processing instruction.
pub open spec fn pi_step(d: Seq<char>) -> (ParserModel, Result<Option<EventModel>, Error>) {
    let d2 = d.subrange("<?"@.len() as int, d.len() as int);
    match find_at(d2, 0, "?>"@) {
        None => (empty_model(), Err(Error::UnterminatedPi)),
        Some(j) => (
            ParserModel { doc: d2.subrange(j + "?>"@.len(), d2.len() as int), pending: None },
            Ok(Some(EventModel::Pi(d2.subrange(0, j)))),
        ),
    }
}

/// One pull past `<!--`: everything up to `-->` is a comment.
pub open spec fn comment_step(d: Seq<char>) -> (ParserModel, Result<Option<EventModel>, Error>) {
    let d2 = d.subrange("<!--"@.len() as int, d.len() as int);
    match find_at(d2, 0, "-->"@) {
        None => (empty_model(), Err(Error::UnterminatedComment)),
        Some(j) => (
            ParserModel { doc: d2.subrange(j + "-->"@.len(), d2.len() as int), pending: None },
            Ok(Some(EventModel::Comment(d2.subrange(0, j)))),
        ),
    }
}

/// One pull past `<![CDATA[`: everything up to `]]>` is verbatim text.
pub open spec fn cdata_step(d: Seq<char>) -> (ParserModel, Result<Option<EventModel>, Error>) {
    let d2 = d.subrange("<![CDATA["@.len() as int, d.len() as int);
    match find_at(d2, 0, "]]>"@) {
        None => (empty_model(), Err(Error::UnterminatedCdata)),
        Some(j) => (
            ParserModel { doc: d2.subrange(j + "]]>"@.len(), d2.len() as int), pending: None },
            Ok(Some(EventModel::Text(TextModel::Verbatim(d2.subrange(0, j))))),
        ),
    }
}

/// One pull past `<!DOCTYPE`: a quote-aware scan to `[` or `>`; a `[` opens
/// the internal subset, closed by a quote-aware `]` and a trailing `>`.
pub open spec fn doctype_step(d: Seq<char>) -> (ParserModel, Result<Option<EventModel>, Error>) {
    let d2 = d.subrange("<!DOCTYPE"@.len() as int, d.len() as int);
    match qscan_at(d2, 0, '[', Some('>')) {
        QScan::Unclosed => (empty_model(), Err(Error::AttrMissingEndQuote)),
        QScan::NotFound => (empty_model(), Err(Error::UnterminatedDoctype)),
        QScan::Found(c, i) => {
            let name = trim_spec(d2.subrange(0, i));
            let d3 = d2.subrange(i + 1, d2.len() as int);
            if c == '[' {
                match qscan_at(d3, 0, ']', None) {
                    QScan::Unclosed => (empty_model(), Err(Error::AttrMissingEndQuote)),
                    QScan::NotFound => (empty_model(), Err(Error::UnterminatedDoctypeSubset)),
                    QScan::Found(_c2, j) => {
                        let body = trim_spec(d3.subrange(0, j));
                        let d4 = d3.subrange(j + 1, d3.len() as int);
                        match find_at(d4, 0, ">"@) {
                            None => (empty_model(), Err(Error::UnterminatedDoctype)),
                            Some(k) => (
                                ParserModel {
                                    doc: d4.subrange(k + ">"@.len(), d4.len() as int),
                                    pending: None,
                                },
                                Ok(Some(EventModel::Doctype(name, body))),
                            ),
                        }
                    },
                }
            } else {
                (
                    ParserModel { doc: d3, pending: None },
                    Ok(Some(EventModel::Doctype(name, Seq::empty()))),
                )
            }
        },
    }
}

/// One pull past `</`: everything up to `>`, trimmed, is the closing tag
/// name, which must be non-empty.
pub open spec fn close_step(d: Seq<char>) -> (ParserModel, Result<Option<EventModel>, Error>) {
    let d2 = d.subrange("</"@.len() as int, d.len() as int);
    match find_at(d2, 0, ">"@) {
        None => (empty_model(), Err(Error::UnterminatedClosingTag)),
        Some(j) => {
            let tag = trim_spec(d2.subrange(0, j));
            if tag.len() == 0 {
                (empty_model(), Err(Error::InvalidTagName))
            } else {
                (
                    ParserModel { doc: d2.subrange(j + ">"@.len(), d2.len() as int), pending: None },
                    Ok(Some(EventModel::Close(tag))),
                )
            }
        },
    }
}

/// One pull past `<`: a quote-aware scan to `>`; the content splits at the
/// first whitespace into tag name and attribute text, and a trailing `/`
/// (on either part) marks the tag self-closing, owing a synthetic `Close`.
pub open spec fn open_tag_step(d: Seq<char>) -> (ParserModel, Result<Option<EventModel>, Error>) {
    let d2 = d.subrange("<"@.len() as int, d.len() as int);
    match qscan_at(d2, 0, '>', None) {
        QScan::Unclosed => (empty_model(), Err(Error::AttrMissingEndQuote)),
        QScan::NotFound => (empty_model(), Err(Error::UnterminatedTag)),
        QScan::Found(_c, i) => {
            let content = d2.subrange(0, i);
            let doc2 = d2.subrange(i + 1, d2.len() as int);
            let split = find_ws_at(content, 0);
            let tag0 = match split {
                Some(w) => content.subrange(0, w),
                None => content,
            };
            let rest = match split {
                Some(w) => content.subrange(w + 1, content.len() as int),
                None => Seq::<char>::empty(),
            };
            if tag0.len() == 0 {
                (empty_model(), Err(Error::InvalidTagName))
            } else {
                let attrs0 = trim_spec(rest);
                if tag0.last() == '/' {
                    let tag1 = trim_end_spec(tag0.drop_last());
                    if attrs0.len() > 0 {
                        (empty_model(), Err(Error::InvalidTagName))
                    } else {
                        (
                            ParserModel { doc: doc2, pending: Some(tag1) },
                            Ok(Some(EventModel::Open(tag1, attrs0))),
                        )
                    }
                } else if attrs0.len() > 0 && attrs0.last() == '/' {
                    let attrs1 = trim_end_spec(attrs0.drop_last());
                    (
                        ParserModel { doc: doc2, pending: Some(tag0) },
                        Ok(Some(EventModel::Open(tag0, attrs1))),
                    )
                } else {
                    (
                        ParserModel { doc: doc2, pending: None },
                        Ok(Some(EventModel::Open(tag0, attrs0))),
                    )
                }
            }
        },
    }
}

/// One pull on a text run that begins with `&`: up to and including the
/// first `;` when one exists, else up to the next `<` or the end of the
/// buffer; either way the run is escaped text, and any malformed entity
/// surfaces only when the run is decoded.
pub open spec fn amp_step(d: Seq<char>) -> (ParserModel, Result<Option<EventModel>, Error>) {
    match find_char_at(d, 0, ';') {
        Some(i) => (
            ParserModel { doc: d.subrange(i + 1, d.len() as int), pending: None },
            Ok(Some(EventModel::Text(TextModel::Escaped(d.subrange(0, i + 1))))),
        ),
        None => {
            let j = match find_char_at(d, 0, '<') {
                Some(j) => j,
                None => d.len() as int,
            };
            (
                ParserModel { doc: d.subrange(j, d.len() as int), pending: None },
                Ok(Some(EventModel::Text(TextModel::Escaped(d.subrange(0, j))))),
            )
        },
    }
}

/// One pull on a verbatim text run: up to the next `<` or `&`, or the end
/// of the buffer.
pub open spec fn text_run_step(d: Seq<char>) -> (ParserModel, Result<Option<EventModel>, Error>) {
    let j = match find_either_at(d, 0, '<', '&') {
        Some(j) => j,
        None => d.len() as int,
    };
    (
        ParserModel { doc: d.subrange(j, d.len() as int), pending: None },
        Ok(Some(EventModel::Text(TextModel::Verbatim(d.subrange(0, j))))),
    )
}

/// One classification step of the scanner, before the poison-on-error rule:
/// the state afterwards and the event produced, an error, or `Ok(None)` at
/// end-of-stream. A pending self-close is served first; otherwise the next
/// characters of the buffer pick the construct.
pub open spec fn inner_step(m: ParserModel) -> (ParserModel, Result<Option<EventModel>, Error>) {
    match m.pending {
        Some(t) => (
            ParserModel { doc: m.doc, pending: None },
            Ok(Some(EventModel::Close(t))),
        ),
        None => {
            let d = m.doc;
            if begins_at(d, 0, "<?"@) {
                pi_step(d)
            } else if begins_at(d, 0, "<!DOCTYPE"@) {
                doctype_step(d)
            } else if begins_at(d, 0, "<!--"@) {
                comment_step(d)
            } else if begins_at(d, 0, "<![CDATA["@) {
                cdata_step(d)
            } else if begins_at(d, 0, "</"@) {
                close_step(d)
            } else if begins_at(d, 0, "<"@) {
                open_tag_step(d)
            } else if d.len() > 0 && d[0] == '&' {
                amp_step(d)
            } else if d.len() > 0 {
                text_run_step(d)
            } else {
                (m, Ok(None))
            }
        },
    }
}

/// One pull on the scanner: `None` at end-of-stream, otherwise one event or
/// one error. On an error the scanner clears its buffer and pending slot,
/// so the error is the last item the stream ever produces.
pub open spec fn scan_step(m: ParserModel) -> (ParserModel, Option<Result<EventModel, Error>>) {
    let step = inner_step(m);
    match step.1 {
        Ok(None) => (step.0, None),
        Ok(Some(em)) => (step.0, Some(Ok(em))),
        Err(e) => (empty_model(), Some(Err(e))),
    }
}

impl<'a> Parser<'a> {
    /// Creates a new parser over the whole buffer.
    pub fn new(doc: &'a str) -> (p: Parser<'a>)
        ensures
            p@.doc == doc@,
            p@.pending is None,
    {
        Parser { doc, self_closing: None }
    }

    /// Consumes `pattern` off the front of the buffer if it is there.
    fn consume(&mut self, pattern: &str) -> (r: bool)
        ensures
            r == begins_at(old(self)@.doc, 0, pattern@),
            r ==> final (self)@.doc == old(self)@.doc.subrange(
                pattern@.len() as int,
                old(self)@.doc.len() as int,
            ),
            !r ==> final (self)@.doc == old(self)@.doc,
            final (self)@.pending == old(self)@.pending,
    {
        let s = self.doc;
        if str_begins(s, pattern) {
            let n = s.unicode_len();
            let m = pattern.unicode_len();
            self.doc = s.substring_char(m, n);
            true
        } else {
            false
        }
    }

    /// Consumes up to and including the first occurrence of `pattern`,
    /// returning the text before it; consumes nothing when the pattern is
    /// absent.
    fn consume_to(&mut self, pattern: &str) -> (r: Option<&'a str>)
        ensures
            ({
                let d0 = old(self)@.doc;
                let d1 = final (self)@.doc;
                match find_at(d0, 0, pattern@) {
                    Some(j) => r matches Some(pre) && pre@ == d0.subrange(0, j) && d1
                        == d0.subrange(j + pattern@.len(), d0.len() as int),
                    None => r is None && d1 == d0,
                }
            }),
            final (self)@.pending == old(self)@.pending,
    {
        let s = self.doc;
        let n = s.unicode_len();
        match find_pat_from(s, 0, pattern) {
            Some(j) => {
                proof {
                    lemma_find_at(s@, 0, pattern@);
                }
                let m = pattern.unicode_len();
                let pre = s.substring_char(0, j);
                self.doc = s.substring_char(j + m, n);
                Some(pre)
            },
            None => None,
        }
    }

    /// Scans, quote-aware, for the first of one or two delimiter
    /// characters: text inside `'...'` or `"..."` is opaque. On success the
    /// delimiter is consumed and the text before it returned; an unclosed
    /// quote is an error, and a missing delimiter consumes nothing.
    fn consume_to_char_ignoring_quoted_sections(&mut self, t1: char, t2: Option<char>) -> (r:
        Result<Option<(char, &'a str)>, Error>)
        ensures
            ({
                let d0 = old(self)@.doc;
                let d1 = final (self)@.doc;
                match qscan_at(d0, 0, t1, t2) {
                    QScan::Found(c, j) => r matches Ok(Some((c2, pre))) && c2 == c && pre@
                        == d0.subrange(0, j) && d1 == d0.subrange(j + 1, d0.len() as int),
                    QScan::NotFound => r matches Ok(None) && d1 == d0,
                    QScan::Unclosed => r matches Err(e) && e == Error::AttrMissingEndQuote && d1
                        == d0,
                }
            }),
            final (self)@.pending == old(self)@.pending,
    {
        let s = self.doc;
        let n = s.unicode_len();
        let mut i: usize = 0;
        while i < n
            invariant
                i <= n,
                n == s@.len(),
                s@ == old(self)@.doc,
                self@ == old(self)@,
                qscan_at(s@, 0, t1, t2) == qscan_at(s@, i as int, t1, t2),
            decreases n - i,
        {
            let c = s.get_char(i);
            let hit = c == t1 || match t2 {
                Some(t) => c == t,
                None => false,
            };
            if hit {
                let pre = s.substring_char(0, i);
                self.doc = s.substring_char(i + 1, n);
                return Ok(Some((c, pre)));
            }
            if c == '"' || c == '\'' {
                match find_char_from(s, i + 1, c) {
                    None => {
                        return Err(Error::AttrMissingEndQuote);
                    },
                    Some(j) => {
                        proof {
                            lemma_find_char_at(s@, i as int + 1, c);
                        }
                        i = j + 1;
                    },
                }
            } else {
                i = i + 1;
            }
        }
        Ok(None)
    }

    /// One classification step: serves a pending self-close, or reads the
    /// next construct off the buffer. Errors are returned as-is; the
    /// poison-on-error rule is applied by [`Parser::next`].
    fn next_inner(&mut self) -> (r: Result<Option<Event<'a>>, Error>)
        ensures
            ({
                let step = inner_step(old(self)@);
                match step.1 {
                    Ok(None) => r matches Ok(None) && final (self)@ == step.0,
                    Ok(Some(em)) => r matches Ok(Some(ev)) && ev@ == em && final (self)@ == step.0,
                    Err(e) => r matches Err(e2) && e2 == e,
                }
            }),
    {
        if let Some(tag) = self.self_closing {
            self.self_closing = None;
            return Ok(Some(Event::Close(tag)));
        }
        if self.consume("<?") {
            return match self.consume_to("?>") {
                Some(content) => Ok(Some(Event::Pi(content))),
                None => Err(Error::UnterminatedPi),
            };
        }
        if self.consume("<!DOCTYPE") {
            let scan1 = match self.consume_to_char_ignoring_quoted_sections('[', Some('>')) {
                Ok(v) => v,
                Err(e) => return Err(e),
            };
            let (c, name_raw) = match scan1 {
                Some(p) => p,
                None => return Err(Error::UnterminatedDoctype),
            };
            let name = trim(name_raw);
            if c == '[' {
                let scan2 = match self.consume_to_char_ignoring_quoted_sections(']', None) {
                    Ok(v) => v,
                    Err(e) => return Err(e),
                };
                let body_raw = match scan2 {
                    Some(p) => p.1,
                    None => return Err(Error::UnterminatedDoctypeSubset),
                };
                let body = trim(body_raw);
                return match self.consume_to(">") {
                    Some(_ws) => Ok(Some(Event::Doctype(name, body))),
                    None => Err(Error::UnterminatedDoctype),
                };
            } else {
                let none_subset = name_raw.substring_char(0, 0);
                proof {
                    assert(none_subset@ =~= Seq::<char>::empty());
                }
                return Ok(Some(Event::Doctype(name, none_subset)));
            }
        }
        if self.consume("<!--") {
            return match self.consume_to("-->") {
                Some(content) => Ok(Some(Event::Comment(content))),
                None => Err(Error::UnterminatedComment),
            };
        }
        if self.consume("<![CDATA[") {
            return match self.consume_to("]]>") {
                Some(content) => Ok(Some(Event::Text(Text::Verbatim(content)))),
                None => Err(Error::UnterminatedCdata),
            };
        }
        if self.consume("</") {
            let tag_raw = match self.consume_to(">") {
                Some(t) => t,
                None => return Err(Error::UnterminatedClosingTag),
            };
            let tag = trim(tag_raw);
            if tag.unicode_len() == 0 {
                return Err(Error::InvalidTagName);
            }
            return Ok(Some(Event::Close(tag)));
        }
        if self.consume("<") {
            let scan = match self.consume_to_char_ignoring_quoted_sections('>', None) {
                Ok(v) => v,
                Err(e) => return Err(e),
            };
            let content = match scan {
                Some(p) => p.1,
                None => return Err(Error::UnterminatedTag),
            };
            let cn = content.unicode_len();
            let (tag0, rest) = match find_ws_from(content, 0) {
                Some(w) => {
                    proof {
                        lemma_find_ws_at(content@, 0);
                    }
                    (content.substring_char(0, w), content.substring_char(w + 1, cn))
                },
                None => {
                    let empty_rest = content.substring_char(cn, cn);
                    proof {
                        assert(empty_rest@ =~= Seq::<char>::empty());
                    }
                    (content, empty_rest)
                },
            };
            let tn = tag0.unicode_len();
            if tn == 0 {
                return Err(Error::InvalidTagName);
            }
            let attrs0 = trim(rest);
            if tag0.get_char(tn - 1) == '/' {
                let head = tag0.substring_char(0, tn - 1);
                proof {
                    assert(head@ =~= tag0@.drop_last());
                }
                let tag1 = trim_end(head);
                if attrs0.unicode_len() > 0 {
                    return Err(Error::InvalidTagName);
                }
                self.self_closing = Some(tag1);
                return Ok(Some(Event::Open(tag1, Attrs::new(attrs0))));
            }
            let an = attrs0.unicode_len();
            if an > 0 && attrs0.get_char(an - 1) == '/' {
                let head = attrs0.substring_char(0, an - 1);
                proof {
                    assert(head@ =~= attrs0@.drop_last());
                }
                let attrs1 = trim_end(head);
                self.self_closing = Some(tag0);
                return Ok(Some(Event::Open(tag0, Attrs::new(attrs1))));
            }
            return Ok(Some(Event::Open(tag0, Attrs::new(attrs0))));
        }
        let d = self.doc;
        let dn = d.unicode_len();
        if dn == 0 {
            return Ok(None);
        }
        if d.get_char(0) == '&' {
            match find_char_from(d, 0, ';') {
                Some(i) => {
                    proof {
                        lemma_find_char_at(d@, 0, ';');
                    }
                    let run = d.substring_char(0, i + 1);
                    self.doc = d.substring_char(i + 1, dn);
                    return Ok(Some(Event::Text(Text::Escaped(run))));
                },
                None => {
                    let j = match find_char_from(d, 0, '<') {
                        Some(j) => j,
                        None => dn,
                    };
                    proof {
                        lemma_find_char_at(d@, 0, '<');
                    }
                    let run = d.substring_char(0, j);
                    self.doc = d.substring_char(j, dn);
                    return Ok(Some(Event::Text(Text::Escaped(run))));
                },
            }
        }
        let j = match find_either_from(d, 0, '<', '&') {
            Some(j) => j,
            None => dn,
        };
        proof {
            lemma_find_either_at(d@, 0, '<', '&');
        }
        let run = d.substring_char(0, j);
        self.doc = d.substring_char(j, dn);
        Ok(Some(Event::Text(Text::Verbatim(run))))
    }

    /// Pulls the next event.
    ///
    /// Returns `None` at end-of-stream. On an error the remaining buffer
    /// and the pending self-close slot are cleared, so the very next pull
    /// returns `None`: the stream yields at most one error, ever, and never
    /// resumes after it.
    pub fn next(&mut self) -> (r: Option<Result<Event<'a>, Error>>)
        ensures
            ({
                let step = scan_step(old(self)@);
                final (self)@ == step.0 && match step.1 {
                    None => r is None,
                    Some(Ok(em)) => r matches Some(Ok(ev)) && ev@ == em,
                    Some(Err(e)) => r matches Some(Err(e2)) && e2 == e,
                }
            }),
    {
        match self.next_inner() {
            Ok(Some(ev)) => Some(Ok(ev)),
            Ok(None) => None,
            Err(e) => {
                let drained = self.doc.substring_char(0, 0);
                proof {
                    assert(drained@ =~= Seq::<char>::empty());
                }
                self.doc = drained;
                self.self_closing = None;
                Some(Err(e))
            },
        }
    }
}

/// A buffer whose first character is not `<` opens none of the markup
/// constructs.
proof fn lemma_not_markup_start(s: Seq<char>)
    requires
        s.len() > 0,
        s[0] != '<',
    ensures
        !begins_at(s, 0, "<?"@),
        !begins_at(s, 0, "<!DOCTYPE"@),
        !begins_at(s, 0, "<!--"@),
        !begins_at(s, 0, "<![CDATA["@),
        !begins_at(s, 0, "</"@),
        !begins_at(s, 0, "<"@),
{
    reveal_strlit("<?");
    reveal_strlit("<!DOCTYPE");
    reveal_strlit("<!--");
    reveal_strlit("<![CDATA[");
    reveal_strlit("</");
    reveal_strlit("<");
    assert(!begins_at(s, 0, "<?"@)) by {
        if begins_at(s, 0, "<?"@) {
            assert(s[0int + 0int] == "<?"@[0]);
        }
    }
    assert(!begins_at(s, 0, "<!DOCTYPE"@)) by {
        if begins_at(s, 0, "<!DOCTYPE"@) {
            assert(s[0int + 0int] == "<!DOCTYPE"@[0]);
        }
    }
    assert(!begins_at(s, 0, "<!--"@)) by {
        if begins_at(s, 0, "<!--"@) {
            assert(s[0int + 0int] == "<!--"@[0]);
        }
    }
    assert(!begins_at(s, 0, "<![CDATA["@)) by {
        if begins_at(s, 0, "<![CDATA["@) {
            assert(s[0int + 0int] == "<![CDATA["@[0]);
        }
    }
    assert(!begins_at(s, 0, "</"@)) by {
        if begins_at(s, 0, "</"@) {
            assert(s[0int + 0int] == "</"@[0]);
        }
    }
    assert(!begins_at(s, 0, "<"@)) by {
        if begins_at(s, 0, "<"@) {
            assert(s[0int + 0int] == "<"@[0]);
        }
    }
}

/// A fresh scanner over an empty buffer yields end-of-stream at once.
pub proof fn lemma_empty_ends(m: ParserModel)
    requires
        m == empty_model(),
    ensures
        scan_step(m).1 is None,
        scan_step(m).0 == m,
{
    reveal_strlit("<?");
    reveal_strlit("<!DOCTYPE");
    reveal_strlit("<!--");
    reveal_strlit("<![CDATA[");
    reveal_strlit("</");
    reveal_strlit("<");
}

/// After a pull yields an error, the next pull on the same scanner yields
/// end-of-stream: the error is the last item the stream ever produces.
pub proof fn lemma_scanner_error_then_end(m: ParserModel)
    ensures
        scan_step(m).1 matches Some(Err(_)) ==> scan_step(scan_step(m).0).1 is None,
{
    if scan_step(m).1 matches Some(Err(_)) {
        lemma_empty_ends(empty_model());
    }
}

/// How much work a scanner state has left: every pull that yields an item
/// strictly shrinks this measure, so a drain loop terminates.
pub open spec fn scan_measure(m: ParserModel) -> int {
    2 * m.doc.len() + (if m.pending is Some {
        1int
    } else {
        0int
    })
}

/// Strict forward progress: every pull that yields an event or an error
/// strictly shrinks the scanner's measure.
pub proof fn lemma_scan_step_progress(m: ParserModel)
    ensures
        scan_step(m).1 is Some ==> scan_measure(scan_step(m).0) < scan_measure(m),
{
    reveal_strlit("<?");
    reveal_strlit("?>");
    reveal_strlit("<!DOCTYPE");
    reveal_strlit("<!--");
    reveal_strlit("-->");
    reveal_strlit("<![CDATA[");
    reveal_strlit("]]>");
    reveal_strlit("</");
    reveal_strlit("<");
    reveal_strlit(">");
    if m.pending is Some {
        return ;
    }
    let d = m.doc;
    if begins_at(d, 0, "<?"@) {
        let d2 = d.subrange("<?"@.len() as int, d.len() as int);
        lemma_find_at(d2, 0, "?>"@);
    } else if begins_at(d, 0, "<!DOCTYPE"@) {
        let d2 = d.subrange("<!DOCTYPE"@.len() as int, d.len() as int);
        lemma_qscan_at(d2, 0, '[', Some('>'));
        match qscan_at(d2, 0, '[', Some('>')) {
            QScan::Found(c, i) => {
                let d3 = d2.subrange(i + 1, d2.len() as int);
                if c == '[' {
                    lemma_qscan_at(d3, 0, ']', None);
                    match qscan_at(d3, 0, ']', None) {
                        QScan::Found(_c2, j) => {
                            let d4 = d3.subrange(j + 1, d3.len() as int);
                            lemma_find_at(d4, 0, ">"@);
                        },
                        _ => {},
                    }
                }
            },
            _ => {},
        }
    } else if begins_at(d, 0, "<!--"@) {
        let d2 = d.subrange("<!--"@.len() as int, d.len() as int);
        lemma_find_at(d2, 0, "-->"@);
    } else if begins_at(d, 0, "<![CDATA["@) {
        let d2 = d.subrange("<![CDATA["@.len() as int, d.len() as int);
        lemma_find_at(d2, 0, "]]>"@);
    } else if begins_at(d, 0, "</"@) {
        let d2 = d.subrange("</"@.len() as int, d.len() as int);
        lemma_find_at(d2, 0, ">"@);
    } else if begins_at(d, 0, "<"@) {
        let d2 = d.subrange("<"@.len() as int, d.len() as int);
        lemma_qscan_at(d2, 0, '>', None);
    } else if d.len() > 0 && d[0] == '&' {
        lemma_find_char_at(d, 0, ';');
        lemma_find_char_at(d, 0, '<');
    } else if d.len() > 0 {
        lemma_find_either_at(d, 0, '<', '&');
    }
}

/// An input with no markup at all — no `<` and no `&` — produces exactly
/// one event: a verbatim text run equal to the whole input, which also
/// decodes to exactly the input.
pub proof fn lemma_no_markup_single_text(s: Seq<char>)
    requires
        s.len() > 0,
        forall|k: int| 0 <= k < s.len() ==> s[k] != '<' && s[k] != '&',
    ensures
        ({
            let step = scan_step(ParserModel { doc: s, pending: None });
            &&& step.1 == Some(Ok::<EventModel, Error>(EventModel::Text(TextModel::Verbatim(s))))
            &&& step.0 == empty_model()
            &&& scan_step(step.0).1 is None
            &&& crate::text::decode_full(TextModel::Verbatim(s)) == (s, None::<Error>)
        }),
{
    lemma_not_markup_start(s);
    lemma_find_either_at(s, 0, '<', '&');
    assert(find_either_at(s, 0, '<', '&') is None);
    assert(s.subrange(0, s.len() as int) =~= s);
    assert(s.subrange(s.len() as int, s.len() as int) =~= Seq::<char>::empty());
    lemma_empty_ends(empty_model());
    crate::text::lemma_verbatim_decodes_plain(s);
}

/// An input with no `<` that is one whole entity run — it starts with `&`,
/// and its first `;`, if it has one, is its last character — produces
/// exactly one event: an escaped text run equal to the whole input.
pub proof fn lemma_entity_run_single_text(s: Seq<char>)
    requires
        s.len() > 0,
        s[0] == '&',
        forall|k: int| 0 <= k < s.len() ==> s[k] != '<',
        find_char_at(s, 0, ';') is Some ==> find_char_at(s, 0, ';') == Some(s.len() - 1),
    ensures
        ({
            let step = scan_step(ParserModel { doc: s, pending: None });
            &&& step.1 == Some(Ok::<EventModel, Error>(EventModel::Text(TextModel::Escaped(s))))
            &&& step.0 == empty_model()
            &&& scan_step(step.0).1 is None
        }),
{
    lemma_not_markup_start(s);
    match find_char_at(s, 0, ';') {
        Some(i) => {
            assert(i == s.len() - 1);
            assert(s.subrange(0, i + 1) =~= s);
            assert(s.subrange(i + 1, s.len() as int) =~= Seq::<char>::empty());
        },
        None => {
            lemma_find_char_at(s, 0, '<');
            assert(find_char_at(s, 0, '<') is None);
            assert(s.subrange(0, s.len() as int) =~= s);
            assert(s.subrange(s.len() as int, s.len() as int) =~= Seq::<char>::empty());
        },
    }
    lemma_empty_ends(empty_model());
}

} // verus!
