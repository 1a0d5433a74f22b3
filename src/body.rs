//! Decoding of a message body: CTCP framing, the dialect's legacy framing,
//! and style stripping of the displayable parts.

use vstd::prelude::*;
use crate::style::{strip_style, style_stripped};
use crate::text::{chars_of, find_char, index_of, string_of, trim_end, trimmed_end, upper_of,
    upper_string};

verus! {

/// A decoded body. Displayable text is already style-stripped.
#[derive(Debug, PartialEq, Eq)]
pub enum Body {
    /// Plain text.
    Plain(String),
    /// A body wrapped in a control character: U+0001 for CTCP, U+0002 for
    /// the dialect's legacy framing.
    Framed {
        legacy: bool,
        /// The first word of the stripped text, in upper case.
        verb: String,
        /// What follows its first space; empty without one.
        rest: String,
        /// The framed text without its delimiters, style-stripped.
        inner: String,
    },
}

pub enum BodyView {
    Plain(Seq<char>),
    Framed { legacy: bool, verb: Seq<char>, rest: Seq<char>, inner: Seq<char> },
}

impl View for Body {
    type V = BodyView;

    open spec fn view(&self) -> BodyView {
        match self {
            Body::Plain(t) => BodyView::Plain(t@),
            Body::Framed { legacy, verb, rest, inner } => BodyView::Framed {
                legacy: *legacy,
                verb: verb@,
                rest: rest@,
                inner: inner@,
            },
        }
    }
}

/// Whether `b` is longer than one character and starts and ends with `d`.
pub open spec fn framed_by(b: Seq<char>, d: char) -> bool {
    b.len() > 1 && b[0] == d && b.last() == d
}

/// The text before the first space.
pub open spec fn first_word(s: Seq<char>) -> Seq<char> {
    s.take(index_of(s, ' ') as int)
}

/// The text after the first space, or nothing when there is none.
pub open spec fn after_first_word(s: Seq<char>) -> Seq<char> {
    if index_of(s, ' ') < s.len() {
        s.skip(index_of(s, ' ') as int + 1)
    } else {
        seq![]
    }
}

/// A framed body's parts, read from its style-stripped text.
pub open spec fn framed_view(legacy: bool, inner: Seq<char>) -> BodyView {
    let text = style_stripped(inner);
    BodyView::Framed {
        legacy,
        verb: upper_of(first_word(text)),
        rest: after_first_word(text),
        inner: text,
    }
}

/// How a body decodes once trailing whitespace is trimmed: CTCP framing is
/// tried first, then the legacy framing where the dialect has it; else it is
/// plain text.
pub open spec fn decoded(raw: Seq<char>, legacy_framing: bool) -> BodyView {
    let b = trim_end(raw);
    if framed_by(b, '\u{1}') {
        framed_view(false, b.subrange(1, b.len() - 1))
    } else if legacy_framing && framed_by(b, '\u{2}') {
        framed_view(true, b.subrange(1, b.len() - 1))
    } else {
        BodyView::Plain(style_stripped(b))
    }
}

/// Trims trailing whitespace, then style-strips: the form of free text that
/// is shown.
pub open spec fn display_text(raw: Seq<char>) -> Seq<char> {
    style_stripped(trim_end(raw))
}

/// The displayable form of free text.
pub fn display(raw: &str) -> (r: String)
    ensures
        r@ == display_text(raw@),
{
    let cs = chars_of(raw);
    let e = trimmed_end(cs.as_slice(), 0, cs.len());
    assert(cs@.subrange(0, cs@.len() as int) =~= cs@);
    let t = string_of(cs.as_slice(), 0, e);
    strip_style(t.as_str())
}

fn framed(legacy: bool, cs: &[char], from: usize, to: usize) -> (r: Body)
    requires
        from <= to <= cs@.len(),
    ensures
        r@ == framed_view(legacy, cs@.subrange(from as int, to as int)),
{
    let raw = string_of(cs, from, to);
    let inner = strip_style(raw.as_str());
    let ts = chars_of(inner.as_str());
    let n = ts.len();
    let sp = find_char(ts.as_slice(), 0, n, ' ');
    assert(ts@.subrange(0, n as int) =~= ts@);
    assert(ts@.subrange(0, sp as int) =~= first_word(ts@));
    let verb = upper_string(ts.as_slice(), 0, sp);
    let rest = if sp < n {
        assert(ts@.subrange(sp + 1, n as int) =~= after_first_word(ts@));
        string_of(ts.as_slice(), sp + 1, n)
    } else {
        assert(after_first_word(ts@) =~= Seq::<char>::empty());
        String::new()
    };
    Body::Framed { legacy, verb, rest, inner }
}

/// Decodes a message body, as `decoded` describes.
pub fn decode_body(raw: &str, legacy_framing: bool) -> (r: Body)
    ensures
        r@ == decoded(raw@, legacy_framing),
{
    let cs = chars_of(raw);
    let e = trimmed_end(cs.as_slice(), 0, cs.len());
    assert(cs@.subrange(0, cs@.len() as int) =~= cs@);
    let ghost b = cs@.subrange(0, e as int);
    if e > 1 && cs[0] == '\u{1}' && cs[e - 1] == '\u{1}' {
        assert(cs@.subrange(1, e - 1) =~= b.subrange(1, b.len() - 1));
        framed(false, cs.as_slice(), 1, e - 1)
    } else if legacy_framing && e > 1 && cs[0] == '\u{2}' && cs[e - 1] == '\u{2}' {
        assert(cs@.subrange(1, e - 1) =~= b.subrange(1, b.len() - 1));
        framed(true, cs.as_slice(), 1, e - 1)
    } else {
        let t = string_of(cs.as_slice(), 0, e);
        Body::Plain(strip_style(t.as_str()))
    }
}

} // verus!
