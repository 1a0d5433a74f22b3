//! Removal of cosmetic style markup: the dialect's bracketed `[style ...]`
//! tags and the legacy control codes for colour, underline, bold, reset and
//! reverse.

use vstd::prelude::*;
use crate::text::str_eq;

verus! {

/// An opening `[style ...]` tag, whose attributes are discarded, or a
/// closing `[/style]` tag.
pub const STYLE_TAG_PATTERN: &'static str = r"\[(?:/)?style(?:[^\]]+)?\]";

/// Colour select (optionally followed by one or two digits, then optionally
/// a comma and one or two more), underline, bold, reset and reverse.
pub const CONTROL_CODE_PATTERN: &'static str =
    "(\u{0003}(\\d(\\d)?(,(\\d(\\d)?)?)?)?|\u{001F}|\u{0002}|\u{000F}|\u{0016})";

/// What `regex` makes of removing every match of `pattern` from `text`:
/// `None` when the pattern does not compile.
pub uninterp spec fn regex_removal(pattern: Seq<char>, text: Seq<char>) -> Option<Seq<char>>;

/// Relies on `regex::Regex::new` and `regex::Regex::replace_all` with an
/// empty replacement: `None` where the pattern is refused, else the text with
/// every leftmost-first, non-overlapping match removed. Both depend on the
/// pattern and the text alone. Removing matches never lengthens the text,
/// and keeps its length only when every match was empty, that is when the
/// text comes back unchanged.
#[verifier::external_body]
fn remove_matches(pattern: &str, text: &str) -> (r: Option<String>)
    ensures
        match r {
            Some(t) => regex_removal(pattern@, text@) == Some(t@),
            None => regex_removal(pattern@, text@) is None,
        },
        r matches Some(t) ==> t@.len() <= text@.len(),
        r matches Some(t) ==> (t@.len() == text@.len() ==> t@ == text@),
{
    match regex::Regex::new(pattern) {
        Ok(re) => Some(re.replace_all(text, "").into_owned()),
        Err(_) => None,
    }
}

/// `text` without the matches of `pattern`; a pattern the engine refuses
/// removes nothing.
pub open spec fn removed(pattern: Seq<char>, text: Seq<char>) -> Seq<char> {
    match regex_removal(pattern, text) {
        Some(t) => t,
        None => text,
    }
}

/// One pass over `text`: style tags, then control codes, removed.
pub open spec fn strip_pass(text: Seq<char>) -> Seq<char> {
    removed(CONTROL_CODE_PATTERN@, removed(STYLE_TAG_PATTERN@, text))
}

/// `text` after `n` passes.
pub open spec fn passes(text: Seq<char>, n: nat) -> Seq<char>
    decreases n,
{
    if n == 0 {
        text
    } else {
        strip_pass(passes(text, (n - 1) as nat))
    }
}

/// A pass leaves `text` as it is.
pub open spec fn is_stripped(text: Seq<char>) -> bool {
    strip_pass(text) == text
}

/// Where repeated passes over `text` come to rest: removing one tag or code
/// can join the pieces of another, which the next pass then removes.
pub open spec fn style_stripped(text: Seq<char>) -> Seq<char> {
    passes(text, choose|n: nat| is_stripped(#[trigger] passes(text, n)))
}

proof fn lemma_passes_rest(text: Seq<char>, k: nat, m: nat)
    requires
        is_stripped(passes(text, k)),
        k <= m,
    ensures
        passes(text, m) == passes(text, k),
    decreases m - k,
{
    if m > k {
        lemma_passes_rest(text, k, (m - 1) as nat);
    }
}

/// Once a pass changes nothing, that text is where stripping comes to rest.
pub proof fn lemma_style_stripped_at(text: Seq<char>, k: nat)
    requires
        is_stripped(passes(text, k)),
    ensures
        style_stripped(text) == passes(text, k),
{
    let n = choose|n: nat| is_stripped(#[trigger] passes(text, n));
    assert(is_stripped(passes(text, n)));
    if n <= k {
        lemma_passes_rest(text, n, k);
    } else {
        lemma_passes_rest(text, k, n);
    }
}

fn remove_or_keep(pattern: &str, text: &str) -> (r: String)
    ensures
        r@ == removed(pattern@, text@),
        r@.len() <= text@.len(),
        r@.len() == text@.len() ==> r@ == text@,
{
    match remove_matches(pattern, text) {
        Some(t) => t,
        None => String::from_str(text),
    }
}

fn strip_once(text: &str) -> (r: String)
    ensures
        r@ == strip_pass(text@),
        r@.len() <= text@.len(),
        r@.len() == text@.len() ==> r@ == text@,
{
    let without_tags = remove_or_keep(STYLE_TAG_PATTERN, text);
    remove_or_keep(CONTROL_CODE_PATTERN, without_tags.as_str())
}

/// Removes style tags and legacy formatting codes from displayable text,
/// pass after pass until none is left. Stripping the result again changes
/// nothing.
pub fn strip_style(value: &str) -> (r: String)
    ensures
        r@ == style_stripped(value@),
        style_stripped(r@) == r@,
{
    let mut t = String::from_str(value);
    let ghost mut k: nat = 0;
    loop
        invariant
            t@ == passes(value@, k),
        ensures
            t@ == passes(value@, k),
            is_stripped(t@),
        decreases t@.len(),
    {
        let next = strip_once(t.as_str());
        if str_eq(next.as_str(), t.as_str()) {
            break;
        }
        proof {
            k = k + 1;
        }
        t = next;
    }
    proof {
        lemma_style_stripped_at(value@, k);
        lemma_style_stripped_at(t@, 0);
    }
    t
}

} // verus!
