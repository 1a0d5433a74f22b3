//! Line framing: raw chunks from the transport are decoded and appended to a
//! buffer, from which complete lines are drained.

use vstd::prelude::*;
use vstd::utf8::{decode_first_scalar, decode_utf8, pop_first_scalar, valid_utf8};
use crate::text::{
    chars_of, find_char, index_of, lemma_index_of, lemma_index_of_unique, string_of, views,
};

verus! {

/// Why a chunk could not be taken into the buffer.
#[derive(Debug, Clone, Copy, PartialEq, Eq, Structural)]
pub enum FrameError {
    /// The transport delivered a zero-length read: the peer closed.
    ConnectionClosed,
    /// The chunk is not well-formed UTF-8.
    InvalidUtf8,
}

/// `line` without one trailing carriage return.
pub open spec fn without_cr(line: Seq<char>) -> Seq<char> {
    if line.len() > 0 && line.last() == '\r' {
        line.drop_last()
    } else {
        line
    }
}

/// The lines that draining `buf` yields, and what stays in the buffer.
/// Each line ends at a line feed, minus a carriage return before it. An
/// empty line ends the burst and discards the rest of the buffer; a partial
/// last line stays for the next chunk.
pub open spec fn drained(buf: Seq<char>) -> (Seq<Seq<char>>, Seq<char>)
    decreases buf.len(),
{
    let i = index_of(buf, '\n');
    if i >= buf.len() {
        (seq![], buf)
    } else {
        let line = without_cr(buf.take(i as int));
        if line.len() == 0 {
            (seq![], seq![])
        } else {
            let rest = drained(buf.skip((i + 1) as int));
            (seq![line] + rest.0, rest.1)
        }
    }
}

/// What draining leaves holds no line feed: at most one incomplete line.
pub proof fn lemma_drained_rest_is_partial(buf: Seq<char>)
    ensures
        forall|j: int| 0 <= j < drained(buf).1.len() ==> drained(buf).1[j] != '\n',
    decreases buf.len(),
{
    lemma_index_of(buf, '\n');
    let i = index_of(buf, '\n');
    if i >= buf.len() {
        assert(drained(buf).1 == buf);
    } else if without_cr(buf.take(i as int)).len() != 0 {
        lemma_drained_rest_is_partial(buf.skip((i + 1) as int));
        assert(drained(buf).1 == drained(buf.skip((i + 1) as int)).1);
    } else {
        assert(drained(buf).1.len() == 0);
    }
}

/// Relies on `std::str::from_utf8`: it accepts exactly the well-formed UTF-8
/// byte sequences and decodes them.
#[verifier::external_body]
fn decode_chunk(bytes: &[u8]) -> (r: Option<String>)
    ensures
        r is Some <==> valid_utf8(bytes@),
        r matches Some(s) ==> s@ == decode_utf8(bytes@),
{
    match std::str::from_utf8(bytes) {
        Ok(s) => Some(s.to_string()),
        Err(_) => None,
    }
}

/// Accumulates text from the transport; holds at most one incomplete line
/// once drained.
pub struct LineBuffer {
    text: Vec<char>,
}

impl View for LineBuffer {
    type V = Seq<char>;

    closed spec fn view(&self) -> Seq<char> {
        self.text@
    }
}

impl LineBuffer {
    /// An empty buffer.
    pub fn new() -> (r: LineBuffer)
        ensures
            r@ == Seq::<char>::empty(),
    {
        LineBuffer { text: Vec::new() }
    }

    /// The text buffered so far.
    pub fn pending(&self) -> (r: String)
        ensures
            r@ == self@,
    {
        string_of(self.text.as_slice(), 0, self.text.len())
    }

    /// Appends a chunk read from the transport. A zero-length chunk means
    /// the peer closed; a chunk that is not UTF-8 is refused. Either way the
    /// buffer is left as it was.
    pub fn feed(&mut self, chunk: &[u8]) -> (r: Result<(), FrameError>)
        ensures
            chunk@.len() == 0 ==> r == Err::<(), FrameError>(FrameError::ConnectionClosed),
            chunk@.len() > 0 && !valid_utf8(chunk@) ==> r == Err::<(), FrameError>(
                FrameError::InvalidUtf8,
            ),
            chunk@.len() > 0 && valid_utf8(chunk@) ==> r is Ok,
            r is Ok ==> final(self)@ == old(self)@ + decode_utf8(chunk@),
            r is Err ==> final(self)@ == old(self)@,
    {
        if chunk.len() == 0 {
            return Err(FrameError::ConnectionClosed);
        }
        match decode_chunk(chunk) {
            None => Err(FrameError::InvalidUtf8),
            Some(s) => {
                let cs = chars_of(s.as_str());
                let mut i: usize = 0;
                while i < cs.len()
                    invariant
                        i <= cs@.len(),
                        self.text@ == old(self).text@ + cs@.take(i as int),
                    decreases cs@.len() - i,
                {
                    self.text.push(cs[i]);
                    assert(cs@.take(i + 1) =~= cs@.take(i as int).push(cs@[i as int]));
                    i = i + 1;
                }
                assert(cs@.take(cs@.len() as int) =~= cs@);
                Ok(())
            },
        }
    }

    /// Removes and returns the complete lines at the front of the buffer,
    /// as `drained` describes.
    pub fn drain(&mut self) -> (lines: Vec<String>)
        ensures
            views(lines@) == drained(old(self)@).0,
            final(self)@ == drained(old(self)@).1,
            forall|j: int| 0 <= j < final(self)@.len() ==> final(self)@[j] != '\n',
    {
        proof {
            lemma_drained_rest_is_partial(self@);
        }
        let ghost start = self.text@;
        let n = self.text.len();
        let mut lines: Vec<String> = Vec::new();
        let mut pos: usize = 0;
        let mut cleared = false;
        assert(start.skip(0) =~= start);
        assert(views(lines@) + drained(start).0 =~= drained(start).0);
        loop
            invariant_except_break
                !cleared,
                drained(start) == (
                    views(lines@) + drained(start.skip(pos as int)).0,
                    drained(start.skip(pos as int)).1,
                ),
            invariant
                self.text@ == start,
                n == start.len(),
                pos <= n,
            ensures
                self.text@ == start,
                pos <= n,
                cleared ==> drained(start) == (views(lines@), Seq::<char>::empty()),
                !cleared ==> drained(start) == (views(lines@), start.skip(pos as int)),
            decreases n - pos,
        {
            let nl = find_char(self.text.as_slice(), pos, n, '\n');
            let ghost rest = start.skip(pos as int);
            assert(start.subrange(pos as int, n as int) =~= rest);
            if nl == n {
                break;
            }
            let mut end = nl;
            if end > pos && self.text[end - 1] == '\r' {
                end = end - 1;
            }
            assert(start.subrange(pos as int, end as int) =~= without_cr(
                rest.take(nl - pos),
            ));
            if end == pos {
                cleared = true;
                break;
            }
            let line = string_of(self.text.as_slice(), pos, end);
            let ghost before = lines@;
            lines.push(line);
            assert(views(lines@) =~= views(before).push(line@));
            assert(rest.skip(nl - pos + 1) =~= start.skip(nl + 1));
            pos = nl + 1;
        }
        if cleared {
            self.text = Vec::new();
        } else {
            let mut tail: Vec<char> = Vec::new();
            let mut i = pos;
            while i < n
                invariant
                    self.text@ == start,
                    n == start.len(),
                    pos <= i <= n,
                    tail@ == start.subrange(pos as int, i as int),
                decreases n - i,
            {
                tail.push(self.text[i]);
                i = i + 1;
            }
            assert(tail@ =~= start.skip(pos as int));
            self.text = tail;
        }
        lines
    }
}

/// All chunks, one after the other.
pub open spec fn concat_all(chunks: Seq<Seq<u8>>) -> Seq<u8>
    decreases chunks.len(),
{
    if chunks.len() == 0 {
        Seq::empty()
    } else {
        concat_all(chunks.drop_last()) + chunks.last()
    }
}

/// The buffer after each chunk in turn was fed to `buf` and accepted.
pub open spec fn fed(buf: Seq<char>, chunks: Seq<Seq<u8>>) -> Seq<char>
    decreases chunks.len(),
{
    if chunks.len() == 0 {
        buf
    } else {
        fed(buf, chunks.drop_last()) + decode_utf8(chunks.last())
    }
}

/// Every chunk is well-formed UTF-8, so that feeding accepts it.
pub open spec fn all_utf8(chunks: Seq<Seq<u8>>) -> bool {
    forall|k: int| 0 <= k < chunks.len() ==> valid_utf8(#[trigger] chunks[k])
}

proof fn lemma_decode_concat(a: Seq<u8>, b: Seq<u8>)
    requires
        valid_utf8(a),
        valid_utf8(b),
    ensures
        valid_utf8(a + b),
        decode_utf8(a + b) == decode_utf8(a) + decode_utf8(b),
    decreases a.len(),
{
    let ab = a + b;
    if a.len() == 0 {
        assert(ab =~= b);
        assert(decode_utf8(a) + decode_utf8(b) =~= decode_utf8(b));
    } else {
        assert forall|i: int| 0 <= i < a.len() implies ab[i] == a[i] by {}
        let rest = pop_first_scalar(a);
        assert(pop_first_scalar(ab) =~= rest + b);
        lemma_decode_concat(rest, b);
        assert(decode_utf8(ab) =~= seq![decode_first_scalar(a) as char] + decode_utf8(rest + b));
    }
}

proof fn lemma_fed_is_concat(buf: Seq<char>, chunks: Seq<Seq<u8>>)
    requires
        all_utf8(chunks),
    ensures
        valid_utf8(concat_all(chunks)),
        fed(buf, chunks) == buf + decode_utf8(concat_all(chunks)),
    decreases chunks.len(),
{
    if chunks.len() > 0 {
        let init = chunks.drop_last();
        assert forall|k: int| 0 <= k < init.len() implies valid_utf8(#[trigger] init[k]) by {
            assert(init[k] == chunks[k]);
        }
        lemma_fed_is_concat(buf, init);
        assert(valid_utf8(chunks[chunks.len() - 1]));
        lemma_decode_concat(concat_all(init), chunks.last());
        assert(buf + decode_utf8(concat_all(chunks)) =~= buf + decode_utf8(concat_all(init))
            + decode_utf8(chunks.last()));
    } else {
        assert(buf + decode_utf8(concat_all(chunks)) =~= buf);
    }
}

/// Framing does not depend on how the input was split into chunks: feeding
/// two splittings of the same bytes, in order, and then draining yields the
/// same lines and leaves the same partial line. Each chunk must be accepted
/// by `feed`, so no split falls inside a character.
pub proof fn lemma_split_invariance(buf: Seq<char>, a: Seq<Seq<u8>>, b: Seq<Seq<u8>>)
    requires
        all_utf8(a),
        all_utf8(b),
        concat_all(a) == concat_all(b),
    ensures
        drained(fed(buf, a)) == drained(fed(buf, b)),
{
    lemma_fed_is_concat(buf, a);
    lemma_fed_is_concat(buf, b);
}

/// Every complete line of `s` is non-empty once its carriage return is
/// dropped, so draining never discards the rest of the buffer.
pub open spec fn no_blank_line(s: Seq<char>) -> bool
    decreases s.len(),
{
    let i = index_of(s, '\n');
    if i >= s.len() {
        true
    } else {
        without_cr(s.take(i as int)).len() != 0 && no_blank_line(s.skip((i + 1) as int))
    }
}

/// Draining before more text arrives loses nothing: the lines of `s`, then
/// those of what `s` left followed by `t`, are the lines of `s + t`.
proof fn lemma_drain_then_append(s: Seq<char>, t: Seq<char>)
    requires
        no_blank_line(s + t),
    ensures
        no_blank_line(s),
        drained(s + t) == (
            drained(s).0 + drained(drained(s).1 + t).0,
            drained(drained(s).1 + t).1,
        ),
    decreases s.len(),
{
    lemma_index_of(s, '\n');
    lemma_index_of(s + t, '\n');
    let i = index_of(s, '\n');
    if i >= s.len() {
        assert(drained(s).0 + drained(s + t).0 =~= drained(s + t).0);
    } else {
        assert((s + t)[i as int] == s[i as int]);
        assert forall|j: int| 0 <= j < i implies (s + t)[j] != '\n' by {
            assert((s + t)[j] == s[j]);
        }
        lemma_index_of_unique(s + t, '\n', i as int);
        assert((s + t).take(i as int) =~= s.take(i as int));
        let rest = s.skip((i + 1) as int);
        assert((s + t).skip((i + 1) as int) =~= rest + t);
        lemma_drain_then_append(rest, t);
        assert(drained(s + t).0 =~= drained(s).0 + drained(drained(s).1 + t).0);
    }
}

/// The lines and the buffer after feeding each chunk in turn and draining
/// after each one, from an empty buffer.
pub open spec fn drained_per_chunk(chunks: Seq<Seq<u8>>) -> (Seq<Seq<char>>, Seq<char>)
    decreases chunks.len(),
{
    if chunks.len() == 0 {
        (seq![], seq![])
    } else {
        let before = drained_per_chunk(chunks.drop_last());
        let now = drained(before.1 + decode_utf8(chunks.last()));
        (before.0 + now.0, now.1)
    }
}

/// Draining after each chunk, as a client does between reads, yields the
/// lines of draining once after all of them, unless the input has a blank
/// line, which discards what follows it in the buffer.
pub proof fn lemma_drain_per_chunk(chunks: Seq<Seq<u8>>)
    requires
        all_utf8(chunks),
        no_blank_line(fed(Seq::empty(), chunks)),
    ensures
        drained_per_chunk(chunks) == drained(fed(Seq::empty(), chunks)),
    decreases chunks.len(),
{
    if chunks.len() == 0 {
        assert(index_of(Seq::<char>::empty(), '\n') == 0);
        assert(drained(Seq::<char>::empty()) == (Seq::<Seq<char>>::empty(), Seq::<char>::empty()));
    } else {
        let init = chunks.drop_last();
        assert forall|k: int| 0 <= k < init.len() implies valid_utf8(#[trigger] init[k]) by {
            assert(init[k] == chunks[k]);
        }
        let whole = fed(Seq::empty(), init);
        let last = decode_utf8(chunks.last());
        lemma_drain_then_append(whole, last);
        lemma_drain_per_chunk(init);
    }
}

/// With no blank line in the input, draining after each chunk does not
/// depend on how the input was split either.
pub proof fn lemma_split_invariance_per_chunk(a: Seq<Seq<u8>>, b: Seq<Seq<u8>>)
    requires
        all_utf8(a),
        all_utf8(b),
        concat_all(a) == concat_all(b),
        no_blank_line(fed(Seq::empty(), a)),
    ensures
        drained_per_chunk(a) == drained_per_chunk(b),
{
    lemma_fed_is_concat(Seq::empty(), a);
    lemma_fed_is_concat(Seq::empty(), b);
    lemma_drain_per_chunk(a);
    lemma_drain_per_chunk(b);
}

} // verus!
