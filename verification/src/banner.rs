//! The banner and the fragment of it that one write attempt offers.

use vstd::prelude::*;
use vstd::string::{is_ascii, is_ascii_spec_bytes};

verus! {

/// The byte that ends a line of the banner.
pub const NEWLINE: u8 = 10;

/// Where the fragment that starts at `start` ends (exclusive): just behind
/// the first newline at or after `start`, or at the end of `text` when no
/// newline is left.
pub open spec fn line_end(text: Seq<u8>, start: int) -> int
    decreases text.len() - start,
{
    if start < 0 || start >= text.len() {
        text.len() as int
    } else if text[start] == NEWLINE {
        start + 1
    } else {
        line_end(text, start + 1)
    }
}

/// The position in `text` at which a connection that has been sent `sent`
/// bytes continues.
pub open spec fn offset_of(text: Seq<u8>, sent: int) -> int {
    sent % (text.len() as int)
}

/// The bytes offered to a connection that has been sent `sent` bytes so far:
/// from its position in `text` to the end of that line.
pub open spec fn fragment_of(text: Seq<u8>, sent: int) -> Seq<u8> {
    text.subrange(offset_of(text, sent), line_end(text, offset_of(text, sent)))
}

/// `end` closes the fragment that starts at `start`: the fragment is not
/// empty, holds no newline before its last byte, and stops at a newline
/// unless the text itself ends.
pub open spec fn closes_line(text: Seq<u8>, start: int, end: int) -> bool {
    &&& start < end <= text.len()
    &&& forall|k: int| start <= k < end - 1 ==> text[k] != NEWLINE
    &&& (end == text.len() || text[end - 1] == NEWLINE)
}

/// `line_end` is the one position that closes the line begun at `start`.
pub proof fn lemma_line_end_closes(text: Seq<u8>, start: int)
    requires
        0 <= start < text.len(),
    ensures
        closes_line(text, start, line_end(text, start)),
        forall|end: int| closes_line(text, start, end) ==> end == line_end(text, start),
    decreases text.len() - start,
{
    let here = line_end(text, start);
    if text[start] != NEWLINE {
        if start + 1 == text.len() {
            assert(line_end(text, start + 1) == text.len());
        } else {
            lemma_line_end_closes(text, start + 1);
        }
    }
    assert(closes_line(text, start, here));
    assert forall|end: int| closes_line(text, start, end) implies end == here by {
        if text[start] != NEWLINE && start + 1 < text.len() && end != start + 1 {
            assert(closes_line(text, start + 1, end));
        }
    }
}

/// The fragment to offer to a connection that has been sent `bytes_sent`
/// bytes of `banner`, which is read cyclically.
pub fn fragment<'a>(banner: &'a [u8], bytes_sent: u64) -> (frag: &'a [u8])
    requires
        banner@.len() > 0,
    ensures
        frag@ == fragment_of(banner@, bytes_sent as int),
        closes_line(
            banner@,
            offset_of(banner@, bytes_sent as int),
            offset_of(banner@, bytes_sent as int) + frag@.len(),
        ),
{
    let len: usize = banner.len();
    let start: usize = (bytes_sent % (len as u64)) as usize;
    let mut end: usize = start;
    proof {
        lemma_line_end_closes(banner@, start as int);
    }
    while end < len && banner[end] != NEWLINE
        invariant
            len == banner@.len(),
            start <= end <= len,
            start < len,
            line_end(banner@, end as int) == line_end(banner@, start as int),
        decreases len - end,
    {
        end = end + 1;
    }
    if end < len {
        end = end + 1;
    }
    &banner[start..end]
}

/// The text that is trickled to every connection: a rhyme that never ends.
pub const BANNER: &'static str =
    "My name is Yon Yonson,\r\nI live in Wisconsin.\r\nI work in a lumber yard there.\r\nThe people I meet as\r\nI walk down the street,\r\nThey say \"Hello!\"\r\nI say \"Hello!\"\r\nThey say \"What's your name.\"\r\nI say: ";

/// The banner as bytes.
pub fn banner() -> (text: &'static [u8])
    ensures
        text@ == BANNER@.map_values(|c: char| c as u8),
        text@.len() > 0,
{
    proof {
        reveal_strlit(
            "My name is Yon Yonson,\r\nI live in Wisconsin.\r\nI work in a lumber yard there.\r\nThe people I meet as\r\nI walk down the street,\r\nThey say \"Hello!\"\r\nI say \"Hello!\"\r\nThey say \"What's your name.\"\r\nI say: ",
        );
        is_ascii_spec_bytes(BANNER);
    }
    BANNER.as_bytes()
}

/// The banner read round and round: the `count` bytes that follow position
/// `from` of the endless repetition of `text`.
pub open spec fn stream(text: Seq<u8>, from: int, count: nat) -> Seq<u8> {
    Seq::new(count, |i: int| text[(from + i) % (text.len() as int)])
}

/// Each entry of `takes` is a number of bytes that a write attempt may
/// accept of the fragment offered at that point, when the connection has
/// been sent `sent` bytes before the first of them.
pub open spec fn takes_fit(text: Seq<u8>, sent: int, takes: Seq<nat>) -> bool
    decreases takes.len(),
{
    takes.len() == 0 || {
        &&& takes[0] <= fragment_of(text, sent).len()
        &&& takes_fit(text, sent + takes[0], takes.drop_first())
    }
}

/// The number of bytes that the write attempts `takes` accept in all.
pub open spec fn total_taken(takes: Seq<nat>) -> nat
    decreases takes.len(),
{
    if takes.len() == 0 {
        0
    } else {
        takes[0] + total_taken(takes.drop_first())
    }
}

/// What reaches the peer when the write attempts accept `takes` bytes in
/// turn, each of the fragment offered at that point.
pub open spec fn delivered(text: Seq<u8>, sent: int, takes: Seq<nat>) -> Seq<u8>
    decreases takes.len(),
{
    if takes.len() == 0 {
        Seq::empty()
    } else {
        fragment_of(text, sent).take(takes[0] as int) + delivered(
            text,
            sent + takes[0],
            takes.drop_first(),
        )
    }
}

/// The fragment is cyclic: a whole banner later the same fragment is
/// offered again.
pub proof fn lemma_fragment_cyclic(text: Seq<u8>, sent: int)
    requires
        text.len() > 0,
        sent >= 0,
    ensures
        fragment_of(text, sent + text.len()) == fragment_of(text, sent),
{
    let len = text.len() as int;
    assert((sent + len) % len == sent % len) by (nonlinear_arith)
        requires
            len > 0,
            sent >= 0,
    ;
}

/// Byte `j` of the fragment is the byte of the endless banner at position
/// `sent + j`: the fragment never runs past the banner's end.
pub proof fn lemma_fragment_is_stream(text: Seq<u8>, sent: int)
    requires
        text.len() > 0,
        sent >= 0,
    ensures
        0 < fragment_of(text, sent).len() <= text.len(),
        fragment_of(text, sent) == stream(text, sent, fragment_of(text, sent).len()),
{
    let len = text.len() as int;
    let off = offset_of(text, sent);
    let frag = fragment_of(text, sent);
    assert(0 <= off < len) by (nonlinear_arith)
        requires
            off == sent % len,
            len > 0,
    ;
    lemma_line_end_closes(text, off);
    assert forall|j: int| 0 <= j < frag.len() implies frag[j] == text[(sent + j) % len] by {
        assert((sent + j) % len == off + j) by (nonlinear_arith)
            requires
                off == sent % len,
                0 <= off + j < len,
                len > 0,
                sent >= 0,
                j >= 0,
        ;
    }
}

/// Whatever part of each fragment the write attempts accept, the peer
/// receives the banner byte for byte, line breaks included, round and round.
pub proof fn lemma_delivered_is_stream(text: Seq<u8>, sent: int, takes: Seq<nat>)
    requires
        text.len() > 0,
        sent >= 0,
        takes_fit(text, sent, takes),
    ensures
        delivered(text, sent, takes) == stream(text, sent, total_taken(takes)),
    decreases takes.len(),
{
    if takes.len() > 0 {
        let first = takes[0];
        let rest = takes.drop_first();
        lemma_fragment_is_stream(text, sent);
        lemma_delivered_is_stream(text, sent + first, rest);
        let head = fragment_of(text, sent).take(first as int);
        let tail = stream(text, sent + first, total_taken(rest));
        assert(head + tail =~= stream(text, sent, total_taken(takes)));
    }
}

} // verus!
