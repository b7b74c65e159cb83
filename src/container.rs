//! Locating framed compressed blocks in a save container and removing the
//! framing bytes that the format interleaves into their payload.
use vstd::prelude::*;

use crate::search::{find_from, has_match_from, is_first_match, matches_at};

verus! {

/// Header bytes that open a zlib stream at the default compression level.
pub const ZLIB_HEADER: [u8; 2] = [0x78, 0x9C];

/// Start of a framed block: four framing bytes, then the zlib header.
pub const ZLIB_START: [u8; 6] = [0x00, 0x00, 0x01, 0x00, 0x78, 0x9C];

/// End of a framed block: a deflate sync-flush marker.
pub const ZLIB_STOP: [u8; 4] = [0x00, 0x00, 0xFF, 0xFF];

/// Payload bytes between two runs of framing bytes.
pub const SEGMENT_LEN: usize = 65536;

/// Framing bytes that follow each full segment.
pub const FRAMING_LEN: usize = 4;

/// The block found by a scan that begins at `from`: the first start marker
/// at or after `from`, and the first stop marker at or after that start.
pub open spec fn is_block_at(buffer: Seq<u8>, from: int, start: int, stop: int) -> bool {
    &&& is_first_match(buffer, ZLIB_START@, from, start)
    &&& is_first_match(buffer, ZLIB_STOP@, start, stop)
}

/// A scan that begins at `from` finds a block.
pub open spec fn has_block_at(buffer: Seq<u8>, from: int) -> bool {
    exists|start: int, stop: int| is_block_at(buffer, from, start, stop)
}

/// A sequence has at most one first match after a given offset.
pub proof fn lemma_first_match_unique(text: Seq<u8>, pattern: Seq<u8>, from: int, i: int, j: int)
    requires
        is_first_match(text, pattern, from, i),
        is_first_match(text, pattern, from, j),
    ensures
        i == j,
{
}

/// Payload of a framed range with the framing bytes after each full
/// segment removed. A trailing run shorter than a segment is kept whole.
pub open spec fn deframed(range: Seq<u8>) -> Seq<u8>
    decreases range.len(),
{
    if range.len() <= SEGMENT_LEN + FRAMING_LEN {
        range.subrange(0, if range.len() < SEGMENT_LEN { range.len() as int } else { SEGMENT_LEN as int })
    } else {
        range.subrange(0, SEGMENT_LEN as int) + deframed(range.subrange((SEGMENT_LEN + FRAMING_LEN) as int, range.len() as int))
    }
}

/// `payload` with `filler` inserted after every full segment that more
/// payload follows.
pub open spec fn framed(payload: Seq<u8>, filler: Seq<u8>) -> Seq<u8>
    decreases payload.len(),
{
    if payload.len() <= SEGMENT_LEN {
        payload
    } else {
        payload.subrange(0, SEGMENT_LEN as int) + filler + framed(payload.subrange(SEGMENT_LEN as int, payload.len() as int), filler)
    }
}

/// Length of the payload of a framed range of `n` bytes.
pub open spec fn deframed_len(n: int) -> int {
    (n / 65540) * 65536 + if n % 65540 < 65536 { n % 65540 } else { 65536 }
}

/// Removing the framing from a payload framed with any four filler bytes
/// gives the payload back.
pub proof fn lemma_deframe_round_trip(payload: Seq<u8>, filler: Seq<u8>)
    requires
        filler.len() == FRAMING_LEN,
    ensures
        deframed(framed(payload, filler)) == payload,
    decreases payload.len(),
{
    if payload.len() <= SEGMENT_LEN {
        assert(payload.subrange(0, payload.len() as int) =~= payload);
    } else {
        let rest = payload.subrange(SEGMENT_LEN as int, payload.len() as int);
        lemma_deframe_round_trip(rest, filler);
        lemma_framed_len(rest, filler);
        let f = framed(payload, filler);
        assert(f.subrange(0, SEGMENT_LEN as int) =~= payload.subrange(0, SEGMENT_LEN as int));
        assert(f.subrange((SEGMENT_LEN + FRAMING_LEN) as int, f.len() as int) =~= framed(rest, filler));
        assert(payload =~= payload.subrange(0, SEGMENT_LEN as int) + rest);
    }
}

proof fn lemma_framed_len(payload: Seq<u8>, filler: Seq<u8>)
    requires
        filler.len() == FRAMING_LEN,
    ensures
        framed(payload, filler).len() >= payload.len(),
        payload.len() > SEGMENT_LEN ==> framed(payload, filler).len() > SEGMENT_LEN + FRAMING_LEN,
    decreases payload.len(),
{
    if payload.len() > SEGMENT_LEN {
        lemma_framed_len(payload.subrange(SEGMENT_LEN as int, payload.len() as int), filler);
    }
}

/// The payload of a framed range is `deframed_len` bytes long.
pub proof fn lemma_deframed_len(range: Seq<u8>)
    ensures
        deframed(range).len() == deframed_len(range.len() as int),
    decreases range.len(),
{
    let n = range.len() as int;
    if n > 65540 {
        let rest = range.subrange(65540, n);
        lemma_deframed_len(rest);
        assert(n / 65540 == (n - 65540) / 65540 + 1 && n % 65540 == (n - 65540) % 65540) by (nonlinear_arith)
            requires n > 65540;
    } else if n == 65540 {
        assert(n / 65540 == 1 && n % 65540 == 0);
    } else {
        assert(n / 65540 == 0 && n % 65540 == n);
    }
}

/// Copies a framed range, dropping the framing bytes after each segment.
pub fn deframe_payload(range: &[u8]) -> (r: Vec<u8>)
    ensures
        r@ == deframed(range@),
        r@.len() == deframed_len(range@.len() as int),
{
    let n = range.len();
    let mut out: Vec<u8> = Vec::new();
    let mut pos: usize = 0;
    assert(range@.subrange(0, n as int) =~= range@);
    assert(out@ + deframed(range@) =~= deframed(range@));
    while pos < n
        invariant
            pos <= n == range@.len(),
            out@ + deframed(range@.subrange(pos as int, n as int)) == deframed(range@),
        decreases n - pos,
    {
        let ghost rest = range@.subrange(pos as int, n as int);
        if n - pos <= SEGMENT_LEN + FRAMING_LEN {
            let end: usize = if n - pos < SEGMENT_LEN { n } else { pos + SEGMENT_LEN };
            let chunk = &range[pos..end];
            assert(chunk@ =~= deframed(rest));
            let ghost prev = out@;
            out.extend_from_slice(chunk);
            assert(out@ =~= prev + chunk@);
            pos = n;
            assert(range@.subrange(pos as int, n as int) =~= Seq::<u8>::empty());
        } else {
            let chunk = &range[pos..pos + SEGMENT_LEN];
            pos = pos + SEGMENT_LEN + FRAMING_LEN;
            assert(rest.subrange((SEGMENT_LEN + FRAMING_LEN) as int, rest.len() as int) =~= range@.subrange(pos as int, n as int));
            assert(chunk@ =~= rest.subrange(0, SEGMENT_LEN as int));
            let ghost prev = out@;
            out.extend_from_slice(chunk);
            assert(out@ =~= prev + chunk@);
            assert(prev + deframed(rest) =~= out@ + deframed(range@.subrange(pos as int, n as int)));
        }
    }
    assert(range@.subrange(n as int, n as int) =~= Seq::<u8>::empty());
    assert(out@ + Seq::<u8>::empty() =~= out@);
    proof { lemma_deframed_len(range@); }
    out
}

/// Scans `buffer` from `start_at_index` for the next framed block: the first
/// start marker at or after that offset, and the first stop marker at or
/// after the start marker. Returns the positions of both markers.
pub fn find_zlib_buffer_indexes(buffer: &Vec<u8>, start_at_index: usize) -> (r: Option<(usize, usize)>)
    ensures
        match r {
            Some((start, stop)) => is_block_at(buffer@, start_at_index as int, start as int, stop as int),
            None => !has_block_at(buffer@, start_at_index as int),
        },
{
    let start_marker = ZLIB_START;
    let stop_marker = ZLIB_STOP;
    match find_from(buffer.as_slice(), start_at_index, &start_marker) {
        Some(start) => match find_from(buffer.as_slice(), start, &stop_marker) {
            Some(stop) => Some((start, stop)),
            None => {
                assert forall|s: int, e: int| !is_block_at(buffer@, start_at_index as int, s, e) by {
                    if is_block_at(buffer@, start_at_index as int, s, e) {
                        lemma_first_match_unique(buffer@, ZLIB_START@, start_at_index as int, s, start as int);
                    }
                }
                None
            },
        },
        None => None,
    }
}

/// Copies the payload of the next framed block at or after `start_at_index`
/// into `output_buffer`, without its framing bytes. The payload runs from
/// the zlib header after the start marker's four framing bytes through the
/// stop marker. Returns the offset one past the block's start marker, where
/// a scan for a further block resumes; with no block, returns `None` and
/// leaves `output_buffer` as it was.
pub fn extract_zlib_buffer_from_civ6_save(
    buffer: &Vec<u8>,
    output_buffer: &mut Vec<u8>,
    start_at_index: usize,
) -> (r: Option<usize>)
    ensures
        match r {
            Some(next) => exists|start: int, stop: int| {
                &&& #[trigger] is_block_at(buffer@, start_at_index as int, start, stop)
                &&& next == start + 1
                &&& final(output_buffer)@ == deframed(buffer@.subrange(start + 4, stop + 4))
            },
            None => {
                &&& !has_block_at(buffer@, start_at_index as int)
                &&& final(output_buffer)@ == old(output_buffer)@
            },
        },
{
    match find_zlib_buffer_indexes(buffer, start_at_index) {
        None => None,
        Some((start, stop)) => {
            let n = buffer.len();
            assert(ZLIB_STOP@.len() == 4);
            assert(matches_at(buffer@, ZLIB_STOP@, stop as int));
            let range = &buffer.as_slice()[start + 4..stop + 4];
            *output_buffer = deframe_payload(range);
            let next = start + 1;
            assert(is_block_at(buffer@, start_at_index as int, start as int, stop as int));
            Some(next)
        },
    }
}

} // verus!
