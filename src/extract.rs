//! The search for the compressed block that holds the map: scan for a
//! framed block, deframe and inflate it, check it for the map marker, and
//! move on to the next block until one holds the map.
use vstd::prelude::*;

use crate::container::{extract_zlib_buffer_from_civ6_save, has_block_at, is_block_at};
use crate::error::MapError;
use crate::container::{deframed, lemma_first_match_unique, ZLIB_START, ZLIB_STOP};
use crate::inflate::{inflated, zlib_uncompress};
use crate::map::{decoded_map, find_map_start_index, le_u32, lemma_minimal_map, map_start, TileColor};

verus! {

/// Signature at the start of every save container.
pub const CIV6_MAGIC: [u8; 4] = [0x43, 0x49, 0x56, 0x36];

/// `data` begins with the save-file signature.
pub open spec fn has_magic(data: Seq<u8>) -> bool {
    data.len() >= 4 && data.subrange(0, 4) == CIV6_MAGIC@
}

/// Where the search for the map's block stands.
#[derive(Debug, Clone, Copy, PartialEq, Eq, Structural)]
pub enum RetryState {
    /// The next scan begins at `from`; `tried` tells whether a block has
    /// been tried already.
    Searching { from: usize, tried: bool },
    /// The last block tried holds the map.
    Found,
    /// The search is over without a map.
    Failed(MapError),
}

/// What one scan and its decompression gave.
#[derive(Debug, Clone, Copy, PartialEq, Eq, Structural)]
pub enum ScanEvent {
    /// The scan found no further block.
    NoBlock,
    /// The scan found a block; the next scan resumes at `resume`, and
    /// `has_map` tells whether the inflated block holds the map marker.
    Candidate { resume: usize, has_map: bool },
}

/// The state after `event` in state `state`. Found and failed searches stay
/// as they are.
pub open spec fn retry_next(state: RetryState, event: ScanEvent) -> RetryState {
    match state {
        RetryState::Searching { from, tried } => match event {
            ScanEvent::NoBlock => RetryState::Failed(
                if tried { MapError::NoMapInAnyBlock } else { MapError::NoCompressedBlockFound },
            ),
            ScanEvent::Candidate { resume, has_map } => if has_map {
                RetryState::Found
            } else {
                RetryState::Searching { from: resume, tried: true }
            },
        },
        _ => state,
    }
}

/// Advances the search for the map's block by one event.
pub fn next_retry_state(state: RetryState, event: ScanEvent) -> (r: RetryState)
    ensures
        r == retry_next(state, event),
{
    match state {
        RetryState::Searching { from, tried } => match event {
            ScanEvent::NoBlock => if tried {
                RetryState::Failed(MapError::NoMapInAnyBlock)
            } else {
                RetryState::Failed(MapError::NoCompressedBlockFound)
            },
            ScanEvent::Candidate { resume, has_map } => if has_map {
                RetryState::Found
            } else {
                RetryState::Searching { from: resume, tried: true }
            },
        },
        _ => state,
    }
}

/// What the block whose start and stop markers are at `start` and `stop`
/// inflates to.
pub open spec fn block_output(data: Seq<u8>, start: int, stop: int) -> Seq<u8> {
    inflated(deframed(data.subrange(start + 4, stop + 4)))
}

/// The block found by a scan that begins at `from`.
pub open spec fn block_from(data: Seq<u8>, from: int) -> (int, int) {
    choose|start: int, stop: int| is_block_at(data, from, start, stop)
}

/// The first block, in scan order from `from`, whose inflation holds the
/// map marker. Each scan resumes one past the previous block's start.
pub open spec fn first_map_block(data: Seq<u8>, from: int) -> Option<(int, int)>
    decreases data.len() - from,
{
    if from < 0 || from > data.len() || !has_block_at(data, from) {
        None
    } else {
        let (start, stop) = block_from(data, from);
        if map_start(block_output(data, start, stop)) is Some {
            Some((start, stop))
        } else if from < start + 1 <= data.len() {
            first_map_block(data, start + 1)
        } else {
            None
        }
    }
}

/// What the first block that holds the map inflates to; empty if none does.
pub open spec fn map_block_output(data: Seq<u8>) -> Seq<u8> {
    match first_map_block(data, 0) {
        Some((start, stop)) => block_output(data, start, stop),
        None => Seq::empty(),
    }
}

/// Every block tried in scan order from `from`, up to the first that holds
/// the map, inflates to at most half the address space.
pub open spec fn chain_fits(data: Seq<u8>, from: int) -> bool
    decreases data.len() - from,
{
    if from < 0 || from > data.len() || !has_block_at(data, from) {
        true
    } else {
        let (start, stop) = block_from(data, from);
        &&& block_output(data, start, stop).len() <= usize::MAX / 2
        &&& (map_start(block_output(data, start, stop)) is Some || (from < start + 1 <= data.len()
            && chain_fits(data, start + 1)))
    }
}

proof fn lemma_block_from(data: Seq<u8>, from: int, start: int, stop: int)
    requires
        is_block_at(data, from, start, stop),
    ensures
        has_block_at(data, from),
        block_from(data, from) == (start, stop),
        from < start + 1 <= data.len(),
{
    assert(has_block_at(data, from));
    let (s, e) = block_from(data, from);
    lemma_first_match_unique(data, ZLIB_START@, from, s, start);
    lemma_first_match_unique(data, ZLIB_STOP@, s, e, stop);
    assert(ZLIB_START@.len() == 6);
}

/// A block whose inflation lacks the map marker is passed over for the
/// next block, which is taken when its inflation holds the marker.
pub proof fn lemma_second_block_taken(data: Seq<u8>, s1: int, e1: int, s2: int, e2: int)
    requires
        is_block_at(data, 0, s1, e1),
        map_start(block_output(data, s1, e1)) is None,
        is_block_at(data, s1 + 1, s2, e2),
        map_start(block_output(data, s2, e2)) is Some,
    ensures
        first_map_block(data, 0) == Some((s2, e2)),
        map_block_output(data) == block_output(data, s2, e2),
{
    lemma_block_from(data, 0, s1, e1);
    lemma_block_from(data, s1 + 1, s2, e2);
    assert(first_map_block(data, s1 + 1) == Some((s2, e2)));
}

/// A container whose first block inflates to a map table of 1144 records
/// of zero flag bytes (with the 21 bytes that the last record's flag at
/// offset 75 reaches) yields that block, which decodes to a 44 by 26 map of
/// gray tiles.
pub proof fn lemma_single_block_map(data: Seq<u8>, s: int, e: int, m: int)
    requires
        is_block_at(data, 0, s, e),
        0 <= m,
        map_start(block_output(data, s, e)) == Some(m),
        m + 16 + 1144 * 55 + 21 <= block_output(data, s, e).len(),
        le_u32(block_output(data, s, e), m + 12) == 1144,
        forall|i: int| m + 16 <= i < m + 16 + 1144 * 55 + 21 ==> #[trigger] block_output(data, s, e)[i] == 0,
    ensures
        first_map_block(data, 0) == Some((s, e)),
        map_block_output(data) == block_output(data, s, e),
        decoded_map(map_block_output(data)) == Ok::<(int, int, Seq<TileColor>), MapError>(
            (44, 26, Seq::new(1144, |i: int| TileColor::Gray)),
        ),
{
    lemma_block_from(data, 0, s, e);
    lemma_minimal_map(block_output(data, s, e), m);
}

/// Finds the framed block of a save container that holds the map and
/// leaves it, inflated, in `uncompressed_data`. Blocks are tried in order;
/// one that fails to inflate or lacks the map marker is passed over.
pub fn extract_civ6_map_data(data: &Vec<u8>, uncompressed_data: &mut Vec<u8>) -> (r: Result<(), MapError>)
    ensures
        (r == Err::<(), MapError>(MapError::BadMagic)) <==> !has_magic(data@),
        (r == Err::<(), MapError>(MapError::NoCompressedBlockFound)) <==> (has_magic(data@) && !has_block_at(data@, 0)),
        r == Err::<(), MapError>(MapError::BadMagic) || r == Err::<(), MapError>(MapError::NoCompressedBlockFound)
            ==> final(uncompressed_data)@ == old(uncompressed_data)@,
        chain_fits(data@, 0) ==> (r is Ok <==> has_magic(data@) && first_map_block(data@, 0) is Some),
        chain_fits(data@, 0) ==> (r == Err::<(), MapError>(MapError::NoMapInAnyBlock) <==> (has_magic(data@)
            && has_block_at(data@, 0) && first_map_block(data@, 0) is None)),
        chain_fits(data@, 0) && r is Ok ==> final(uncompressed_data)@ == map_block_output(data@),
        r == Err::<(), MapError>(MapError::NoMapInAnyBlock) ==> has_magic(data@) && has_block_at(data@, 0),
        r is Ok ==> has_magic(data@) && map_start(final(uncompressed_data)@) is Some,
        r is Err ==> r->Err_0 == MapError::BadMagic || r->Err_0 == MapError::NoCompressedBlockFound
            || r->Err_0 == MapError::NoMapInAnyBlock,
{
    let n = data.len();
    let magic = CIV6_MAGIC;
    if n < 4 || data[0] != magic[0] || data[1] != magic[1] || data[2] != magic[2] || data[3] != magic[3] {
        proof {
            if n >= 4 && data@.subrange(0, 4) == CIV6_MAGIC@ {
                assert(data@[0] == data@.subrange(0, 4)[0]);
                assert(data@[1] == data@.subrange(0, 4)[1]);
                assert(data@[2] == data@.subrange(0, 4)[2]);
                assert(data@[3] == data@.subrange(0, 4)[3]);
            }
        }
        return Err(MapError::BadMagic);
    }
    assert(data@.subrange(0, 4) =~= CIV6_MAGIC@);
    let mut compressed: Vec<u8> = Vec::new();
    let mut from: usize = 0;
    let mut tried = false;
    loop
        invariant
            n == data@.len(),
            has_magic(data@),
            from <= n,
            !tried ==> from == 0,
            tried ==> has_block_at(data@, 0),
            !tried ==> uncompressed_data@ == old(uncompressed_data)@,
            chain_fits(data@, 0) ==> chain_fits(data@, from as int),
            chain_fits(data@, 0) ==> first_map_block(data@, 0) == first_map_block(data@, from as int),
        decreases n - from,
    {
        let event = match extract_zlib_buffer_from_civ6_save(data, &mut compressed, from) {
            None => {
                assert(first_map_block(data@, from as int) is None);
                ScanEvent::NoBlock
            },
            Some(next) => {
                let ghost (s, e) = choose|s: int, e: int| #[trigger] is_block_at(data@, from as int, s, e) && next == s + 1
                    && compressed@ == deframed(data@.subrange(s + 4, e + 4));
                proof {
                    lemma_block_from(data@, from as int, s, e);
                    if !tried {
                        assert(is_block_at(data@, 0, s, e));
                    }
                }
                uncompressed_data.clear();
                zlib_uncompress(&compressed, uncompressed_data);
                assert(Seq::<u8>::empty() + inflated(compressed@) =~= inflated(compressed@));
                let has_map = find_map_start_index(uncompressed_data).is_some();
                proof {
                    if chain_fits(data@, from as int) {
                        assert(uncompressed_data@ == block_output(data@, s, e));
                        if !has_map {
                            assert(first_map_block(data@, from as int) == first_map_block(data@, next as int));
                            assert(chain_fits(data@, next as int));
                        } else {
                            assert(first_map_block(data@, from as int) == Some((s, e)));
                        }
                    }
                }
                ScanEvent::Candidate { resume: next, has_map }
            },
        };
        match next_retry_state(RetryState::Searching { from, tried }, event) {
            RetryState::Found => return Ok(()),
            RetryState::Failed(e) => return Err(e),
            RetryState::Searching { from: f, tried: t } => {
                from = f;
                tried = t;
            },
        }
    }
}

} // verus!
