//! Incremental zlib decompression of a deframed block, backed by `flate2`.
use vstd::prelude::*;

use flate2::{Decompress, FlushDecompress, Status};

verus! {

#[verifier::external_type_specification]
#[verifier::external_body]
pub struct ExDecompress(flate2::Decompress);

/// The bytes that a zlib inflater (header expected, sync flush) hands out
/// when fed all of `c`, up to the stream's end or its first error.
pub uninterp spec fn inflated(c: Seq<u8>) -> Seq<u8>;

/// `a` is a prefix of `b`.
pub open spec fn is_prefix(a: Seq<u8>, b: Seq<u8>) -> bool {
    a.len() <= b.len() && b.subrange(0, a.len() as int) == a
}

/// Outcome of one decompression step.
#[derive(Debug, Clone, Copy, PartialEq, Eq, Structural)]
pub enum StepStatus {
    /// Progress was made; more input may follow.
    Progress,
    /// No progress was possible.
    Stalled,
    /// The compressed stream ended.
    StreamEnd,
    /// The input is not a valid zlib stream.
    Corrupt,
}

/// A zlib decompressor, with the input it has consumed and the output it
/// has handed out so far.
pub struct Inflater {
    decompressor: Decompress,
    fed: Ghost<Seq<u8>>,
    produced: Ghost<Seq<u8>>,
    failed: Ghost<bool>,
}

impl Inflater {
    /// Input bytes consumed so far.
    pub closed spec fn fed(&self) -> Seq<u8> {
        self.fed@
    }

    /// Output bytes handed out so far.
    pub closed spec fn produced(&self) -> Seq<u8> {
        self.produced@
    }

    /// Whether a step has reported an error.
    pub closed spec fn failed(&self) -> bool {
        self.failed@
    }

    /// A decompressor that has consumed nothing.
    pub fn new() -> (r: Inflater)
        ensures
            r.fed() == Seq::<u8>::empty(),
            r.produced() == Seq::<u8>::empty(),
            !r.failed(),
    {
        Inflater {
            decompressor: new_decompressor(),
            fed: Ghost(Seq::empty()),
            produced: Ghost(Seq::empty()),
            failed: Ghost(false),
        }
    }
}

/// Relies on flate2::Decompress::new: a decompressor expecting a zlib header.
#[verifier::external_body]
fn new_decompressor() -> (r: Decompress) {
    Decompress::new(true)
}

/// Relies on flate2::Decompress::total_in: the count of input bytes that the
/// decompressor has consumed over all its steps.
#[verifier::external_body]
fn consumed_input(inf: &Inflater) -> (r: u64)
    ensures
        r == inf.fed().len(),
{
    inf.decompressor.total_in()
}

/// Relies on flate2::Decompress::total_out: the count of output bytes that
/// the decompressor has handed out over all its steps.
#[verifier::external_body]
fn produced_output(inf: &Inflater) -> (r: u64)
    ensures
        r == inf.produced().len(),
{
    inf.decompressor.total_out()
}

/// Relies on flate2::Decompress::decompress with a sync flush (miniz_oxide's
/// `inflate`). A step consumes a prefix of `input` and writes the next
/// decoded bytes to the front of `chunk`. What the decompressor hands out is
/// always a prefix of the inflation of what it consumed, and inflating more
/// input only extends it. It has handed out all of the inflation, which no
/// further input changes, when it reports the stream's end, and when it
/// reports its first error with room left in `chunk`. flate2's `BufError`
/// (`Stalled`) comes only when `input` is empty, since a sync flush never
/// asks to finish; with room left, everything decodable was handed out.
/// A step that reports progress into a non-empty `chunk` consumed input or
/// handed out output.
#[verifier::external_body]
fn decompress_step(inf: &mut Inflater, input: &[u8], chunk: &mut Vec<u8>) -> (r: StepStatus)
    ensures
        final(chunk)@.len() == old(chunk)@.len(),
        old(inf).fed().len() <= final(inf).fed().len() <= old(inf).fed().len() + input@.len(),
        final(inf).fed() == old(inf).fed() + input@.subrange(
            0,
            final(inf).fed().len() - old(inf).fed().len(),
        ),
        old(inf).produced().len() <= final(inf).produced().len() <= old(inf).produced().len() + old(chunk)@.len(),
        final(inf).produced() == old(inf).produced() + final(chunk)@.subrange(
            0,
            final(inf).produced().len() - old(inf).produced().len(),
        ),
        final(inf).failed() == (old(inf).failed() || r == StepStatus::Corrupt),
        is_prefix(final(inf).produced(), inflated(final(inf).fed())),
        forall|more: Seq<u8>| is_prefix(inflated(final(inf).fed()), #[trigger] inflated(final(inf).fed() + more)),
        r == StepStatus::StreamEnd || (r == StepStatus::Corrupt && !old(inf).failed() && final(inf).produced().len()
            < old(inf).produced().len() + old(chunk)@.len()) ==> {
            &&& final(inf).produced() == inflated(final(inf).fed())
            &&& forall|more: Seq<u8>| #[trigger] inflated(final(inf).fed() + more) == inflated(final(inf).fed())
        },
        r == StepStatus::Stalled ==> input@.len() == 0,
        r == StepStatus::Stalled && final(inf).produced().len() < old(inf).produced().len() + old(chunk)@.len()
            ==> final(inf).produced() == inflated(final(inf).fed()),
        r == StepStatus::Progress && old(chunk)@.len() > 0 ==> final(inf).fed().len() > old(inf).fed().len()
            || final(inf).produced().len() > old(inf).produced().len(),
{
    match inf.decompressor.decompress(input, chunk.as_mut_slice(), FlushDecompress::Sync) {
        Ok(Status::Ok) => StepStatus::Progress,
        Ok(Status::BufError) => StepStatus::Stalled,
        Ok(Status::StreamEnd) => StepStatus::StreamEnd,
        Err(_) => StepStatus::Corrupt,
    }
}

/// Output room given to each step at first.
pub const STEP_OUTPUT: usize = 65536;

/// Inflates `c` with a fresh decompressor, step by step from the first byte
/// not yet consumed, with `room` bytes of output per step, and flushes what
/// is pending once all input is consumed. `None` when a step filled its room
/// as it ended the run, which only happens while the inflation is at least
/// `room` bytes long.
fn inflate_steps(c: &Vec<u8>, room: usize) -> (r: Option<Vec<u8>>)
    requires
        room > 0,
    ensures
        match r {
            Some(v) => v@ == inflated(c@),
            None => room <= inflated(c@).len(),
        },
{
    let n = c.len();
    let mut inf = Inflater::new();
    let mut chunk: Vec<u8> = vec![0u8; room];
    let mut out: Vec<u8> = Vec::new();
    let mut consumed: usize = 0;
    assert(c@.subrange(0, 0) =~= Seq::<u8>::empty());
    assert(inflated(c@).subrange(0, 0) =~= Seq::<u8>::empty());
    loop
        invariant
            n == c@.len(),
            chunk@.len() == room,
            room > 0,
            consumed <= n,
            inf.fed() == c@.subrange(0, consumed as int),
            out@ == inf.produced(),
            !inf.failed(),
            is_prefix(inf.produced(), inflated(c@)),
        decreases (n - consumed) + (inflated(c@).len() - out@.len()),
    {
        let ghost fed0 = inf.fed();
        let ghost out0 = inf.produced();
        let status = decompress_step(&mut inf, &c.as_slice()[consumed..n], &mut chunk);
        let now_in = consumed_input(&inf) as usize;
        let delta = (produced_output(&inf) - out.len() as u64) as usize;
        let ghost before = out@;
        out.extend_from_slice(&chunk.as_slice()[0..delta]);
        proof {
            assert(out@ =~= before + chunk@.subrange(0, delta as int));
            let tail = c@.subrange(consumed as int, n as int);
            let k = inf.fed().len() - fed0.len();
            assert(tail.subrange(0, k) =~= c@.subrange(consumed as int, consumed + k));
            assert(inf.fed() =~= c@.subrange(0, now_in as int));
            let more = c@.subrange(now_in as int, n as int);
            assert(inf.fed() + more =~= c@);
            let whole = inflated(c@);
            let part = inflated(inf.fed());
            let p = inf.produced();
            assert(is_prefix(part, inflated(inf.fed() + more)));
            assert(whole.subrange(0, p.len() as int) =~= part.subrange(0, p.len() as int));
        }
        if status == StepStatus::StreamEnd || (status == StepStatus::Corrupt && delta < room) {
            proof {
                let more = c@.subrange(now_in as int, n as int);
                assert(inflated(inf.fed() + more) == inflated(inf.fed()));
            }
            return Some(out);
        }
        if status == StepStatus::Corrupt || (status == StepStatus::Stalled && delta == room) {
            return None;
        }
        if status == StepStatus::Stalled {
            proof {
                assert(consumed == n);
                assert(inf.fed() =~= c@);
            }
            return Some(out);
        }
        consumed = now_in;
    }
}

/// Decompresses `compressed_data` and appends its inflation to
/// `output_buffer`. The stream is fed step by step from the first byte not
/// yet consumed, to get through a run of sync-flushed blocks; a corrupt
/// stream keeps what was decoded before the error. Where a step filled its
/// output room as it ended the run (bytes decoded in the call that reports an
/// error but do not fit are dropped), the stream is inflated again with
/// twice the room. Only an inflation longer than half the address space
/// leaves the buffer as it was.
pub fn zlib_uncompress(compressed_data: &Vec<u8>, output_buffer: &mut Vec<u8>)
    ensures
        final(output_buffer)@ == old(output_buffer)@ + inflated(compressed_data@)
            || (final(output_buffer)@ == old(output_buffer)@ && inflated(compressed_data@).len() > usize::MAX / 2),
{
    let mut room: usize = STEP_OUTPUT;
    loop
        invariant
            room > 0,
            *output_buffer == *old(output_buffer),
        decreases if room as int <= inflated(compressed_data@).len() + 1 {
            inflated(compressed_data@).len() + 1 - room as int
        } else {
            0int
        },
    {
        match inflate_steps(compressed_data, room) {
            Some(whole) => {
                let ghost before = output_buffer@;
                output_buffer.extend_from_slice(whole.as_slice());
                assert(output_buffer@ =~= before + inflated(compressed_data@));
                return;
            },
            None => {
                if room > usize::MAX / 2 {
                    return;
                }
                room = room * 2;
            },
        }
    }
}

} // verus!
