//! The acquisition loop, one turn at a time: what to do with the outcome of
//! one read from the line. The caller owns the line; it reads, hands the
//! outcome in, and does what comes back.
use vstd::prelude::*;
use crate::decoder::{parse_code, telegram_value, DecodeError, DecodedValue};
use crate::framer::{feed_step, Framer, CR, LF};

verus! {

/// What the caller does after a read.
#[derive(Debug, Clone, Copy, PartialEq, Eq, Structural)]
pub enum Action {
    /// No telegram is complete yet: read again.
    Continue,
    /// A telegram was decoded: hand the value on, and read again.
    Deliver(DecodedValue),
    /// A telegram could not be decoded: report it, and read again.
    Report(DecodeError),
    /// The line failed or ended: stop for good.
    Stop,
}

/// The action that follows a decoded or undecoded telegram.
pub open spec fn action_of(value: Result<DecodedValue, DecodeError>) -> Action {
    match value {
        Ok(v) => Action::Deliver(v),
        Err(e) => Action::Report(e),
    }
}

/// Whether a read ends the loop: it failed (`None`) or brought no bytes.
pub open spec fn ends_stream(read: Option<Seq<u8>>) -> bool {
    match read {
        None => true,
        Some(chunk) => chunk.len() == 0,
    }
}

/// One turn of the loop, as mathematics: the bytes pending and the outcome
/// of a read give the bytes pending afterwards and the action. A read that
/// ends the stream changes nothing.
pub open spec fn step_spec(pending: Seq<u8>, read: Option<Seq<u8>>) -> (Seq<u8>, Action) {
    match read {
        Some(chunk) if chunk.len() > 0 => {
            let (rest, telegram) = feed_step(pending, chunk);
            match telegram {
                Some(t) => (rest, action_of(telegram_value(t))),
                None => (rest, Action::Continue),
            }
        },
        _ => (pending, Action::Stop),
    }
}

/// Everything that the loop hands on or reports, in order, when the reads
/// come out as `reads` say. Nothing follows the first read that ends the
/// stream.
pub open spec fn results(
    pending: Seq<u8>,
    reads: Seq<Option<Seq<u8>>>,
) -> Seq<Result<DecodedValue, DecodeError>>
    decreases reads.len(),
{
    if reads.len() == 0 {
        Seq::empty()
    } else {
        let (rest, action) = step_spec(pending, reads[0]);
        match action {
            Action::Stop => Seq::empty(),
            Action::Continue => results(rest, reads.drop_first()),
            Action::Deliver(v) => seq![Ok(v)] + results(rest, reads.drop_first()),
            Action::Report(e) => seq![Err(e)] + results(rest, reads.drop_first()),
        }
    }
}

/// The bytes pending when the loop has taken `reads`, or has stopped at the
/// first of them that ends the stream.
pub open spec fn pending_after(pending: Seq<u8>, reads: Seq<Option<Seq<u8>>>) -> Seq<u8>
    decreases reads.len(),
{
    if reads.len() == 0 {
        pending
    } else {
        let (rest, action) = step_spec(pending, reads[0]);
        if action == Action::Stop {
            pending
        } else {
            pending_after(rest, reads.drop_first())
        }
    }
}

/// The outcomes of a recorded run of reads, each by its bytes.
pub open spec fn reads_view(reads: Seq<Option<Vec<u8>>>) -> Seq<Option<Seq<u8>>> {
    Seq::new(
        reads.len(),
        |i: int|
            match reads[i] {
                Some(chunk) => Some(chunk@),
                None => None,
            },
    )
}

/// The bytes of a read that may have failed.
pub open spec fn read_view(read: Option<&[u8]>) -> Option<Seq<u8>> {
    match read {
        Some(chunk) => Some(chunk@),
        None => None,
    }
}

/// Takes one turn of the loop. `read` is `None` where the read failed, and
/// else the bytes that it brought. A failed or empty read leaves the framer
/// as it is and gives `Stop`; bytes are fed to the framer, and a telegram
/// that they complete is split and decoded on the spot.
pub fn step(framer: &mut Framer, read: Option<&[u8]>) -> (action: Action)
    ensures
        (final(framer)@, action) == step_spec(old(framer)@, read_view(read)),
        old(framer).inv() ==> final(framer).inv(),
{
    match read {
        None => Action::Stop,
        Some(chunk) => {
            if chunk.len() == 0 {
                return Action::Stop;
            }
            match framer.feed(chunk) {
                None => Action::Continue,
                Some(telegram) => match parse_code(telegram.as_slice()) {
                    Ok(v) => Action::Deliver(v),
                    Err(e) => Action::Report(e),
                },
            }
        },
    }
}

/// Runs the loop over a recorded run of reads, `None` standing for a read
/// that failed, and collects what the loop would hand on or report. The run
/// ends at the first read that ends the stream; the reads after it are not
/// looked at.
pub fn replay(
    framer: &mut Framer,
    reads: &Vec<Option<Vec<u8>>>,
) -> (out: Vec<Result<DecodedValue, DecodeError>>)
    ensures
        out@ == results(old(framer)@, reads_view(reads@)),
        final(framer)@ == pending_after(old(framer)@, reads_view(reads@)),
        old(framer).inv() ==> final(framer).inv(),
{
    let mut out: Vec<Result<DecodedValue, DecodeError>> = Vec::new();
    let ghost all = reads_view(reads@);
    let mut i: usize = 0;
    assert(all.skip(0) =~= all);
    assert(out@ + results(framer@, all) =~= results(framer@, all));
    while i < reads.len()
        invariant
            i <= reads.len(),
            all == reads_view(reads@),
            results(old(framer)@, all) == out@ + results(framer@, all.skip(i as int)),
            pending_after(old(framer)@, all) == pending_after(framer@, all.skip(i as int)),
            old(framer).inv() ==> framer.inv(),
        decreases reads.len() - i,
    {
        let ghost left = all.skip(i as int);
        let ghost before = out@;
        let ghost pending = framer@;
        let read: Option<&[u8]> = match &reads[i] {
            Some(chunk) => Some(chunk.as_slice()),
            None => None,
        };
        assert(left[0] == read_view(read));
        assert(left.drop_first() =~= all.skip(i + 1));
        match step(framer, read) {
            Action::Stop => {
                assert(before + results(pending, left) =~= before);
                return out;
            },
            Action::Continue => {},
            Action::Deliver(v) => {
                out.push(Ok(v));
                assert(before + results(pending, left) =~= out@ + results(
                    framer@,
                    left.drop_first(),
                ));
            },
            Action::Report(e) => {
                out.push(Err(e));
                assert(before + results(pending, left) =~= out@ + results(
                    framer@,
                    left.drop_first(),
                ));
            },
        }
        i += 1;
    }
    assert(out@ + results(framer@, all.skip(i as int)) =~= out@);
    out
}

/// The request that wakes the meter up, `/?!` and the terminator, to be
/// written to the line once before the first read.
pub fn wake_up_request() -> (bytes: Vec<u8>)
    ensures
        bytes@ == seq![0x2fu8, 0x3f, 0x21, CR, LF],
{
    vec![0x2fu8, 0x3f, 0x21, CR, LF]
}

/// A read that ends the stream ends the results: what came of the reads
/// before it is all there is, unchanged and once, whatever is read later.
pub proof fn lemma_stop_keeps_results(
    pending: Seq<u8>,
    before: Seq<Option<Seq<u8>>>,
    last: Option<Seq<u8>>,
    after: Seq<Option<Seq<u8>>>,
)
    requires
        ends_stream(last),
    ensures
        results(pending, before + seq![last] + after) == results(pending, before),
    decreases before.len(),
{
    let all = before + seq![last] + after;
    if before.len() == 0 {
        assert(all[0] == last);
        assert(results(pending, before) =~= Seq::empty());
    } else {
        assert(all[0] == before[0]);
        assert(all.drop_first() =~= before.drop_first() + seq![last] + after);
        let (rest, action) = step_spec(pending, before[0]);
        lemma_stop_keeps_results(rest, before.drop_first(), last, after);
    }
}

/// The results of a run grow with the reads: the results of more reads
/// begin with the results of fewer.
pub proof fn lemma_results_extend(
    pending: Seq<u8>,
    before: Seq<Option<Seq<u8>>>,
    after: Seq<Option<Seq<u8>>>,
)
    ensures
        results(pending, before).is_prefix_of(results(pending, before + after)),
    decreases before.len(),
{
    let all = before + after;
    if before.len() == 0 {
    } else {
        assert(all[0] == before[0]);
        assert(all.drop_first() =~= before.drop_first() + after);
        let (rest, action) = step_spec(pending, before[0]);
        lemma_results_extend(rest, before.drop_first(), after);
        let a = results(rest, before.drop_first());
        let b = results(rest, all.drop_first());
        match action {
            Action::Deliver(v) => {
                assert((seq![Ok::<DecodedValue, DecodeError>(v)] + a).is_prefix_of(
                    seq![Ok::<DecodedValue, DecodeError>(v)] + b,
                ));
            },
            Action::Report(e) => {
                assert((seq![Err::<DecodedValue, DecodeError>(e)] + a).is_prefix_of(
                    seq![Err::<DecodedValue, DecodeError>(e)] + b,
                ));
            },
            _ => {},
        }
    }
}

} // verus!
