//! The bus writes of one operation, and the rule by which they are carried out.
//!
//! The driver core performs no bus traffic itself. An operation yields a
//! [`Sequence`] of frames; whoever owns the bus asks the sequence what to do,
//! does it, and reports back what the bus said, until the sequence finishes:
//! it writes the frames in order, stops at the first failure, and hands that
//! failure back unchanged.

use vstd::prelude::*;
use crate::command::I2C_ADDRESS;

verus! {

/// What happened on the bus since the sequence was last asked.
#[derive(Debug)]
pub enum Event<E> {
    /// Nothing yet: the sequence is being started.
    Begin,
    /// The write last asked for went through.
    Written,
    /// The write last asked for failed with this error.
    Failed(E),
}

/// What to do next.
#[derive(Debug)]
pub enum Action<E> {
    /// Write `bytes` to `address`, then report to `rest`.
    Write { address: u8, bytes: Vec<u8>, rest: Sequence },
    /// The operation is over, with this result.
    Finish(Result<(), E>),
}

/// An [`Action`] as a mathematical value.
pub enum Step<E> {
    Write { address: u8, bytes: Seq<u8>, rest: Seq<Seq<u8>> },
    Finish(Result<(), E>),
}

/// One write as the bus sees it.
pub struct Transfer {
    pub address: u8,
    pub bytes: Seq<u8>,
}

/// What the bus saw of one operation, and how the operation ended.
pub struct Trace<E> {
    pub writes: Seq<Transfer>,
    pub result: Result<(), E>,
}

/// The frames still to be written, in order.
#[derive(Debug)]
pub struct Sequence {
    frames: Vec<Vec<u8>>,
}

impl View for Sequence {
    type V = Seq<Seq<u8>>;

    closed spec fn view(&self) -> Seq<Seq<u8>> {
        self.frames@.map_values(|bytes: Vec<u8>| bytes@)
    }
}

impl<E> View for Action<E> {
    type V = Step<E>;

    open spec fn view(&self) -> Step<E> {
        match *self {
            Action::Write { address, bytes, rest } => Step::Write {
                address,
                bytes: bytes@,
                rest: rest@,
            },
            Action::Finish(result) => Step::Finish(result),
        }
    }
}

/// The rule of a sequence: a failure ends it with that failure; otherwise
/// the next frame is written, or, when none is left, it ends in success.
pub open spec fn next_step<E>(pending: Seq<Seq<u8>>, event: Event<E>) -> Step<E> {
    match event {
        Event::Failed(error) => Step::Finish(Err(error)),
        _ => if pending.len() == 0 {
            Step::Finish(Ok(()))
        } else {
            Step::Write { address: I2C_ADDRESS, bytes: pending[0], rest: pending.skip(1) }
        },
    }
}

/// The writes that send `frames`, in order, to the chip.
pub open spec fn transfers(frames: Seq<Seq<u8>>) -> Seq<Transfer> {
    frames.map_values(|bytes: Seq<u8>| Transfer { address: I2C_ADDRESS, bytes })
}

/// The event that reports `outcome` as the outcome of a write.
pub open spec fn event_after<E>(outcome: Result<(), E>) -> Event<E> {
    match outcome {
        Ok(_) => Event::Written,
        Err(error) => Event::Failed(error),
    }
}

/// The course of a sequence that is handed `event` on a bus that answers
/// the writes to come, in order, with `outcomes`.
pub open spec fn trace_from<E>(
    pending: Seq<Seq<u8>>,
    event: Event<E>,
    outcomes: Seq<Result<(), E>>,
) -> Trace<E>
    recommends
        outcomes.len() >= pending.len(),
    decreases pending.len(),
{
    match next_step(pending, event) {
        Step::Finish(result) => Trace { writes: Seq::empty(), result },
        Step::Write { address, bytes, rest } => {
            let later = trace_from(rest, event_after(outcomes.first()), outcomes.drop_first());
            Trace { writes: seq![Transfer { address, bytes }] + later.writes, result: later.result }
        },
    }
}

/// The course of a whole sequence on a bus that answers its writes, in
/// order, with `outcomes`.
pub open spec fn trace<E>(pending: Seq<Seq<u8>>, outcomes: Seq<Result<(), E>>) -> Trace<E>
    recommends
        outcomes.len() >= pending.len(),
{
    trace_from(pending, Event::Begin, outcomes)
}

/// While the bus accepts every write, all frames are written, in order, and
/// the operation succeeds.
pub proof fn lemma_trace_without_failure<E>(pending: Seq<Seq<u8>>, outcomes: Seq<Result<(), E>>)
    requires
        outcomes.len() >= pending.len(),
        forall|k: int| 0 <= k < pending.len() ==> outcomes[k] is Ok,
    ensures
        trace(pending, outcomes) == (Trace::<E> { writes: transfers(pending), result: Ok(()) }),
{
    lemma_trace_from_without_failure(pending, Event::Begin, outcomes);
}

proof fn lemma_trace_from_without_failure<E>(
    pending: Seq<Seq<u8>>,
    event: Event<E>,
    outcomes: Seq<Result<(), E>>,
)
    requires
        !(event is Failed),
        outcomes.len() >= pending.len(),
        forall|k: int| 0 <= k < pending.len() ==> outcomes[k] is Ok,
    ensures
        trace_from(pending, event, outcomes) == (Trace::<E> {
            writes: transfers(pending),
            result: Ok(()),
        }),
    decreases pending.len(),
{
    if pending.len() == 0 {
        assert(transfers(pending) =~= Seq::empty());
    } else {
        let rest = pending.skip(1);
        let later = outcomes.drop_first();
        assert forall|k: int| 0 <= k < rest.len() implies later[k] is Ok by {
            assert(later[k] == outcomes[k + 1]);
        }
        lemma_trace_from_without_failure(rest, event_after(outcomes.first()), later);
        assert(seq![Transfer { address: I2C_ADDRESS, bytes: pending[0] }] + transfers(rest)
            =~= transfers(pending));
    }
}

/// The first write that the bus refuses is the last one attempted, and its
/// error is the result of the operation: after `failed` accepted writes and
/// one refused, the bus has seen the first `failed + 1` frames and no more.
pub proof fn lemma_trace_stops_at_first_failure<E>(
    pending: Seq<Seq<u8>>,
    outcomes: Seq<Result<(), E>>,
    failed: int,
    error: E,
)
    requires
        0 <= failed < pending.len(),
        failed < outcomes.len(),
        forall|k: int| 0 <= k < failed ==> outcomes[k] is Ok,
        outcomes[failed] == Err::<(), E>(error),
    ensures
        trace(pending, outcomes) == (Trace {
            writes: transfers(pending.take(failed + 1)),
            result: Err(error),
        }),
{
    lemma_trace_from_stops_at_first_failure(pending, Event::Begin, outcomes, failed, error);
}

proof fn lemma_trace_from_stops_at_first_failure<E>(
    pending: Seq<Seq<u8>>,
    event: Event<E>,
    outcomes: Seq<Result<(), E>>,
    failed: int,
    error: E,
)
    requires
        !(event is Failed),
        0 <= failed < pending.len(),
        failed < outcomes.len(),
        forall|k: int| 0 <= k < failed ==> outcomes[k] is Ok,
        outcomes[failed] == Err::<(), E>(error),
    ensures
        trace_from(pending, event, outcomes) == (Trace {
            writes: transfers(pending.take(failed + 1)),
            result: Err(error),
        }),
    decreases failed,
{
    let rest = pending.skip(1);
    let later = outcomes.drop_first();
    if failed == 0 {
        assert(trace_from(rest, event_after(outcomes.first()), later) == (Trace {
            writes: Seq::<Transfer>::empty(),
            result: Err::<(), E>(error),
        }));
        assert(seq![Transfer { address: I2C_ADDRESS, bytes: pending[0] }] + Seq::<
            Transfer,
        >::empty() =~= transfers(pending.take(1)));
    } else {
        assert forall|k: int| 0 <= k < failed - 1 implies later[k] is Ok by {
            assert(later[k] == outcomes[k + 1]);
        }
        assert(later[failed - 1] == outcomes[failed]);
        assert(outcomes.first() is Ok);
        lemma_trace_from_stops_at_first_failure(
            rest,
            event_after(outcomes.first()),
            later,
            failed - 1,
            error,
        );
        assert(seq![Transfer { address: I2C_ADDRESS, bytes: pending[0] }] + transfers(
            rest.take(failed),
        ) =~= transfers(pending.take(failed + 1)));
    }
}

impl<E> Event<E> {
    /// The event that reports the outcome of a write.
    pub fn after(outcome: Result<(), E>) -> (r: Self)
        ensures
            r == event_after(outcome),
    {
        match outcome {
            Ok(_) => Event::Written,
            Err(error) => Event::Failed(error),
        }
    }
}

impl Sequence {
    /// A sequence that writes `frames` in order.
    pub fn new(frames: Vec<Vec<u8>>) -> (r: Self)
        ensures
            r@ == frames@.map_values(|bytes: Vec<u8>| bytes@),
    {
        Sequence { frames }
    }

    /// Takes note of `event` and says what to do next.
    pub fn step<E>(self, event: Event<E>) -> (r: Action<E>)
        ensures
            r@ == next_step(self@, event),
    {
        let ghost pending = self@;
        let mut frames = self.frames;
        match event {
            Event::Failed(error) => Action::Finish(Err(error)),
            _ => {
                if frames.len() == 0 {
                    Action::Finish(Ok(()))
                } else {
                    let bytes = frames.remove(0);
                    let rest = Sequence { frames };
                    assert(rest@ =~= pending.skip(1));
                    Action::Write { address: I2C_ADDRESS, bytes, rest }
                }
            },
        }
    }
}

} // verus!
