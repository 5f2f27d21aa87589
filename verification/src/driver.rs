//! The driver: each operation of the chip as the bus writes that carry it out.

use vstd::prelude::*;
use crate::command::{
    frame, framed, mask_groups, split_mask, CHANNELS, CMD_ENABLE_LEDS, CMD_ENABLE_OUTPUT,
    CMD_RESET, CMD_SET_PWM_VALUES, CMD_UPDATE,
};
use crate::gamma::{gamma_level, gamma_levels, GammaTable};
use crate::sequence::{
    lemma_trace_stops_at_first_failure, lemma_trace_without_failure, trace, transfers, Sequence,
    Trace, Transfer,
};

verus! {

/// Why an operation was refused before anything was written.
#[derive(Debug, Clone, Copy, PartialEq, Eq, Structural)]
pub enum Error {
    /// The number of levels given is not the number of channels.
    InvalidArgument,
}

/// The writes that switch the output stage on.
pub open spec fn enable_writes() -> Seq<Seq<u8>> {
    seq![framed(CMD_ENABLE_OUTPUT, seq![0x01u8])]
}

/// The writes that switch the output stage off.
pub open spec fn disable_writes() -> Seq<Seq<u8>> {
    seq![framed(CMD_ENABLE_OUTPUT, seq![0x00u8])]
}

/// The writes that reset the chip.
pub open spec fn reset_writes() -> Seq<Seq<u8>> {
    seq![framed(CMD_RESET, seq![0xFFu8])]
}

/// The writes that put a staged frame into effect: the frame itself, then
/// the update command.
pub open spec fn committed(staged: Seq<u8>) -> Seq<Seq<u8>> {
    seq![staged, framed(CMD_UPDATE, seq![0xFFu8])]
}

/// The writes that make the channels of `mask` the active ones.
pub open spec fn enable_leds_writes(mask: u32) -> Seq<Seq<u8>> {
    committed(framed(CMD_ENABLE_LEDS, mask_groups(mask)))
}

/// The writes that set the channels to the raw intensities `values`, each
/// sent as its gamma level.
pub open spec fn output_writes(values: Seq<u8>) -> Seq<Seq<u8>> {
    committed(framed(CMD_SET_PWM_VALUES, values.map_values(|raw: u8| gamma_level(raw))))
}

/// Switching the output on writes the same single frame every time,
/// whatever the bus answered before.
pub proof fn lemma_enable_repeats<E>(first: Seq<Result<(), E>>, second: Seq<Result<(), E>>)
    requires
        first.len() >= 1,
        second.len() >= 1,
    ensures
        trace(enable_writes(), first).writes == seq![
            Transfer { address: 0x54, bytes: seq![0x00u8, 0x01u8] },
        ],
        trace(enable_writes(), second).writes == trace(enable_writes(), first).writes,
        trace(enable_writes(), first).result == first[0],
        trace(enable_writes(), second).result == second[0],
{
    lemma_trace_of_single_write(framed(CMD_ENABLE_OUTPUT, seq![0x01u8]), first);
    lemma_trace_of_single_write(framed(CMD_ENABLE_OUTPUT, seq![0x01u8]), second);
    assert(framed(CMD_ENABLE_OUTPUT, seq![0x01u8]) =~= seq![0x00u8, 0x01u8]);
    assert(transfers(enable_writes()) =~= seq![
        Transfer { address: 0x54, bytes: seq![0x00u8, 0x01u8] },
    ]);
}

/// An operation of one frame writes that frame once, and its result is
/// what the bus answered.
pub proof fn lemma_trace_of_single_write<E>(bytes: Seq<u8>, outcomes: Seq<Result<(), E>>)
    requires
        outcomes.len() >= 1,
    ensures
        trace(seq![bytes], outcomes) == (Trace {
            writes: transfers(seq![bytes]),
            result: outcomes[0],
        }),
{
    match outcomes[0] {
        Ok(unit) => {
            assert(unit == ());
            lemma_trace_without_failure(seq![bytes], outcomes);
        },
        Err(error) => {
            lemma_trace_stops_at_first_failure(seq![bytes], outcomes, 0, error);
            assert(seq![bytes].take(1) =~= seq![bytes]);
        },
    }
}

/// Where the bus refuses the staged frame, the update is not written, and
/// the operation fails with the error of that refusal.
pub proof fn lemma_refused_staging_is_not_committed<E>(
    staged: Seq<u8>,
    outcomes: Seq<Result<(), E>>,
    error: E,
)
    requires
        outcomes.len() >= 1,
        outcomes[0] == Err::<(), E>(error),
    ensures
        trace(committed(staged), outcomes) == (Trace {
            writes: transfers(seq![staged]),
            result: Err(error),
        }),
{
    lemma_trace_stops_at_first_failure(committed(staged), outcomes, 0, error);
    assert(committed(staged).take(1) =~= seq![staged]);
}

/// Where the bus accepts the staged frame, the update is written next, and
/// the result of the operation is what the bus answered to the update.
pub proof fn lemma_accepted_staging_is_committed<E>(staged: Seq<u8>, outcomes: Seq<Result<(), E>>)
    requires
        outcomes.len() >= 2,
        outcomes[0] is Ok,
    ensures
        trace(committed(staged), outcomes) == (Trace {
            writes: transfers(committed(staged)),
            result: outcomes[1],
        }),
{
    match outcomes[1] {
        Ok(unit) => {
            assert(unit == ());
            lemma_trace_without_failure(committed(staged), outcomes);
        },
        Err(error) => {
            lemma_trace_stops_at_first_failure(committed(staged), outcomes, 1, error);
            assert(committed(staged).take(2) =~= committed(staged));
        },
    }
}

/// The SN3218: 18 constant-current LED channels behind a two-wire bus.
pub struct SN3218 {
    gamma_table: GammaTable,
}

impl SN3218 {
    /// The gamma table that this driver corrects intensities with.
    pub closed spec fn gamma(&self) -> Seq<u8> {
        self.gamma_table@
    }

    /// A driver with its gamma table computed. Nothing is written.
    pub fn new() -> (r: Self)
        ensures
            r.gamma() == gamma_levels(),
    {
        SN3218 { gamma_table: GammaTable::new() }
    }

    /// The gamma table.
    pub fn gamma_table(&self) -> (r: &GammaTable)
        ensures
            r@ == self.gamma(),
    {
        &self.gamma_table
    }

    /// Switches the output stage on.
    pub fn enable(&self) -> (r: Sequence)
        ensures
            r@ == enable_writes(),
    {
        single(CMD_ENABLE_OUTPUT, 0x01)
    }

    /// Switches the output stage off.
    pub fn disable(&self) -> (r: Sequence)
        ensures
            r@ == disable_writes(),
    {
        single(CMD_ENABLE_OUTPUT, 0x00)
    }

    /// Returns the chip to its power-on state.
    pub fn reset(&self) -> (r: Sequence)
        ensures
            r@ == reset_writes(),
    {
        single(CMD_RESET, 0xFF)
    }

    /// Makes the channels whose bits are set in `mask` the active ones.
    /// Bits above the 18 channels are ignored.
    pub fn enable_leds(&self, mask: u32) -> (r: Sequence)
        ensures
            r@ == enable_leds_writes(mask),
    {
        let groups = split_mask(mask);
        commit(frame(CMD_ENABLE_LEDS, groups.as_slice()))
    }

    /// Sets the 18 channels to the raw intensities `values`, each sent as
    /// its gamma level.
    pub fn output(&self, values: &[u8]) -> (r: Result<Sequence, Error>)
        ensures
            values@.len() == CHANNELS ==> r is Ok && r->Ok_0@ == output_writes(values@),
            values@.len() != CHANNELS ==> r == Err::<Sequence, Error>(Error::InvalidArgument),
    {
        if values.len() != CHANNELS {
            return Err(Error::InvalidArgument);
        }
        let mut levels: Vec<u8> = Vec::new();
        let mut i: usize = 0;
        while i < CHANNELS
            invariant
                i <= CHANNELS,
                values@.len() == CHANNELS,
                levels@ == values@.take(i as int).map_values(|raw: u8| gamma_level(raw)),
            decreases CHANNELS - i,
        {
            levels.push(self.gamma_table.level(values[i]));
            i += 1;
            assert(levels@ =~= values@.take(i as int).map_values(|raw: u8| gamma_level(raw)));
        }
        assert(values@.take(i as int) =~= values@);
        Ok(commit(frame(CMD_SET_PWM_VALUES, levels.as_slice())))
    }
}

/// The sequence of the one frame that carries `value` under `command`.
fn single(command: u8, value: u8) -> (r: Sequence)
    ensures
        r@ == seq![framed(command, seq![value])],
{
    let payload: [u8; 1] = [value];
    assert(payload@ =~= seq![value]);
    let mut frames: Vec<Vec<u8>> = Vec::new();
    frames.push(frame(command, payload.as_slice()));
    let sequence = Sequence::new(frames);
    assert(sequence@ =~= seq![framed(command, seq![value])]);
    sequence
}

/// The sequence that writes `staged` and then puts it into effect.
fn commit(staged: Vec<u8>) -> (r: Sequence)
    ensures
        r@ == committed(staged@),
{
    let payload: [u8; 1] = [0xFF];
    assert(payload@ =~= seq![0xFFu8]);
    let ghost first = staged@;
    let mut frames: Vec<Vec<u8>> = Vec::new();
    frames.push(staged);
    frames.push(frame(CMD_UPDATE, payload.as_slice()));
    let sequence = Sequence::new(frames);
    assert(sequence@ =~= committed(first));
    sequence
}

} // verus!
