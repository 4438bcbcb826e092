//! Commands that wait for their moment.

use std::collections::VecDeque;

use vstd::prelude::*;

use crate::api::{Command, FrameTime, LooperCommand, LooperMode, QuantizationMode};
use crate::looper::Looper;

verus! {

/// What a command waits for.
#[derive(Clone, Copy, Debug, PartialEq, Eq, Structural)]
pub enum TriggerCondition {
    Immediate,
    Beat,
    Measure,
    Loop,
}

/// A command and the time at which it is to run.
#[derive(Debug, PartialEq, Eq)]
pub struct Trigger {
    pub triggered_at: FrameTime,
    pub command: Command,
}

/// The times that the two kinds of waiting lead to, counted from the moment at
/// which a command arrives.
#[derive(Clone, Copy, Debug, PartialEq, Eq, Structural)]
pub struct TriggerTimes {
    /// Without waiting.
    pub immediate: FrameTime,
    /// At the next beat, measure or loop, as the quantization mode has it.
    pub quantized: FrameTime,
}

impl TriggerTimes {
    /// The time that a condition leads to.
    pub open spec fn at(self, condition: TriggerCondition) -> FrameTime {
        match condition {
            TriggerCondition::Immediate => self.immediate,
            _ => self.quantized,
        }
    }

    /// The time that a condition leads to.
    pub fn time_for(&self, condition: TriggerCondition) -> (r: FrameTime)
        ensures
            r == self.at(condition),
    {
        match condition {
            TriggerCondition::Immediate => self.immediate,
            _ => self.quantized,
        }
    }
}

/// The condition that a quantization mode stands for.
pub open spec fn mode_condition(mode: QuantizationMode) -> TriggerCondition {
    match mode {
        QuantizationMode::Free => TriggerCondition::Immediate,
        QuantizationMode::Beat => TriggerCondition::Beat,
        QuantizationMode::Measure => TriggerCondition::Measure,
        QuantizationMode::Loop => TriggerCondition::Loop,
    }
}

/// The condition that a quantization mode stands for.
pub fn condition_for_mode(mode: QuantizationMode) -> (r: TriggerCondition)
    ensures
        r == mode_condition(mode),
{
    match mode {
        QuantizationMode::Free => TriggerCondition::Immediate,
        QuantizationMode::Beat => TriggerCondition::Beat,
        QuantizationMode::Measure => TriggerCondition::Measure,
        QuantizationMode::Loop => TriggerCondition::Loop,
    }
}

/// Whether a command moves a looper on in its cycle of modes.
pub open spec fn cycles(command: LooperCommand) -> bool {
    command == LooperCommand::RecordOverdubPlay || command == LooperCommand::RecordPlayOverdub
}

/// What a looper command waits for; nothing where it applies at once.
///
/// Level and pan apply at once. What starts or ends a recording waits as the
/// quantization mode has it. Moving on a looper that already holds a loop is
/// queued without waiting.
pub open spec fn awaited(
    sync_mode: QuantizationMode,
    command: LooperCommand,
    looper: Looper,
) -> Option<TriggerCondition> {
    if command is SetLevel || command is SetPan {
        None
    } else if command == LooperCommand::Record || looper.mode == LooperMode::Recording
        || looper.mode == LooperMode::Overdubbing || (cycles(command) && looper.length == 0) {
        Some(mode_condition(sync_mode))
    } else if cycles(command) {
        Some(TriggerCondition::Immediate)
    } else {
        None
    }
}

/// Decides what a looper command waits for.
pub fn trigger_from_command(
    sync_mode: QuantizationMode,
    command: LooperCommand,
    looper: &Looper,
) -> (r: Option<TriggerCondition>)
    ensures
        r == awaited(sync_mode, command, *looper),
{
    let condition = condition_for_mode(sync_mode);
    match command {
        LooperCommand::SetLevel(_) => None,
        LooperCommand::SetPan(_) => None,
        LooperCommand::Record => Some(condition),
        LooperCommand::RecordOverdubPlay | LooperCommand::RecordPlayOverdub => {
            if looper.mode == LooperMode::Recording || looper.length == 0 || looper.mode
                == LooperMode::Overdubbing {
                Some(condition)
            } else {
                Some(TriggerCondition::Immediate)
            }
        },
        _ => {
            if looper.mode == LooperMode::Recording || looper.mode == LooperMode::Overdubbing {
                Some(condition)
            } else {
                None
            }
        },
    }
}

/// How many commands may wait.
pub const TRIGGER_LIMIT: usize = 128;

/// The last triggers of a queue, as many as may wait.
pub open spec fn latest(triggers: Seq<Trigger>) -> Seq<Trigger> {
    if triggers.len() <= TRIGGER_LIMIT {
        triggers
    } else {
        triggers.skip(triggers.len() - TRIGGER_LIMIT)
    }
}

/// Dropping the oldest after each addition comes to the same as dropping them
/// at the end.
pub proof fn lemma_latest_push(triggers: Seq<Trigger>, t: Trigger)
    ensures
        latest(latest(triggers).push(t)) == latest(triggers.push(t)),
{
    assert(latest(latest(triggers).push(t)) =~= latest(triggers.push(t)));
}

/// Puts a trigger at the end of the queue; the oldest ones make room for it.
pub fn add_trigger(triggers: &mut VecDeque<Trigger>, t: Trigger)
    ensures
        final(triggers)@ == latest(old(triggers)@.push(t)),
{
    let ghost before = triggers@;
    let ghost mut dropped: int = 0;
    while triggers.len() >= TRIGGER_LIMIT
        invariant
            0 <= dropped <= before.len(),
            triggers@ == before.skip(dropped),
            dropped > 0 ==> before.len() - dropped >= TRIGGER_LIMIT - 1,
        decreases triggers@.len(),
    {
        triggers.pop_front();
        proof {
            assert(before.skip(dropped).subrange(1, before.len() - dropped) =~= before.skip(
                dropped + 1,
            ));
            dropped = dropped + 1;
        }
    }
    triggers.push_back(t);
    assert(triggers@ =~= latest(before.push(t)));
}

} // verus!
