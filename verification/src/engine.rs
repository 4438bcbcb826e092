//! The engine: it decides what every command, every trigger and every period of
//! audio leads to.

use std::collections::VecDeque;

use vstd::prelude::*;

use crate::action::Action;
use crate::api::{
    Command, EngineMode, EngineState, EngineSwitchingOrder, FrameTime, LooperCommand, LooperMode,
    LooperTarget, MetricStructure, Part, QuantizationMode, Tempo, TimeSignature,
};
use crate::config::MidiOutMapping;
use crate::looper::{lemma_positions, positions, select, Looper, Selector};
use crate::midi::MidiEngineStateSnapshot;
use crate::model::{
    can_wait, can_wait_globally, first_index, is_first_index, nth, only_queued, play, EngineModel,
};
use crate::period::{EngineStateSnapshot, Levels, LooperIo, Period, TriggerQuery, METERS};
use crate::schedule::{first_frame, left_over, plan_period};
use crate::session::{is_restore_order, restore_order, SavedSession, SessionStart};
use crate::trigger::{
    add_trigger, condition_for_mode, latest, lemma_latest_push, mode_condition,
    trigger_from_command, Trigger, TriggerCondition, TriggerTimes, TRIGGER_LIMIT,
};

verus! {

/// The engine.
pub struct Engine {
    state: EngineState,
    mode: EngineMode,
    switching_order: EngineSwitchingOrder,
    time: i64,
    metric_structure: MetricStructure,
    loopers: Vec<Looper>,
    active: u32,
    current_part: Part,
    sync_mode: QuantizationMode,
    triggers: VecDeque<Trigger>,
    id_counter: u32,
    midi_out_mappings: Vec<MidiOutMapping>,
}

impl View for Engine {
    type V = EngineModel;

    closed spec fn view(&self) -> EngineModel {
        EngineModel {
            state: self.state,
            mode: self.mode,
            switching_order: self.switching_order,
            time: self.time as int,
            metric_structure: self.metric_structure,
            loopers: self.loopers@,
            active: self.active,
            current_part: self.current_part,
            sync_mode: self.sync_mode,
            triggers: self.triggers@,
            id_counter: self.id_counter as int,
            midi_out_mappings: self.midi_out_mappings@,
        }
    }
}

impl Engine {
    /// An engine with one looper, which it numbers 0, and what has to be done
    /// about it. `fresh` says what a new looper is like.
    pub fn new(
        midi_out_mappings: Vec<MidiOutMapping>,
        metric_structure: MetricStructure,
        fresh: Looper,
    ) -> (r: (Engine, Vec<Action>))
        ensures
            r.0@ == (EngineModel {
                state: EngineState::Stopped,
                mode: EngineMode::Play,
                switching_order: EngineSwitchingOrder::RecordPlayOverdub,
                time: 0,
                metric_structure,
                loopers: seq![(Looper { id: 0, ..fresh })],
                active: 0,
                current_part: Part::A,
                sync_mode: QuantizationMode::Measure,
                triggers: Seq::empty(),
                id_counter: 1,
                midi_out_mappings: midi_out_mappings@,
            }),
            r.1@ == r.0@.after_reset().actions.push(Action::AttachLooper(0)),
            r.0@.wf(),
            r.0@.ids_given_out(),
    {
        let mut loopers: Vec<Looper> = Vec::new();
        loopers.push(Looper { id: 0, ..fresh });
        let mut engine = Engine {
            state: EngineState::Stopped,
            mode: EngineMode::Play,
            switching_order: EngineSwitchingOrder::RecordPlayOverdub,
            time: 0,
            metric_structure,
            loopers,
            active: 0,
            current_part: Part::A,
            sync_mode: QuantizationMode::Measure,
            triggers: VecDeque::with_capacity(TRIGGER_LIMIT),
            id_counter: 1,
            midi_out_mappings,
        };
        let ghost before = engine@;
        let mut actions = engine.reset();
        actions.push(Action::AttachLooper(0));
        proof {
            assert(engine@.loopers =~= seq![(Looper { id: 0, ..fresh })]);
            assert(engine@.after_reset().actions =~= before.after_reset().actions);
        }
        (engine, actions)
    }

    /// The mode of the looper at a place among those that are not deleted.
    pub fn looper_mode_by_index(&self, idx: usize) -> (r: LooperMode)
        requires
            self@.wf(),
            idx < positions(self@.loopers, Selector::Live).len(),
        ensures
            r == self@.loopers[positions(self@.loopers, Selector::Live)[idx as int] as int].mode,
    {
        let at = select(&self.loopers, Selector::Live);
        proof {
            lemma_positions(self.loopers@, Selector::Live);
        }
        self.loopers[at[idx]].mode
    }

    /// The modes of the first loopers that are not deleted.
    pub fn looper_modes(&self, count: usize) -> (r: Vec<LooperMode>)
        requires
            self@.wf(),
            count <= positions(self@.loopers, Selector::Live).len(),
        ensures
            r@ == self@.looper_modes(count as int),
    {
        let mut r: Vec<LooperMode> = Vec::new();
        let mut idx: usize = 0;
        while idx < count
            invariant
                idx <= count <= positions(self@.loopers, Selector::Live).len(),
                self@.wf(),
                r@ =~= self@.looper_modes(idx as int),
            decreases count - idx,
        {
            r.push(self.looper_mode_by_index(idx));
            idx = idx + 1;
        }
        r
    }

    /// How many loopers are not deleted.
    pub fn live_loopers(&self) -> (r: usize)
        ensures
            r == positions(self@.loopers, Selector::Live).len(),
    {
        select(&self.loopers, Selector::Live).len()
    }

    /// The mappings of the MIDI output.
    pub fn midi_out_mappings(&self) -> (r: &Vec<MidiOutMapping>)
        ensures
            r@ == self@.midi_out_mappings,
    {
        &self.midi_out_mappings
    }

    /// The loopers.
    pub fn loopers(&self) -> (r: &Vec<Looper>)
        ensures
            r@ == self@.loopers,
    {
        &self.loopers
    }

    pub fn state(&self) -> (r: EngineState)
        ensures
            r == self@.state,
    {
        self.state
    }

    pub fn mode(&self) -> (r: EngineMode)
        ensures
            r == self@.mode,
    {
        self.mode
    }

    pub fn time(&self) -> (r: FrameTime)
        ensures
            r.0 == self@.time,
    {
        FrameTime(self.time)
    }

    pub fn metric_structure(&self) -> (r: MetricStructure)
        ensures
            r == self@.metric_structure,
    {
        self.metric_structure
    }

    pub fn current_part(&self) -> (r: Part)
        ensures
            r == self@.current_part,
    {
        self.current_part
    }

    /// The id of the active looper.
    pub fn active(&self) -> (r: u32)
        ensures
            r == self@.active,
    {
        self.active
    }

    /// Whether the engine can take a command.
    pub fn can_take(&self, command: &Command, triggered: bool) -> (r: bool)
        ensures
            r == self@.takes(*command, triggered),
    {
        match command {
            Command::AddLooper => self.id_counter < u32::MAX,
            Command::SelectNextLooper
            | Command::SelectPreviousLooper
            | Command::PreviousPart
            | Command::NextPart
            | Command::GoToPart(_)
            | Command::ToggleMode => self.state == EngineState::Stopped || triggered
                || self.loopers.len() > 0,
            _ => true,
        }
    }

    /// Takes in a looper that was made, and has it attached.
    pub fn add_looper(&mut self, looper: Looper) -> (r: Action)
        requires
            old(self)@.wf(),
            old(self)@.loopers.len() < usize::MAX,
        ensures
            final(self)@ == (EngineModel {
                loopers: old(self)@.loopers.push(looper),
                ..old(self)@
            }),
            r == Action::AttachLooper(looper.id),
            final(self)@.wf(),
    {
        self.loopers.push(looper);
        Action::AttachLooper(looper.id)
    }

    /// Takes note of what has become of the looper at a position.
    pub fn report_looper(&mut self, position: usize, looper: Looper)
        requires
            old(self)@.wf(),
            position < old(self)@.loopers.len(),
        ensures
            final(self)@ == (EngineModel {
                loopers: old(self)@.loopers.update(position as int, looper),
                ..old(self)@
            }),
            final(self)@.wf(),
    {
        self.loopers.set(position, looper);
    }

    /// Which waiting times a command needs, and by which loop they are set.
    pub fn trigger_query(&self, command: &Command, triggered: bool) -> (r: TriggerQuery)
        requires
            self@.wf(),
            self@.takes(*command, triggered),
        ensures
            r.immediate == self@.asks(*command, triggered, TriggerCondition::Immediate),
            r.quantized == (if mode_condition(self@.sync_mode) != TriggerCondition::Immediate
                && self@.asks(*command, triggered, mode_condition(self@.sync_mode)) {
                Some(mode_condition(self@.sync_mode))
            } else {
                None
            }),
            r.base_length == self@.base_length(*command),
            r.base_offset == self@.base_offset(*command),
    {
        let (first_length, first_offset) = if self.loopers.len() > 0 {
            (self.loopers[0].length, self.loopers[0].offset)
        } else {
            (0, FrameTime(0))
        };
        let mut immediate = false;
        let mut quantized: Option<TriggerCondition> = None;
        match command {
            Command::Looper(lc, target) => {
                let at = self.addressed(*target);
                proof {
                    self@.lemma_addressed(*target);
                }
                let ghost mode = mode_condition(self@.sync_mode);
                let mut k: usize = 0;
                while k < at.len()
                    invariant
                        k <= at.len(),
                        self@.wf(),
                        at@ == self@.addressed(*target),
                        forall|j: int|
                            0 <= j < at@.len() ==> #[trigger] at@[j] < self@.loopers.len(),
                        mode == mode_condition(self@.sync_mode),
                        immediate == (exists|j: int|
                            0 <= j < k && self@.waits_for(#[trigger] at@[j], *lc, triggered)
                                == Some(TriggerCondition::Immediate)),
                        quantized == (if mode != TriggerCondition::Immediate && (exists|j: int|
                            0 <= j < k && self@.waits_for(#[trigger] at@[j], *lc, triggered)
                                == Some(mode)) {
                            Some(mode)
                        } else {
                            None
                        }),
                    decreases at.len() - k,
                {
                    if !triggered {
                        let c = trigger_from_command(self.sync_mode, *lc, &self.loopers[at[k]]);
                        match c {
                            Some(TriggerCondition::Immediate) => {
                                immediate = true;
                            },
                            Some(other) => {
                                quantized = Some(other);
                            },
                            None => {},
                        }
                        assert(c == self@.waits_for(at@[k as int], *lc, triggered));
                    }
                    k = k + 1;
                }
                let alone = self.loopers.len() <= 1;
                let whole = match target {
                    LooperTarget::All | LooperTarget::AllSync => true,
                    _ => false,
                };
                TriggerQuery {
                    immediate,
                    quantized,
                    base_length: if alone || whole {
                        0
                    } else {
                        first_length
                    },
                    base_offset: if alone {
                        FrameTime(0)
                    } else {
                        first_offset
                    },
                }
            },
            _ => {
                let waits = self.state != EngineState::Stopped && !triggered;
                match command {
                    Command::SelectNextLooper
                    | Command::SelectPreviousLooper
                    | Command::ToggleMode => {
                        immediate = waits;
                    },
                    Command::PreviousPart | Command::NextPart | Command::GoToPart(_) => {
                        let c = condition_for_mode(self.sync_mode);
                        if waits {
                            if c == TriggerCondition::Immediate {
                                immediate = true;
                            } else {
                                quantized = Some(c);
                            }
                        }
                    },
                    _ => {},
                }
                TriggerQuery {
                    immediate,
                    quantized,
                    base_length: first_length,
                    base_offset: first_offset,
                }
            },
        }
    }

    fn take_metric_structure(&mut self, ms: MetricStructure) -> (r: Vec<Action>)
        requires
            old(self)@.wf(),
        ensures
            final(self)@ == old(self)@.after_metric_structure(ms).engine,
            r@ == old(self)@.after_metric_structure(ms).actions,
            final(self)@.wf(),
    {
        self.metric_structure = ms;
        let mut r: Vec<Action> = Vec::new();
        r.push(Action::SetMetronomeStructure(ms));
        let mut reset = self.reset();
        r.append(&mut reset);
        assert(r@ =~= old(self)@.after_metric_structure(ms).actions);
        r
    }

    /// Takes in a tempo that was worked out.
    pub fn set_tempo(&mut self, tempo: Tempo) -> (r: Vec<Action>)
        requires
            old(self)@.wf(),
        ensures
            ({
                let ms = MetricStructure { tempo, ..old(self)@.metric_structure };
                &&& final(self)@ == old(self)@.after_metric_structure(ms).engine
                &&& r@ == old(self)@.after_metric_structure(ms).actions
            }),
            final(self)@.wf(),
    {
        self.take_metric_structure(MetricStructure { tempo, ..self.metric_structure })
    }

    /// Takes in a time signature that was worked out; nothing happens where
    /// there is no such signature.
    pub fn set_time_signature(&mut self, time_signature: Option<TimeSignature>) -> (r: Vec<Action>)
        requires
            old(self)@.wf(),
        ensures
            time_signature is None ==> final(self)@ == old(self)@ && r@ == Seq::<Action>::empty(),
            time_signature is Some ==> {
                let ms = MetricStructure {
                    time_signature: time_signature->0,
                    ..old(self)@.metric_structure
                };
                &&& final(self)@ == old(self)@.after_metric_structure(ms).engine
                &&& r@ == old(self)@.after_metric_structure(ms).actions
            },
            final(self)@.wf(),
    {
        match time_signature {
            Some(ts) => self.take_metric_structure(
                MetricStructure { time_signature: ts, ..self.metric_structure },
            ),
            None => Vec::new(),
        }
    }

    /// Removes the deleted loopers, and returns their ids.
    fn remove_deleted(&mut self) -> (r: Vec<u32>)
        requires
            old(self)@.wf(),
        ensures
            final(self)@ == old(self)@.after_removal(),
            r@ == old(self)@.removed(),
            final(self)@.wf(),
    {
        let ghost all = self.loopers@;
        let ghost gone = |l: Looper| l.deleted;
        let ghost kept = |l: Looper| !l.deleted;
        let mut removed: Vec<u32> = Vec::new();
        let mut left: Vec<Looper> = Vec::new();
        let mut i: usize = 0;
        assert(all.take(0) =~= Seq::<Looper>::empty());
        reveal_with_fuel(Seq::filter, 1);
        while i < self.loopers.len()
            invariant
                i <= self.loopers.len(),
                self@ == old(self)@,
                self.loopers@ == all,
                gone == (|l: Looper| l.deleted),
                kept == (|l: Looper| !l.deleted),
                removed@ =~= all.take(i as int).filter(gone).map_values(|l: Looper| l.id),
                left@ =~= all.take(i as int).filter(kept),
            decreases self.loopers.len() - i,
        {
            let l = self.loopers[i];
            proof {
                assert(all.take(i + 1).drop_last() =~= all.take(i as int));
                reveal_with_fuel(Seq::filter, 2);
            }
            if l.deleted {
                removed.push(l.id);
            } else {
                left.push(l);
            }
            i = i + 1;
        }
        assert(all.take(i as int) =~= all);
        self.loopers = left;
        removed
    }

    /// Whether a looper has begun to record or overdub.
    fn capturing(&self) -> (r: bool)
        ensures
            r == self@.capturing(),
    {
        let mut i: usize = 0;
        while i < self.loopers.len()
            invariant
                i <= self.loopers.len(),
                forall|j: int|
                    0 <= j < i ==> (#[trigger] self@.loopers[j]).local_mode != LooperMode::Recording
                        && self@.loopers[j].local_mode != LooperMode::Overdubbing,
            decreases self.loopers.len() - i,
        {
            let m = self.loopers[i].local_mode;
            assert(self@.loopers[i as int].local_mode == m);
            if m == LooperMode::Recording || m == LooperMode::Overdubbing {
                return true;
            }
            i = i + 1;
        }
        false
    }

    /// Whether a live looper in the current part plays solo.
    fn soloing(&self) -> (r: bool)
        requires
            self@.wf(),
        ensures
            r == self@.soloing(),
    {
        let selector = Selector::LiveIn(self.current_part);
        let at = select(&self.loopers, selector);
        proof {
            lemma_positions(self.loopers@, selector);
        }
        let mut k: usize = 0;
        while k < at.len()
            invariant
                k <= at.len(),
                selector == Selector::LiveIn(self@.current_part),
                at@ == positions(self@.loopers, selector),
                forall|j: int|
                    0 <= j < at@.len() ==> {
                        &&& (#[trigger] at@[j]) < self.loopers@.len()
                        &&& selector.picks(self@.loopers[at@[j] as int])
                    },
                forall|j: int|
                    0 <= j < k ==> self@.loopers[(#[trigger] at@[j]) as int].mode
                        != LooperMode::Soloed,
            decreases at.len() - k,
        {
            if self.loopers[at[k]].mode == LooperMode::Soloed {
                assert(selector.picks(self@.loopers[at@[k as int] as int]));
                return true;
            }
            k = k + 1;
        }
        assert(!self@.soloing()) by {
            if self@.soloing() {
                let i = choose|i: int|
                    0 <= i < self@.loopers.len() && selector.picks(#[trigger] self@.loopers[i])
                        && self@.loopers[i].mode == LooperMode::Soloed;
                assert(at@.contains(i as usize));
                let j = at@.index_of(i as usize);
                assert(at@[j] == i as usize);
            }
        }
        false
    }

    /// Whether a looper that is not deleted has begun to record or overdub.
    fn live_capturing(&self) -> (r: bool)
        requires
            self@.wf(),
        ensures
            r == self@.after_removal().capturing(),
    {
        let at = select(&self.loopers, Selector::Live);
        let ghost kept = |l: Looper| !l.deleted;
        let ghost left = self@.after_removal().loopers;
        proof {
            lemma_positions(self.loopers@, Selector::Live);
        }
        let mut k: usize = 0;
        while k < at.len()
            invariant
                k <= at.len(),
                at@ == positions(self@.loopers, Selector::Live),
                kept == (|l: Looper| !l.deleted),
                left == self@.loopers.filter(kept),
                left == self@.after_removal().loopers,
                forall|j: int|
                    0 <= j < at@.len() ==> {
                        &&& (#[trigger] at@[j]) < self.loopers@.len()
                        &&& Selector::Live.picks(self@.loopers[at@[j] as int])
                    },
                forall|j: int|
                    0 <= j < k ==> {
                        let m = self@.loopers[(#[trigger] at@[j]) as int].local_mode;
                        m != LooperMode::Recording && m != LooperMode::Overdubbing
                    },
            decreases at.len() - k,
        {
            let m = self.loopers[at[k]].local_mode;
            if m == LooperMode::Recording || m == LooperMode::Overdubbing {
                proof {
                    let p = at@[k as int] as int;
                    self@.loopers.lemma_filter_contains(kept, p);
                    let i = left.index_of(self@.loopers[p]);
                    assert(left[i] == self@.loopers[p]);
                }
                return true;
            }
            k = k + 1;
        }
        assert(!self@.after_removal().capturing()) by {
            if self@.after_removal().capturing() {
                let i = choose|i: int|
                    0 <= i < left.len() && ((#[trigger] left[i]).local_mode == LooperMode::Recording
                        || left[i].local_mode == LooperMode::Overdubbing);
                self@.loopers.lemma_filter_pred(kept, i);
                assert(left.contains(left[i]));
                self@.loopers.lemma_filter_contains_rev(kept, left[i]);
                let p = self@.loopers.index_of(left[i]);
                assert(Selector::Live.picks(self@.loopers[p]));
                assert(at@.contains(p as usize));
                let j = at@.index_of(p as usize);
                assert(at@[j] == p as usize);
            }
        }
        false
    }

    /// Whether the times of a period of `frames` frames can be counted.
    pub fn can_process(&self, frames: u64) -> (r: bool)
        requires
            self@.wf(),
        ensures
            r == self@.has_time_for(frames),
    {
        if frames > i64::MAX as u64 || frames > usize::MAX as u64 {
            return false;
        }
        if self.time <= 0 || frames as i64 <= i64::MAX - self.time {
            return true;
        }
        match self.state {
            EngineState::Active => false,
            EngineState::Paused => true,
            EngineState::Stopped => self.triggers.len() == 0 && !self.live_capturing(),
        }
    }

    /// Begins a period of `frames` frames: removes deleted loopers, starts by
    /// itself if need be, and cuts up the period around the commands that are
    /// due in it.
    pub fn process(&mut self, frames: u64) -> (r: Period)
        requires
            old(self)@.wf(),
            old(self)@.has_time_for(frames),
        ensures
            final(self)@ == old(self)@.after_planning(frames as int),
            r.removed@ == old(self)@.removed(),
            r.solo == old(self)@.at_period().soloing(),
            r.active == (old(self)@.at_period().state == EngineState::Active),
            r.steps@ == old(self)@.planned(frames as int),
            final(self)@.wf(),
    {
        let removed = self.remove_deleted();
        if self.state == EngineState::Stopped && (self.triggers.len() > 0 || self.capturing()) {
            self.state = EngineState::Active;
        }
        assert(self@ == old(self)@.at_period());
        let solo = self.soloing();
        let active = self.state == EngineState::Active;
        let steps = if active {
            proof {
                lemma_left_over_waits(
                    self@.triggers,
                    first_frame(self@.time),
                    self@.time + frames,
                );
            }
            plan_period(&mut self.triggers, self.time, frames)
        } else {
            Vec::new()
        };
        Period { removed, solo, active, steps }
    }

    /// Which loopers take part in the frames at a time, in order.
    pub fn perform_looper_io(&self, time: FrameTime) -> (r: Vec<LooperIo>)
        requires
            self@.wf(),
        ensures
            r@ == (if time.0 >= 0 {
                self@.looper_ios()
            } else {
                Seq::empty()
            }),
    {
        let mut r: Vec<LooperIo> = Vec::new();
        if time.0 >= 0 {
            let at = select(&self.loopers, Selector::Live);
            proof {
                lemma_positions(self.loopers@, Selector::Live);
            }
            let mut k: usize = 0;
            while k < at.len()
                invariant
                    k <= at.len(),
                    at@ == positions(self@.loopers, Selector::Live),
                    forall|j: int| 0 <= j < at@.len() ==> #[trigger] at@[j] < self.loopers@.len(),
                    r@.len() == k,
                    forall|j: int|
                        0 <= j < k ==> #[trigger] r@[j] == self@.looper_io(at@[j], j),
                decreases at.len() - k,
            {
                r.push(
                    LooperIo {
                        position: at[k],
                        id: self.loopers[at[k]].id,
                        meter: if k < METERS {
                            Some(k)
                        } else {
                            None
                        },
                    },
                );
                k = k + 1;
            }
            assert(r@ =~= self@.looper_ios());
        }
        r
    }

    /// Ends a period: moves on in time, and sums up the engine for the MIDI
    /// output and for display.
    pub fn finish_period(&mut self, period: &Period, frames: u64, levels: Levels) -> (r: (
        MidiEngineStateSnapshot,
        EngineStateSnapshot,
    ))
        requires
            old(self)@.wf(),
            frames <= i64::MAX,
            period.active ==> old(self)@.time + frames <= i64::MAX,
        ensures
            final(self)@ == old(self)@.after_frames(period.active, frames as int),
            r.0 == final(self)@.midi_snapshot(levels),
            r.1 == final(self)@.snapshot(period.solo, levels),
            final(self)@.wf(),
    {
        if period.active {
            self.time = self.time + frames as i64;
        }
        let active: u32 = self.active;
        let count: usize = self.loopers.len();
        assert(active as u8 == active % 256) by (bit_vector);
        assert(count as u8 == count % 256) by (bit_vector);
        let midi = MidiEngineStateSnapshot {
            engine_state: self.state,
            engine_mode: self.mode,
            sync_mode: self.sync_mode,
            metronome: levels.metronome_midi,
            active_looper: active as u8,
            part: self.current_part.index(),
            looper_count: count as u8,
        };
        let display = EngineStateSnapshot {
            engine_state: self.state,
            engine_mode: self.mode,
            engine_switching_order: self.switching_order,
            time: FrameTime(self.time),
            metric_structure: self.metric_structure,
            active_looper: active,
            looper_count: count,
            part: self.current_part,
            solo: period.solo,
            sync_mode: self.sync_mode,
            input_levels: levels.input,
            looper_levels: levels.loopers,
            metronome_volume: levels.metronome,
        };
        (midi, display)
    }

    /// Begins to load a session: takes over its settings and lets go of all
    /// loopers. The saved ones are then to be restored and added in the order
    /// that comes back, and `finish_session` called after the last.
    pub fn load_session(&mut self, session: SavedSession, sample_rate: usize) -> (r: SessionStart)
        requires
            old(self)@.wf(),
        ensures
            final(self)@ == old(self)@.after_session_start(session),
            r.actions@ == old(self)@.session_actions(session, sample_rate),
            match session.metric_structure {
                Ok(_) => r.order is Ok && is_restore_order(session.looper_ids@, r.order->Ok_0@),
                Err(e) => r.order == Err::<Vec<usize>, String>(e),
            },
            final(self)@.wf(),
    {
        let mut actions: Vec<Action> = Vec::new();
        if session.sample_rate != sample_rate {
            actions.push(
                Action::ReportSampleRate { saved: session.sample_rate, system: sample_rate },
            );
        }
        match session.metric_structure {
            Err(e) => {
                assert(actions@ =~= old(self)@.session_actions(session, sample_rate));
                SessionStart { actions, order: Err(e) }
            },
            Ok(ms) => {
                self.metric_structure = ms;
                self.sync_mode = session.sync_mode;
                let level: u8 = if session.metronome_volume > 100 {
                    100
                } else {
                    session.metronome_volume
                };
                actions.push(Action::SetMetronomeLevel(level));
                let ghost begun = actions@;
                let mut i: usize = 0;
                while i < self.loopers.len()
                    invariant
                        i <= self.loopers.len(),
                        actions@ =~= begun + self.loopers@.take(i as int).map_values(
                            |l: Looper| Action::RemoveLooper(l.id),
                        ),
                    decreases self.loopers.len() - i,
                {
                    actions.push(Action::RemoveLooper(self.loopers[i].id));
                    i = i + 1;
                }
                assert(self.loopers@.take(i as int) =~= self.loopers@);
                self.loopers.clear();
                let order = restore_order(&session.looper_ids);
                assert(actions@ =~= old(self)@.session_actions(session, sample_rate));
                SessionStart { actions, order: Ok(order) }
            },
        }
    }

    /// Ends the loading of a session, when all its loopers are restored.
    pub fn finish_session(&mut self) -> (r: Vec<Action>)
        requires
            old(self)@.wf(),
            EngineModel::highest_id(old(self)@.loopers) < u32::MAX,
        ensures
            final(self)@ == old(self)@.after_session().engine,
            r@ == old(self)@.after_session().actions,
            final(self)@.wf(),
            final(self)@.ids_given_out(),
    {
        let mut highest: u32 = 0;
        let mut i: usize = 0;
        assert(self.loopers@.take(0) =~= Seq::<Looper>::empty());
        while i < self.loopers.len()
            invariant
                i <= self.loopers.len(),
                *self == *old(self),
                highest == EngineModel::highest_id(self.loopers@.take(i as int)),
            decreases self.loopers.len() - i,
        {
            assert(self.loopers@.take(i + 1).drop_last() =~= self.loopers@.take(i as int));
            if self.loopers[i].id > highest {
                highest = self.loopers[i].id;
            }
            i = i + 1;
        }
        assert(self.loopers@.take(i as int) =~= self.loopers@);
        proof {
            EngineModel::lemma_highest_id(self.loopers@);
        }
        self.id_counter = highest + 1;
        self.reset()
    }

    /// The positions of the loopers that a looper command is meant for.
    fn addressed(&self, target: LooperTarget) -> (r: Vec<usize>)
        ensures
            r@ == self@.addressed(target),
    {
        match target {
            LooperTarget::Id(id) => Self::pick(select(&self.loopers, Selector::WithId(id)), 0),
            LooperTarget::Index(i) => Self::pick(select(&self.loopers, Selector::Live), i as usize),
            LooperTarget::All => select(&self.loopers, Selector::Any),
            LooperTarget::AllSync => select(&self.loopers, Selector::Any),
            LooperTarget::Selected => Self::pick(
                select(&self.loopers, Selector::WithId(self.active)),
                0,
            ),
        }
    }

    fn pick(at: Vec<usize>, i: usize) -> (r: Vec<usize>)
        ensures
            r@ == nth(at@, i as int),
    {
        let mut r: Vec<usize> = Vec::new();
        if i < at.len() {
            r.push(at[i]);
        }
        r
    }

    /// Has each looper that a command is meant for carry it out, or a trigger
    /// wait for it.
    fn handle_loop_command(
        &mut self,
        lc: LooperCommand,
        target: LooperTarget,
        triggered: bool,
        times: TriggerTimes,
    ) -> (r: Vec<Action>)
        requires
            old(self)@.wf(),
        ensures
            final(self)@ == old(self)@.after_looper_command(lc, target, triggered, times).engine,
            r@ == old(self)@.after_looper_command(lc, target, triggered, times).actions,
            final(self)@.wf(),
    {
        let ghost before = self@;
        let at = self.addressed(target);
        proof {
            before.lemma_addressed(target);
        }
        let mut r: Vec<Action> = Vec::new();
        let mut k: usize = 0;
        assert(at@.take(0) =~= Seq::<usize>::empty());
        assert(before.triggers + Seq::<Trigger>::empty() =~= before.triggers);
        while k < at.len()
            invariant
                k <= at.len(),
                before.wf(),
                at@ == before.addressed(target),
                forall|j: int| 0 <= j < at@.len() ==> #[trigger] at@[j] < before.loopers.len(),
                self@ == (EngineModel {
                    triggers: latest(
                        before.triggers + before.put_off(
                            at@.take(k as int),
                            lc,
                            target,
                            triggered,
                            times,
                        ),
                    ),
                    ..before
                }),
                self@.wf(),
                r@ == at@.take(k as int).map_values(
                    |p: usize| before.looper_action(p, lc, target, triggered, times),
                ),
            decreases at.len() - k,
        {
            let position: usize = at[k];
            let looper = self.loopers[position];
            let ghost done = before.triggers + before.put_off(
                at@.take(k as int),
                lc,
                target,
                triggered,
                times,
            );
            let condition = if triggered {
                None
            } else {
                trigger_from_command(self.sync_mode, lc, &looper)
            };
            proof {
                assert(at@.take(k + 1).drop_last() =~= at@.take(k as int));
                assert(at@.take(k + 1).last() == position);
                assert(condition == before.waits_for(position, lc, triggered));
            }
            match condition {
                Some(c) => {
                    let t = times.time_for(c);
                    let trigger = Trigger { triggered_at: t, command: Command::Looper(lc, target) };
                    proof {
                        lemma_latest_push(done, trigger);
                        assert(done.push(trigger) =~= before.triggers + before.put_off(
                            at@.take(k + 1),
                            lc,
                            target,
                            triggered,
                            times,
                        ));
                    }
                    add_trigger(&mut self.triggers, trigger);
                    r.push(Action::ShowLoopTrigger { looper: looper.id, at: t, command: lc });
                },
                None => {
                    let loop_sync = match target {
                        LooperTarget::AllSync => position != 0,
                        _ => false,
                    };
                    r.push(Action::Looper { position, command: lc, loop_sync });
                },
            }
            k = k + 1;
        }
        assert(at@.take(k as int) =~= at@);
        match target {
            LooperTarget::Index(_) => {
                if at.len() > 0 {
                    self.active = self.loopers[at[0]].id;
                }
            },
            _ => {},
        }
        r
    }

    /// Tells the loopers at some positions to play.
    fn push_plays(actions: &mut Vec<Action>, at: &Vec<usize>)
        ensures
            final(actions)@ == old(actions)@ + at@.map_values(|p: usize| play(p)),
    {
        let ghost before = actions@;
        let mut k: usize = 0;
        while k < at.len()
            invariant
                k <= at.len(),
                actions@ =~= before + at@.take(k as int).map_values(|p: usize| play(p)),
            decreases at.len() - k,
        {
            actions.push(
                Action::Looper { position: at[k], command: LooperCommand::Play, loop_sync: false },
            );
            k = k + 1;
        }
        assert(at@.take(k as int) =~= at@);
    }

    /// Moves to a time.
    fn set_time(&mut self, time: FrameTime) -> (r: Vec<Action>)
        requires
            old(self)@.wf(),
        ensures
            final(self)@ == old(self)@.after_set_time(time).engine,
            r@ == old(self)@.after_set_time(time).actions,
            final(self)@.wf(),
    {
        self.time = time.0;
        let mut r: Vec<Action> = Vec::new();
        r.push(Action::SetLooperTimes(time));
        r
    }

    /// Drops what is waiting, goes back to the start, and lets every looper
    /// play.
    fn reset(&mut self) -> (r: Vec<Action>)
        requires
            old(self)@.wf(),
        ensures
            final(self)@ == old(self)@.after_reset().engine,
            r@ == old(self)@.after_reset().actions,
            final(self)@.wf(),
    {
        let mut r: Vec<Action> = Vec::new();
        r.push(Action::ResetMetronome);
        self.triggers.clear();
        let mut moved = self.set_time(FrameTime(0));
        r.append(&mut moved);
        let at = select(&self.loopers, Selector::Any);
        Self::push_plays(&mut r, &at);
        assert(r@ =~= old(self)@.after_reset().actions);
        r
    }

    /// The ids of the live loopers in the current part.
    fn members(&self) -> (r: Vec<u32>)
        requires
            self@.wf(),
        ensures
            r@ == self@.members(),
    {
        let at = select(&self.loopers, Selector::LiveIn(self.current_part));
        proof {
            lemma_positions(self.loopers@, Selector::LiveIn(self.current_part));
        }
        let mut r: Vec<u32> = Vec::new();
        let mut k: usize = 0;
        while k < at.len()
            invariant
                k <= at.len(),
                forall|j: int| 0 <= j < at@.len() ==> #[trigger] at@[j] < self.loopers@.len(),
                r@ =~= at@.take(k as int).map_values(|p: usize| self.loopers@[p as int].id),
            decreases at.len() - k,
        {
            r.push(self.loopers[at[k]].id);
            k = k + 1;
        }
        assert(at@.take(k as int) =~= at@);
        assert(r@ =~= self@.members());
        r
    }

    /// Makes the neighbour of the active looper active.
    fn select_neighbour(&mut self, forward: bool)
        requires
            old(self)@.wf(),
        ensures
            final(self)@ == old(self)@.after_select_neighbour(forward),
            final(self)@.wf(),
    {
        let ids = self.members();
        if ids.len() == 0 {
            return;
        }
        let mut i: usize = 0;
        while i < ids.len() && ids[i] != self.active
            invariant
                i <= ids.len(),
                forall|j: int| 0 <= j < i ==> ids@[j] != self.active,
            decreases ids.len() - i,
        {
            i = i + 1;
        }
        if i < ids.len() {
            proof {
                assert(is_first_index(ids@, self.active, i as int));
                let chosen = first_index(ids@, self.active);
                assert(is_first_index(ids@, self.active, chosen));
                assert(chosen == i);
                assert(ids@.contains(self.active));
            }
            let next: usize = if forward {
                if i + 1 < ids.len() {
                    i + 1
                } else {
                    0
                }
            } else {
                if i > 0 {
                    i - 1
                } else {
                    ids.len() - 1
                }
            };
            proof {
                let n = ids@.len() as int;
                if forward {
                    if i + 1 < n {
                        vstd::arithmetic::div_mod::lemma_small_mod((i + 1) as nat, n as nat);
                    } else {
                        vstd::arithmetic::div_mod::lemma_mod_self_0(n);
                    }
                } else {
                    if i > 0 {
                        vstd::arithmetic::div_mod::lemma_mod_add_multiples_vanish(i - 1, n);
                        vstd::arithmetic::div_mod::lemma_small_mod((i - 1) as nat, n as nat);
                        assert(n + (i - 1) == i + n - 1);
                    } else {
                        vstd::arithmetic::div_mod::lemma_small_mod((n - 1) as nat, n as nat);
                    }
                }
            }
            self.active = ids[next];
        } else {
            self.active = ids[0];
        }
    }

    /// Makes the first looper of the current part active, unless the active one
    /// is in the part.
    fn select_first_in_part(&mut self)
        requires
            old(self)@.wf(),
        ensures
            final(self)@ == old(self)@.after_select_first(),
            final(self)@.wf(),
    {
        let mut i: usize = 0;
        while i < self.loopers.len()
            invariant
                i <= self.loopers.len(),
                *self == *old(self),
                self@.wf(),
                forall|j: int|
                    0 <= j < i ==> !((#[trigger] self.loopers@[j]).id == self.active
                        && self.loopers@[j].parts.has(self.current_part)),
            decreases self.loopers.len() - i,
        {
            if self.loopers[i].id == self.active && self.loopers[i].parts.contains(
                self.current_part,
            ) {
                assert(self@.loopers[i as int].id == self@.active);
                assert(self@.active_in_part());
                return;
            }
            i = i + 1;
        }
        let ids = self.members();
        if ids.len() > 0 {
            self.active = ids[0];
        }
    }

    /// Whether a live looper plays in a part.
    fn occupied(&self, part: Part) -> (r: bool)
        requires
            self@.wf(),
        ensures
            r == self@.occupied(part),
    {
        let at = select(&self.loopers, Selector::LiveIn(part));
        proof {
            lemma_positions(self.loopers@, Selector::LiveIn(part));
            if at@.len() > 0 {
                assert(Selector::LiveIn(part).picks(self@.loopers[at@[0] as int]));
            }
        }
        at.len() > 0
    }

    /// The nearest part ahead that a live looper plays in.
    fn part_ahead(&self) -> (r: Part)
        requires
            self@.wf(),
        ensures
            r == self@.part_ahead(),
    {
        let mut part = self.current_part.next();
        let ghost mut k: int = 1;
        while part != self.current_part && !self.occupied(part)
            invariant
                self@.wf(),
                1 <= k <= 4,
                k == 1 ==> part == self.current_part.spec_next(),
                k == 2 ==> part == self.current_part.spec_next().spec_next(),
                k == 3 ==> part == self.current_part.spec_next().spec_next().spec_next(),
                k == 4 ==> part == self.current_part,
                k > 1 ==> !self@.occupied(self.current_part.spec_next()),
                k > 2 ==> !self@.occupied(self.current_part.spec_next().spec_next()),
                k > 3 ==> !self@.occupied(self.current_part.spec_next().spec_next().spec_next()),
            decreases 4 - k,
        {
            part = part.next();
            proof {
                k = k + 1;
            }
        }
        part
    }

    /// The nearest part behind that a live looper plays in.
    fn part_behind(&self) -> (r: Part)
        requires
            self@.wf(),
        ensures
            r == self@.part_behind(),
    {
        let mut part = self.current_part.previous();
        let ghost mut k: int = 1;
        while part != self.current_part && !self.occupied(part)
            invariant
                self@.wf(),
                1 <= k <= 4,
                k == 1 ==> part == self.current_part.spec_previous(),
                k == 2 ==> part == self.current_part.spec_previous().spec_previous(),
                k == 3 ==> part
                    == self.current_part.spec_previous().spec_previous().spec_previous(),
                k == 4 ==> part == self.current_part,
                k > 1 ==> !self@.occupied(self.current_part.spec_previous()),
                k > 2 ==> !self@.occupied(self.current_part.spec_previous().spec_previous()),
                k > 3 ==> !self@.occupied(
                    self.current_part.spec_previous().spec_previous().spec_previous(),
                ),
            decreases 4 - k,
        {
            part = part.previous();
            proof {
                k = k + 1;
            }
        }
        part
    }

    /// The positions of the loopers that have to play when the record mode
    /// ends.
    fn interrupted(&self) -> (r: Vec<usize>)
        ensures
            r@ == EngineModel::interrupted_at(self@.loopers),
    {
        let mut r: Vec<usize> = Vec::new();
        let mut i: usize = 0;
        assert(self.loopers@.take(0) =~= Seq::<Looper>::empty());
        while i < self.loopers.len()
            invariant
                i <= self.loopers.len(),
                r@ == EngineModel::interrupted_at(self.loopers@.take(i as int)),
            decreases self.loopers.len() - i,
        {
            assert(self.loopers@.take(i + 1).drop_last() =~= self.loopers@.take(i as int));
            let l = self.loopers[i];
            if !l.deleted && (l.mode == LooperMode::Recording || l.mode == LooperMode::Overdubbing
                || l.mode == LooperMode::Armed) {
                r.push(i);
            }
            i = i + 1;
        }
        assert(self.loopers@.take(i as int) =~= self.loopers@);
        r
    }

    /// Switches between recording and playing.
    fn toggle_mode(&mut self) -> (r: Vec<Action>)
        requires
            old(self)@.wf(),
        ensures
            final(self)@ == old(self)@.after_toggle().engine,
            r@ == old(self)@.after_toggle().actions,
            final(self)@.wf(),
    {
        let mut r: Vec<Action> = Vec::new();
        if self.mode == EngineMode::Record {
            self.mode = EngineMode::Play;
            let at = self.interrupted();
            Self::push_plays(&mut r, &at);
            assert(r@ =~= old(self)@.after_toggle().actions);
        } else {
            self.mode = EngineMode::Record;
        }
        r
    }

    /// Runs a command that may be put off.
    fn run_command(&mut self, command: &Command) -> (r: Vec<Action>)
        requires
            old(self)@.wf(),
        ensures
            final(self)@ == old(self)@.after_run(*command).engine,
            r@ == old(self)@.after_run(*command).actions,
            final(self)@.wf(),
    {
        match command {
            Command::SelectNextLooper => {
                self.select_neighbour(true);
                Vec::new()
            },
            Command::SelectPreviousLooper => {
                self.select_neighbour(false);
                Vec::new()
            },
            Command::PreviousPart => {
                self.current_part = self.part_behind();
                self.select_first_in_part();
                Vec::new()
            },
            Command::NextPart => {
                self.current_part = self.part_ahead();
                self.select_first_in_part();
                Vec::new()
            },
            Command::GoToPart(part) => {
                self.current_part = *part;
                self.select_first_in_part();
                Vec::new()
            },
            Command::ToggleMode => self.toggle_mode(),
            _ => Vec::new(),
        }
    }

    /// Runs a command, or has a trigger wait for it.
    fn trigger_or_run(
        &mut self,
        command: &Command,
        triggered: bool,
        queued: bool,
        times: TriggerTimes,
    ) -> (r: Vec<Action>)
        requires
            old(self)@.wf(),
            can_wait_globally(*command),
            queued == only_queued(*command),
        ensures
            final(self)@ == old(self)@.after_global(*command, triggered, times).engine,
            r@ == old(self)@.after_global(*command, triggered, times).actions,
            final(self)@.wf(),
    {
        if self.state == EngineState::Stopped || triggered {
            return self.run_command(command);
        }
        let condition = if queued {
            TriggerCondition::Immediate
        } else {
            condition_for_mode(self.sync_mode)
        };
        let at = times.time_for(condition);
        if at != FrameTime(0) && at.0 < self.time {
            return self.run_command(command);
        }
        add_trigger(&mut self.triggers, Trigger { triggered_at: at, command: command.clone() });
        let mut r: Vec<Action> = Vec::new();
        r.push(Action::ShowGlobalTrigger { at, command: command.clone() });
        r
    }

    /// Carries out a command. Where it has to wait, `times` gives the times that
    /// `trigger_query` asks for. The result says what the parts around the
    /// engine have to do, in order.
    pub fn handle_command(
        &mut self,
        command: &Command,
        triggered: bool,
        times: TriggerTimes,
    ) -> (r: Vec<Action>)
        requires
            old(self)@.wf(),
            old(self)@.takes(*command, triggered),
        ensures
            final(self)@ == old(self)@.after(*command, triggered, times).engine,
            r@ == old(self)@.after(*command, triggered, times).actions,
            final(self)@.wf(),
    {
        let mut r: Vec<Action> = Vec::new();
        match command {
            Command::Looper(lc, target) => {
                return self.handle_loop_command(*lc, *target, triggered, times);
            },
            Command::Start => {
                self.state = EngineState::Active;
            },
            Command::Pause => {
                self.state = EngineState::Paused;
            },
            Command::Stop => {
                self.state = EngineState::Stopped;
                return self.reset();
            },
            Command::StartStop => match self.state {
                EngineState::Stopped | EngineState::Paused => {
                    self.state = EngineState::Active;
                },
                EngineState::Active => {
                    self.state = EngineState::Stopped;
                    return self.reset();
                },
            },
            Command::PlayPause => {
                self.state = match self.state {
                    EngineState::Stopped | EngineState::Paused => EngineState::Active,
                    EngineState::Active => EngineState::Paused,
                };
            },
            Command::Reset => {
                return self.reset();
            },
            Command::SetTime(time) => {
                return self.set_time(*time);
            },
            Command::AddLooper => {
                r.push(Action::CreateLooper { id: self.id_counter, part: self.current_part });
                self.active = self.id_counter;
                self.id_counter = self.id_counter + 1;
            },
            Command::SelectLooperById(id) => {
                if select(&self.loopers, Selector::WithId(*id)).len() > 0 {
                    self.active = *id;
                }
            },
            Command::SelectLooperByIndex(i) => {
                let at = select(&self.loopers, Selector::Live);
                proof {
                    lemma_positions(self.loopers@, Selector::Live);
                }
                if (*i as usize) < at.len() {
                    self.active = self.loopers[at[*i as usize]].id;
                }
            },
            Command::SelectNextLooper | Command::SelectPreviousLooper => {
                return self.trigger_or_run(command, triggered, true, times);
            },
            Command::PreviousPart | Command::NextPart | Command::GoToPart(_) => {
                return self.trigger_or_run(command, triggered, false, times);
            },
            Command::SetQuantizationMode(mode) => {
                self.sync_mode = *mode;
            },
            Command::SaveSession(path) => {
                r.push(
                    Action::SaveSession {
                        metric_structure: self.metric_structure,
                        sync_mode: self.sync_mode,
                        path: path.clone(),
                    },
                );
            },
            Command::LoadSession(path) => {
                r.push(Action::LoadSession { path: path.clone() });
            },
            Command::SetMetronomeLevel(level) => {
                if *level <= 100 {
                    r.push(Action::SetMetronomeLevel(*level));
                }
            },
            Command::SetTempoBPM(bpm) => {
                r.push(Action::WorkOutTempo { bpm: *bpm });
            },
            Command::ChangeTempoBPM(delta) => {
                r.push(
                    Action::WorkOutTempoChange {
                        tempo: self.metric_structure.tempo,
                        delta: *delta,
                    },
                );
            },
            Command::SetTimeSignature(upper, lower) => {
                r.push(Action::WorkOutTimeSignature { upper: *upper, lower: *lower });
            },
            Command::ToggleMode => {
                return self.trigger_or_run(command, triggered, true, times);
            },
        }
        assert(r@ =~= old(self)@.after(*command, triggered, times).actions);
        r
    }
}

impl EngineModel {
    /// A looper command is meant for loopers that there are.
    pub proof fn lemma_addressed(self, target: LooperTarget)
        requires
            self.loopers.len() <= usize::MAX,
        ensures
            forall|k: int|
                0 <= k < self.addressed(target).len() ==> (#[trigger] self.addressed(target)[k])
                    < self.loopers.len(),
    {
        match target {
            LooperTarget::Id(id) => lemma_positions(self.loopers, Selector::WithId(id)),
            LooperTarget::Index(_) => lemma_positions(self.loopers, Selector::Live),
            LooperTarget::All => lemma_positions(self.loopers, Selector::Any),
            LooperTarget::AllSync => lemma_positions(self.loopers, Selector::Any),
            LooperTarget::Selected => lemma_positions(
                self.loopers,
                Selector::WithId(self.active),
            ),
        }
    }

    /// No looper has a higher id than the highest.
    pub proof fn lemma_highest_id(loopers: Seq<Looper>)
        ensures
            forall|i: int|
                0 <= i < loopers.len() ==> (#[trigger] loopers[i]).id <= EngineModel::highest_id(
                    loopers,
                ),
        decreases loopers.len(),
    {
        if loopers.len() > 0 {
            EngineModel::lemma_highest_id(loopers.drop_last());
            assert forall|i: int| 0 <= i < loopers.len() implies (#[trigger] loopers[i]).id
                <= EngineModel::highest_id(loopers) by {
                if i < loopers.len() - 1 {
                    assert(loopers.drop_last()[i] == loopers[i]);
                }
            }
        }
    }
}

/// The triggers that are left after some steps are among those that waited.
proof fn lemma_left_over_waits(triggers: Seq<Trigger>, now: int, end: int)
    requires
        forall|i: int| 0 <= i < triggers.len() ==> can_wait((#[trigger] triggers[i]).command),
    ensures
        left_over(triggers, now, end).len() <= triggers.len(),
        forall|i: int|
            0 <= i < left_over(triggers, now, end).len() ==> can_wait(
                (#[trigger] left_over(triggers, now, end)[i]).command,
            ),
    decreases triggers.len(),
{
    if now < end && triggers.len() > 0 && triggers[0].triggered_at.0 < end {
        let rest = triggers.drop_first();
        assert forall|i: int| 0 <= i < rest.len() implies can_wait(
            (#[trigger] rest[i]).command,
        ) by {
            assert(rest[i] == triggers[i + 1]);
        }
        lemma_left_over_waits(rest, now, end);
        lemma_left_over_waits(rest, triggers[0].triggered_at.0 as int, end);
    }
}

} // verus!
