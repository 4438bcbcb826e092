//! The engine as a mathematical object: its state, and what each command does
//! to it.

use vstd::prelude::*;

use crate::action::Action;
use crate::api::{
    Command, EngineMode, EngineState, EngineSwitchingOrder, FrameTime, LooperCommand, LooperMode,
    LooperTarget, MetricStructure, Part, QuantizationMode,
};
use crate::config::MidiOutMapping;
use crate::looper::{positions, Looper, Selector};
use crate::midi::MidiEngineStateSnapshot;
use crate::period::{EngineStateSnapshot, Levels, LooperIo, METERS};
use crate::schedule::{period_left_over, period_steps, Step};
use crate::session::SavedSession;
use crate::trigger::{
    awaited, latest, mode_condition, Trigger, TriggerCondition, TriggerTimes, TRIGGER_LIMIT,
};

verus! {

/// The state of the engine.
#[verifier::ext_equal]
pub struct EngineModel {
    pub state: EngineState,
    pub mode: EngineMode,
    pub switching_order: EngineSwitchingOrder,
    pub time: int,
    pub metric_structure: MetricStructure,
    pub loopers: Seq<Looper>,
    /// The id of the active looper.
    pub active: u32,
    pub current_part: Part,
    pub sync_mode: QuantizationMode,
    pub triggers: Seq<Trigger>,
    /// The id that the next new looper gets.
    pub id_counter: int,
    pub midi_out_mappings: Seq<MidiOutMapping>,
}

/// What a command leads to: the engine afterwards, and what the parts around it
/// have to do, in order.
#[verifier::ext_equal]
pub struct Outcome {
    pub engine: EngineModel,
    pub actions: Seq<Action>,
}

/// Whether a command may be put off until a later moment.
pub open spec fn can_wait(command: Command) -> bool {
    match command {
        Command::Looper(_, _) => true,
        _ => can_wait_globally(command),
    }
}

/// Whether a command concerns the engine as a whole and may be put off.
pub open spec fn can_wait_globally(command: Command) -> bool {
    match command {
        Command::SelectNextLooper => true,
        Command::SelectPreviousLooper => true,
        Command::PreviousPart => true,
        Command::NextPart => true,
        Command::GoToPart(_) => true,
        Command::ToggleMode => true,
        _ => false,
    }
}

/// Whether a command that is put off is merely queued, whatever the
/// quantization mode.
pub open spec fn only_queued(command: Command) -> bool {
    match command {
        Command::SelectNextLooper => true,
        Command::SelectPreviousLooper => true,
        Command::ToggleMode => true,
        _ => false,
    }
}

impl EngineModel {
    /// What holds of every engine: no more triggers wait than may, and those
    /// that do hold commands that can.
    pub open spec fn wf(self) -> bool {
        &&& self.triggers.len() <= TRIGGER_LIMIT
        &&& forall|i: int|
            0 <= i < self.triggers.len() ==> can_wait((#[trigger] self.triggers[i]).command)
        &&& self.loopers.len() <= usize::MAX
        &&& i64::MIN <= self.time <= i64::MAX
        &&& 0 <= self.id_counter <= u32::MAX
    }

    /// The ids of the live loopers in the current part, in order.
    pub open spec fn members(self) -> Seq<u32> {
        positions(self.loopers, Selector::LiveIn(self.current_part)).map_values(
            |p: usize| self.loopers[p as int].id,
        )
    }

    // ---- Looper commands ----

    /// The positions of the loopers that a looper command is meant for.
    pub open spec fn addressed(self, target: LooperTarget) -> Seq<usize> {
        match target {
            LooperTarget::Id(id) => first(positions(self.loopers, Selector::WithId(id))),
            LooperTarget::Index(i) => nth(positions(self.loopers, Selector::Live), i as int),
            LooperTarget::All => positions(self.loopers, Selector::Any),
            LooperTarget::AllSync => positions(self.loopers, Selector::Any),
            LooperTarget::Selected => first(
                positions(self.loopers, Selector::WithId(self.active)),
            ),
        }
    }

    /// What a command to the looper at a position waits for; nothing where it
    /// applies at once.
    pub open spec fn waits_for(
        self,
        position: usize,
        command: LooperCommand,
        triggered: bool,
    ) -> Option<TriggerCondition> {
        if triggered {
            None
        } else {
            awaited(self.sync_mode, command, self.loopers[position as int])
        }
    }

    /// What is done about a command to the looper at a position.
    pub open spec fn looper_action(
        self,
        position: usize,
        command: LooperCommand,
        target: LooperTarget,
        triggered: bool,
        times: TriggerTimes,
    ) -> Action {
        match self.waits_for(position, command, triggered) {
            Some(condition) => Action::ShowLoopTrigger {
                looper: self.loopers[position as int].id,
                at: times.at(condition),
                command,
            },
            None => Action::Looper {
                position,
                command,
                loop_sync: target == LooperTarget::AllSync && position != 0,
            },
        }
    }

    /// The triggers that a looper command leaves behind for the loopers at some
    /// positions.
    pub open spec fn put_off(
        self,
        at: Seq<usize>,
        command: LooperCommand,
        target: LooperTarget,
        triggered: bool,
        times: TriggerTimes,
    ) -> Seq<Trigger>
        decreases at.len(),
    {
        if at.len() == 0 {
            Seq::empty()
        } else {
            let before = self.put_off(at.drop_last(), command, target, triggered, times);
            match self.waits_for(at.last(), command, triggered) {
                Some(condition) => before.push(
                    Trigger {
                        triggered_at: times.at(condition),
                        command: Command::Looper(command, target),
                    },
                ),
                None => before,
            }
        }
    }

    /// A looper command: each looper that it is meant for carries it out, or a
    /// trigger waits for it. Naming a looper by its index also makes it active.
    pub open spec fn after_looper_command(
        self,
        command: LooperCommand,
        target: LooperTarget,
        triggered: bool,
        times: TriggerTimes,
    ) -> Outcome {
        let at = self.addressed(target);
        Outcome {
            engine: EngineModel {
                triggers: latest(
                    self.triggers + self.put_off(at, command, target, triggered, times),
                ),
                active: if target is Index && at.len() > 0 {
                    self.loopers[at[0] as int].id
                } else {
                    self.active
                },
                ..self
            },
            actions: at.map_values(
                |p: usize| self.looper_action(p, command, target, triggered, times),
            ),
        }
    }

    // ---- Time ----

    /// Moving to a time takes the loopers along.
    pub open spec fn after_set_time(self, time: FrameTime) -> Outcome {
        Outcome {
            engine: EngineModel { time: time.0 as int, ..self },
            actions: seq![Action::SetLooperTimes(time)],
        }
    }

    /// A reset drops what is waiting, goes back to the start, and lets every
    /// looper play.
    pub open spec fn after_reset(self) -> Outcome {
        Outcome {
            engine: EngineModel { time: 0, triggers: Seq::empty(), ..self },
            actions: seq![Action::ResetMetronome, Action::SetLooperTimes(FrameTime(0))]
                + self.all_play(),
        }
    }

    /// Every looper is told to play.
    pub open spec fn all_play(self) -> Seq<Action> {
        positions(self.loopers, Selector::Any).map_values(|p: usize| play(p))
    }

    /// A new metric structure goes to the metronome, and the engine is reset.
    pub open spec fn after_metric_structure(self, ms: MetricStructure) -> Outcome {
        let reset = EngineModel { metric_structure: ms, ..self }.after_reset();
        Outcome {
            engine: reset.engine,
            actions: seq![Action::SetMetronomeStructure(ms)] + reset.actions,
        }
    }

    // ---- Selection ----

    /// With another active looper.
    pub open spec fn with_active(self, id: u32) -> EngineModel {
        EngineModel { active: id, ..self }
    }

    /// The active looper gives way to its neighbour among the live loopers of
    /// the current part, around the end; to the first of them where it is not
    /// one of them.
    pub open spec fn after_select_neighbour(self, forward: bool) -> EngineModel {
        let ids = self.members();
        let n = ids.len() as int;
        if n == 0 {
            self
        } else if ids.contains(self.active) {
            let i = first_index(ids, self.active);
            if forward {
                self.with_active(ids[(i + 1) % n])
            } else {
                self.with_active(ids[(i + n - 1) % n])
            }
        } else {
            self.with_active(ids[0])
        }
    }

    /// Whether the active looper is in the current part.
    pub open spec fn active_in_part(self) -> bool {
        exists|i: int|
            0 <= i < self.loopers.len() && (#[trigger] self.loopers[i]).id == self.active
                && self.loopers[i].parts.has(self.current_part)
    }

    /// The first looper of the current part becomes active, unless the active
    /// one is already in the part or nothing is.
    pub open spec fn after_select_first(self) -> EngineModel {
        if self.active_in_part() || self.members().len() == 0 {
            self
        } else {
            self.with_active(self.members()[0])
        }
    }

    /// Whether a live looper plays in a part.
    pub open spec fn occupied(self, part: Part) -> bool {
        exists|i: int|
            0 <= i < self.loopers.len() && Selector::LiveIn(part).picks(#[trigger] self.loopers[i])
    }

    /// The nearest part ahead that a live looper plays in; the current one
    /// where there is no other.
    pub open spec fn part_ahead(self) -> Part {
        let p1 = self.current_part.spec_next();
        let p2 = p1.spec_next();
        let p3 = p2.spec_next();
        if self.occupied(p1) {
            p1
        } else if self.occupied(p2) {
            p2
        } else if self.occupied(p3) {
            p3
        } else {
            self.current_part
        }
    }

    /// The nearest part behind that a live looper plays in; the current one
    /// where there is no other.
    pub open spec fn part_behind(self) -> Part {
        let p1 = self.current_part.spec_previous();
        let p2 = p1.spec_previous();
        let p3 = p2.spec_previous();
        if self.occupied(p1) {
            p1
        } else if self.occupied(p2) {
            p2
        } else if self.occupied(p3) {
            p3
        } else {
            self.current_part
        }
    }

    /// Going to a part selects its first looper, unless the active one is in it.
    pub open spec fn after_part(self, part: Part) -> EngineModel {
        EngineModel { current_part: part, ..self }.after_select_first()
    }

    /// Whether leaving the record mode ends what the looper is doing.
    pub open spec fn interrupted(looper: Looper) -> bool {
        !looper.deleted && (looper.mode == LooperMode::Recording || looper.mode
            == LooperMode::Overdubbing || looper.mode == LooperMode::Armed)
    }

    /// The positions of the loopers that have to play when the record mode
    /// ends.
    pub open spec fn interrupted_at(loopers: Seq<Looper>) -> Seq<usize>
        decreases loopers.len(),
    {
        if loopers.len() == 0 {
            Seq::empty()
        } else {
            let before = EngineModel::interrupted_at(loopers.drop_last());
            if EngineModel::interrupted(loopers.last()) {
                before.push((loopers.len() - 1) as usize)
            } else {
                before
            }
        }
    }

    /// Switches between recording and playing. Loopers that are recording,
    /// overdubbing or armed play when the engine leaves the record mode.
    pub open spec fn after_toggle(self) -> Outcome {
        if self.mode == EngineMode::Record {
            Outcome {
                engine: EngineModel { mode: EngineMode::Play, ..self },
                actions: EngineModel::interrupted_at(self.loopers).map_values(|p: usize| play(p)),
            }
        } else {
            Outcome {
                engine: EngineModel { mode: EngineMode::Record, ..self },
                actions: Seq::empty(),
            }
        }
    }

    // ---- Commands that may be put off ----

    /// What such a command does when it runs.
    pub open spec fn after_run(self, command: Command) -> Outcome {
        match command {
            Command::SelectNextLooper => quietly(self.after_select_neighbour(true)),
            Command::SelectPreviousLooper => quietly(self.after_select_neighbour(false)),
            Command::PreviousPart => quietly(self.after_part(self.part_behind())),
            Command::NextPart => quietly(self.after_part(self.part_ahead())),
            Command::GoToPart(part) => quietly(self.after_part(part)),
            Command::ToggleMode => self.after_toggle(),
            _ => quietly(self),
        }
    }

    /// What such a command waits for.
    pub open spec fn global_condition(self, command: Command) -> TriggerCondition {
        if only_queued(command) {
            TriggerCondition::Immediate
        } else {
            mode_condition(self.sync_mode)
        }
    }

    /// Whether such a command runs at once: while the engine is stopped, when
    /// its trigger has come, or when its time has passed already.
    pub open spec fn runs_now(self, command: Command, triggered: bool, times: TriggerTimes) -> bool {
        let at = times.at(self.global_condition(command));
        self.state == EngineState::Stopped || triggered || (at != FrameTime(0) && at.0 < self.time)
    }

    /// Such a command runs at once, or a trigger waits for it.
    pub open spec fn after_global(
        self,
        command: Command,
        triggered: bool,
        times: TriggerTimes,
    ) -> Outcome {
        let at = times.at(self.global_condition(command));
        if self.runs_now(command, triggered, times) {
            self.after_run(command)
        } else {
            Outcome {
                engine: EngineModel {
                    triggers: latest(self.triggers.push(Trigger { triggered_at: at, command })),
                    ..self
                },
                actions: seq![Action::ShowGlobalTrigger { at, command }],
            }
        }
    }

    // ---- All commands ----

    /// Whether the engine can take a command: a command is only put off where
    /// there is a first looper to set the time by, and a new looper needs a new
    /// id.
    pub open spec fn takes(self, command: Command, triggered: bool) -> bool {
        &&& can_wait_globally(command) && self.state != EngineState::Stopped && !triggered
            ==> self.loopers.len() > 0
        &&& command is AddLooper ==> self.id_counter < u32::MAX
    }

    /// What a command does.
    pub open spec fn after(self, command: Command, triggered: bool, times: TriggerTimes) -> Outcome {
        match command {
            Command::Looper(lc, target) => self.after_looper_command(lc, target, triggered, times),
            Command::Start => quietly(EngineModel { state: EngineState::Active, ..self }),
            Command::Pause => quietly(EngineModel { state: EngineState::Paused, ..self }),
            Command::Stop => EngineModel { state: EngineState::Stopped, ..self }.after_reset(),
            Command::StartStop => if self.state == EngineState::Active {
                EngineModel { state: EngineState::Stopped, ..self }.after_reset()
            } else {
                quietly(EngineModel { state: EngineState::Active, ..self })
            },
            Command::PlayPause => quietly(
                EngineModel {
                    state: if self.state == EngineState::Active {
                        EngineState::Paused
                    } else {
                        EngineState::Active
                    },
                    ..self
                },
            ),
            Command::Reset => self.after_reset(),
            Command::SetTime(time) => self.after_set_time(time),
            Command::AddLooper => Outcome {
                engine: EngineModel {
                    active: self.id_counter as u32,
                    id_counter: self.id_counter + 1,
                    ..self
                },
                actions: seq![
                    Action::CreateLooper { id: self.id_counter as u32, part: self.current_part },
                ],
            },
            Command::SelectLooperById(id) => quietly(
                if positions(self.loopers, Selector::WithId(id)).len() > 0 {
                    self.with_active(id)
                } else {
                    self
                },
            ),
            Command::SelectLooperByIndex(i) => quietly(
                if i < positions(self.loopers, Selector::Live).len() {
                    self.with_active(
                        self.loopers[positions(self.loopers, Selector::Live)[i as int] as int].id,
                    )
                } else {
                    self
                },
            ),
            Command::SetQuantizationMode(mode) => quietly(EngineModel { sync_mode: mode, ..self }),
            Command::SaveSession(path) => Outcome {
                engine: self,
                actions: seq![
                    Action::SaveSession {
                        metric_structure: self.metric_structure,
                        sync_mode: self.sync_mode,
                        path,
                    },
                ],
            },
            Command::LoadSession(path) => Outcome {
                engine: self,
                actions: seq![Action::LoadSession { path }],
            },
            Command::SetMetronomeLevel(level) => Outcome {
                engine: self,
                actions: if level <= 100 {
                    seq![Action::SetMetronomeLevel(level)]
                } else {
                    Seq::empty()
                },
            },
            Command::SetTempoBPM(bpm) => Outcome {
                engine: self,
                actions: seq![Action::WorkOutTempo { bpm }],
            },
            Command::ChangeTempoBPM(delta) => Outcome {
                engine: self,
                actions: seq![
                    Action::WorkOutTempoChange { tempo: self.metric_structure.tempo, delta },
                ],
            },
            Command::SetTimeSignature(upper, lower) => Outcome {
                engine: self,
                actions: seq![Action::WorkOutTimeSignature { upper, lower }],
            },
            _ => self.after_global(command, triggered, times),
        }
    }

    // ---- Waiting times ----

    /// Whether carrying out a command makes use of the time that a condition
    /// leads to.
    pub open spec fn asks(
        self,
        command: Command,
        triggered: bool,
        condition: TriggerCondition,
    ) -> bool {
        match command {
            Command::Looper(lc, target) => exists|k: int|
                0 <= k < self.addressed(target).len() && self.waits_for(
                    #[trigger] self.addressed(target)[k],
                    lc,
                    triggered,
                ) == Some(condition),
            _ => can_wait_globally(command) && self.state != EngineState::Stopped && !triggered
                && self.global_condition(command) == condition,
        }
    }

    /// The length of the loop by which a command's time is set. The first looper
    /// sets it; but not for a command to a single looper that is alone, nor for
    /// one to all loopers.
    pub open spec fn base_length(self, command: Command) -> u64 {
        match command {
            Command::Looper(_, LooperTarget::All) => 0,
            Command::Looper(_, LooperTarget::AllSync) => 0,
            Command::Looper(_, _) => if self.loopers.len() > 1 {
                self.loopers[0].length
            } else {
                0
            },
            _ => if self.loopers.len() > 0 {
                self.loopers[0].length
            } else {
                0
            },
        }
    }

    /// Where the loop begins by which a command's time is set.
    pub open spec fn base_offset(self, command: Command) -> FrameTime {
        match command {
            Command::Looper(_, _) => if self.loopers.len() > 1 {
                self.loopers[0].offset
            } else {
                FrameTime(0)
            },
            _ => if self.loopers.len() > 0 {
                self.loopers[0].offset
            } else {
                FrameTime(0)
            },
        }
    }

    // ---- Periods ----

    /// The modes of the first live loopers.
    pub open spec fn looper_modes(self, count: int) -> Seq<LooperMode> {
        let at = positions(self.loopers, Selector::Live);
        Seq::new(count as nat, |k: int| self.loopers[at[k] as int].mode)
    }

    /// Deleted loopers are removed.
    pub open spec fn after_removal(self) -> EngineModel {
        EngineModel { loopers: self.loopers.filter(|l: Looper| !l.deleted), ..self }
    }

    /// The ids of the deleted loopers, in order.
    pub open spec fn removed(self) -> Seq<u32> {
        self.loopers.filter(|l: Looper| l.deleted).map_values(|l: Looper| l.id)
    }

    /// Whether a looper has begun to record or overdub.
    pub open spec fn capturing(self) -> bool {
        exists|i: int|
            0 <= i < self.loopers.len() && ((#[trigger] self.loopers[i]).local_mode
                == LooperMode::Recording || self.loopers[i].local_mode == LooperMode::Overdubbing)
    }

    /// A stopped engine starts by itself when something waits or is being
    /// recorded.
    pub open spec fn after_wake(self) -> EngineModel {
        if self.state == EngineState::Stopped && (self.triggers.len() > 0 || self.capturing()) {
            EngineModel { state: EngineState::Active, ..self }
        } else {
            self
        }
    }

    /// The engine at the beginning of a period.
    pub open spec fn at_period(self) -> EngineModel {
        self.after_removal().after_wake()
    }

    /// Whether the times of a period of some frames can be counted.
    pub open spec fn has_time_for(self, frames: u64) -> bool {
        &&& frames <= i64::MAX
        &&& frames <= usize::MAX
        &&& self.at_period().state == EngineState::Active ==> self.time + frames <= i64::MAX
    }

    /// Whether a live looper in the current part plays solo.
    pub open spec fn soloing(self) -> bool {
        exists|i: int|
            0 <= i < self.loopers.len() && Selector::LiveIn(self.current_part).picks(
                #[trigger] self.loopers[i],
            ) && self.loopers[i].mode == LooperMode::Soloed
    }

    /// The engine after the steps of a period were planned.
    pub open spec fn after_planning(self, frames: int) -> EngineModel {
        let m = self.at_period();
        if m.state == EngineState::Active {
            EngineModel { triggers: period_left_over(m.triggers, m.time, frames), ..m }
        } else {
            m
        }
    }

    /// The steps of a period.
    pub open spec fn planned(self, frames: int) -> Seq<Step> {
        let m = self.at_period();
        if m.state == EngineState::Active {
            period_steps(m.triggers, m.time, frames)
        } else {
            Seq::empty()
        }
    }

    /// The part of the looper at a position, which is the `k`th live one, in
    /// playing and recording.
    pub open spec fn looper_io(self, position: usize, k: int) -> LooperIo {
        LooperIo {
            position,
            id: self.loopers[position as int].id,
            meter: if k < METERS {
                Some(k as usize)
            } else {
                None
            },
        }
    }

    /// The live loopers play and record, in order; the first of them have a
    /// meter.
    pub open spec fn looper_ios(self) -> Seq<LooperIo> {
        let at = positions(self.loopers, Selector::Live);
        Seq::new(at.len(), |k: int| self.looper_io(at[k], k))
    }

    /// Time moves on with the frames of an active engine.
    pub open spec fn after_frames(self, active: bool, frames: int) -> EngineModel {
        if active {
            EngineModel { time: self.time + frames, ..self }
        } else {
            self
        }
    }

    /// The engine summed up for the MIDI output, whose numbers go up to 255.
    pub open spec fn midi_snapshot(self, levels: Levels) -> MidiEngineStateSnapshot {
        MidiEngineStateSnapshot {
            engine_state: self.state,
            engine_mode: self.mode,
            sync_mode: self.sync_mode,
            metronome: levels.metronome_midi,
            active_looper: (self.active % 256) as u8,
            part: self.current_part.spec_index(),
            looper_count: (self.loopers.len() % 256) as u8,
        }
    }

    /// The engine summed up for display.
    pub open spec fn snapshot(self, solo: bool, levels: Levels) -> EngineStateSnapshot {
        EngineStateSnapshot {
            engine_state: self.state,
            engine_mode: self.mode,
            engine_switching_order: self.switching_order,
            time: FrameTime(self.time as i64),
            metric_structure: self.metric_structure,
            active_looper: self.active,
            looper_count: self.loopers.len() as usize,
            part: self.current_part,
            solo,
            sync_mode: self.sync_mode,
            input_levels: levels.input,
            looper_levels: levels.loopers,
            metronome_volume: levels.metronome,
        }
    }

    // ---- Sessions ----

    /// The engine when a session begins to load; unchanged where the session's
    /// metric structure makes no sense.
    pub open spec fn after_session_start(self, session: SavedSession) -> EngineModel {
        match session.metric_structure {
            Ok(ms) => EngineModel {
                metric_structure: ms,
                sync_mode: session.sync_mode,
                loopers: Seq::empty(),
                ..self
            },
            Err(_) => self,
        }
    }

    /// What the beginning of a session asks for.
    pub open spec fn session_actions(self, session: SavedSession, sample_rate: usize) -> Seq<
        Action,
    > {
        let reports = if session.sample_rate != sample_rate {
            seq![Action::ReportSampleRate { saved: session.sample_rate, system: sample_rate }]
        } else {
            Seq::empty()
        };
        match session.metric_structure {
            Ok(_) => reports + seq![
                Action::SetMetronomeLevel(
                    if session.metronome_volume > 100 {
                        100
                    } else {
                        session.metronome_volume
                    },
                ),
            ] + self.loopers.map_values(|l: Looper| Action::RemoveLooper(l.id)),
            Err(_) => reports,
        }
    }

    /// The highest id of some loopers; 0 where there are none.
    pub open spec fn highest_id(loopers: Seq<Looper>) -> u32
        decreases loopers.len(),
    {
        if loopers.len() == 0 {
            0
        } else {
            let before = EngineModel::highest_id(loopers.drop_last());
            if loopers.last().id > before {
                loopers.last().id
            } else {
                before
            }
        }
    }

    /// Whether every looper has an id that was given out already.
    pub open spec fn ids_given_out(self) -> bool {
        forall|i: int| 0 <= i < self.loopers.len() ==> (#[trigger] self.loopers[i]).id
            < self.id_counter
    }

    /// Whether no two loopers have the same id.
    pub open spec fn ids_differ(self) -> bool {
        forall|i: int, j: int|
            0 <= i < j < self.loopers.len() ==> (#[trigger] self.loopers[i]).id != (
            #[trigger] self.loopers[j]).id
    }

    /// When the loopers of a session are all restored, new ids follow the
    /// highest of theirs, and the engine is reset.
    pub open spec fn after_session(self) -> Outcome {
        EngineModel {
            id_counter: EngineModel::highest_id(self.loopers) + 1,
            ..self
        }.after_reset()
    }
}

/// The first of some positions, if there is one.
pub open spec fn first(at: Seq<usize>) -> Seq<usize> {
    nth(at, 0)
}

/// The position at a place, if there is one.
pub open spec fn nth(at: Seq<usize>, i: int) -> Seq<usize> {
    if i < at.len() {
        seq![at[i]]
    } else {
        Seq::empty()
    }
}

/// The first place at which an id stands.
pub open spec fn first_index(ids: Seq<u32>, id: u32) -> int {
    choose|i: int| is_first_index(ids, id, i)
}

/// Whether an id stands at a place and nowhere before it.
pub open spec fn is_first_index(ids: Seq<u32>, id: u32, i: int) -> bool {
    0 <= i < ids.len() && ids[i] == id && forall|j: int| 0 <= j < i ==> ids[j] != id
}

/// The looper at a position is told to play.
pub open spec fn play(position: usize) -> Action {
    Action::Looper { position, command: LooperCommand::Play, loop_sync: false }
}

/// A change that asks nothing of the parts around the engine.
pub open spec fn quietly(engine: EngineModel) -> Outcome {
    Outcome { engine, actions: Seq::empty() }
}

} // verus!
