//! What a period of audio and a saved session lead to, in terms of the engine
//! before and after.

use vstd::prelude::*;

use crate::action::Action;
use crate::api::{
    Command, EngineState, FrameTime, LooperCommand, LooperMode, MetricStructure,
};
use crate::command_laws::{live_before, lemma_live_count, lemma_live_place, place, plays_in};
use crate::looper::{lemma_positions_any, positions, Looper, Selector};
use crate::model::EngineModel;
use crate::period::{Levels, LooperIo};
use crate::schedule::{
    covers, law_commands_run_in_order, law_due_commands_leave,
    law_only_overtaken_commands_are_dropped, law_period_covered, law_turns_end_at_commands,
    left_over, lemma_period_on_time, on_time, overtaken, runs, stand_in, steps,
    turns_end_at_commands,
};
use crate::session::SavedSession;
use crate::trigger::{Trigger, TriggerTimes};

verus! {

/// The later of a time and the start of the piece.
pub open spec fn not_before_start(time: int) -> int {
    if time > 0 {
        time
    } else {
        0
    }
}

/// Whether a looper that is not deleted has begun to record or overdub.
pub open spec fn something_records(engine: EngineModel) -> bool {
    exists|i: int|
        0 <= i < engine.loopers.len() && !(#[trigger] engine.loopers[i]).deleted && (
        engine.loopers[i].local_mode == LooperMode::Recording || engine.loopers[i].local_mode
            == LooperMode::Overdubbing)
}

// ---- Periods ----

/// A period begins with the deleted loopers leaving; a stopped engine starts if
/// anything waits or records, and a paused one stays paused. Nothing else about
/// the engine changes but the queue.
pub proof fn law_period_begins(engine: EngineModel, frames: int)
    ensures
        ({
            let m = engine.after_planning(frames);
            let starts = engine.state == EngineState::Stopped && (engine.triggers.len() > 0
                || something_records(engine));
            &&& m.loopers == engine.loopers.filter(|l: Looper| !l.deleted)
            &&& engine.removed() == engine.loopers.filter(|l: Looper| l.deleted).map_values(
                |l: Looper| l.id,
            )
            &&& m.state == if starts {
                EngineState::Active
            } else {
                engine.state
            }
            &&& engine.at_period().state == m.state
            &&& m == (EngineModel {
                loopers: m.loopers,
                state: m.state,
                triggers: m.triggers,
                ..engine
            })
            &&& m.state != EngineState::Active ==> m.triggers == engine.triggers && engine.planned(
                frames,
            ).len() == 0
        }),
{
    lemma_records(engine);
}

proof fn lemma_records(engine: EngineModel)
    ensures
        engine.after_removal().capturing() == something_records(engine),
{
    let kept = |l: Looper| !l.deleted;
    let left = engine.loopers.filter(kept);
    assert(left == engine.after_removal().loopers);
    if something_records(engine) {
        let i = choose|i: int|
            0 <= i < engine.loopers.len() && !(#[trigger] engine.loopers[i]).deleted && (
            engine.loopers[i].local_mode == LooperMode::Recording || engine.loopers[i].local_mode
                == LooperMode::Overdubbing);
        engine.loopers.lemma_filter_contains(kept, i);
        let k = left.index_of(engine.loopers[i]);
        assert(left[k] == engine.loopers[i]);
    }
    if engine.after_removal().capturing() {
        let k = choose|k: int|
            0 <= k < left.len() && ((#[trigger] left[k]).local_mode == LooperMode::Recording
                || left[k].local_mode == LooperMode::Overdubbing);
        engine.loopers.lemma_filter_pred(kept, k);
        assert(left.contains(left[k]));
        engine.loopers.lemma_filter_contains_rev(kept, left[k]);
        let i = engine.loopers.index_of(left[k]);
        assert(engine.loopers[i] == left[k]);
    }
}

/// Only soloing loopers are heard just when one that is not deleted solos in the
/// current part.
pub proof fn law_solo(engine: EngineModel)
    ensures
        engine.at_period().soloing() <==> exists|i: int|
            0 <= i < engine.loopers.len() && plays_in(
                #[trigger] engine.loopers[i],
                engine.current_part,
            ) && engine.loopers[i].mode == LooperMode::Soloed,
{
    let kept = |l: Looper| !l.deleted;
    let left = engine.loopers.filter(kept);
    let m = engine.at_period();
    assert(m.loopers == left);
    if m.soloing() {
        let k = choose|k: int|
            0 <= k < m.loopers.len() && Selector::LiveIn(m.current_part).picks(
                #[trigger] m.loopers[k],
            ) && m.loopers[k].mode == LooperMode::Soloed;
        assert(left.contains(left[k]));
        engine.loopers.lemma_filter_contains_rev(kept, left[k]);
        let i = engine.loopers.index_of(left[k]);
        assert(plays_in(engine.loopers[i], engine.current_part));
    }
    if exists|i: int|
        0 <= i < engine.loopers.len() && plays_in(#[trigger] engine.loopers[i], engine.current_part)
            && engine.loopers[i].mode == LooperMode::Soloed {
        let i = choose|i: int|
            0 <= i < engine.loopers.len() && plays_in(
                #[trigger] engine.loopers[i],
                engine.current_part,
            ) && engine.loopers[i].mode == LooperMode::Soloed;
        engine.loopers.lemma_filter_contains(kept, i);
        let k = left.index_of(engine.loopers[i]);
        assert(Selector::LiveIn(m.current_part).picks(m.loopers[k]));
    }
}

/// In a period of a running engine the loopers get every frame once and in order,
/// but for those before the start of the piece; and every command that runs does
/// so at its own time, or without waiting.
pub proof fn law_running_period(engine: EngineModel, frames: int)
    requires
        i64::MIN <= engine.time,
        0 <= frames <= usize::MAX,
        engine.time + frames <= i64::MAX,
        engine.at_period().state == EngineState::Active,
    ensures
        on_time(engine.planned(frames), not_before_start(engine.time)),
        turns_end_at_commands(engine.planned(frames)),
        engine.time + frames >= 0 ==> covers(
            engine.planned(frames),
            engine.time,
            not_before_start(engine.time) - engine.time,
            frames,
        ),
        engine.time + frames < 0 ==> engine.planned(frames).len() == 0,
{
    law_period_covered(engine.triggers, engine.time, frames);
    lemma_period_on_time(engine.triggers, engine.time, frames);
    law_turns_end_at_commands(
        engine.triggers,
        engine.time,
        not_before_start(engine.time),
        engine.time + frames,
    );
}

/// Whether the time of a waiting command has passed when its turn comes: it lies
/// before the period, or before that of a command ahead of it in the queue. Time
/// 0 means without waiting, and never passes.
pub open spec fn passed(engine: EngineModel, i: int) -> bool {
    let at = engine.triggers[i].triggered_at.0;
    &&& at != 0
    &&& at < not_before_start(engine.time) || exists|j: int|
        0 <= j < i && at < (#[trigger] engine.triggers[j]).triggered_at.0
}

/// In a period of a running engine the queue is worked off from its front, as far
/// as it is due before the end of the period. What is worked off runs, in the
/// order of the queue and once, unless its time had passed.
pub proof fn law_queue_is_worked_off(engine: EngineModel, frames: int)
    requires
        engine.at_period().state == EngineState::Active,
        not_before_start(engine.time) < engine.time + frames,
    ensures
        ({
            let left = engine.after_planning(frames).triggers;
            let n = engine.triggers.len() - left.len();
            let ran = runs(engine.planned(frames));
            &&& 0 <= n
            &&& left == engine.triggers.skip(n)
            &&& forall|i: int|
                0 <= i < n ==> (#[trigger] engine.triggers[i]).triggered_at.0 < engine.time + frames
            &&& left.len() > 0 ==> left[0].triggered_at.0 >= engine.time + frames
            &&& exists|places: Seq<int>| stand_in(ran, engine.triggers, places, left.len())
            &&& forall|i: int|
                0 <= i < n ==> ran.contains(#[trigger] engine.triggers[i]) || passed(engine, i)
        }),
{
    let now = not_before_start(engine.time);
    let end = engine.time + frames;
    law_due_commands_leave(engine.triggers, now, end);
    law_only_overtaken_commands_are_dropped(engine.triggers, engine.time, now, end);
    law_commands_run_in_order(engine.triggers, engine.time, now, end);
    let left = engine.after_planning(frames).triggers;
    let ran = runs(engine.planned(frames));
    assert(left == left_over(engine.triggers, now, end));
    assert(engine.planned(frames) == steps(engine.triggers, engine.time, now, end));
    let places = choose|places: Seq<int>| stand_in(ran, engine.triggers, places, left.len());
    assert(stand_in(ran, engine.triggers, places, left.len()));
    assert forall|i: int| 0 <= i < engine.triggers.len() - left.len() implies ran.contains(
        #[trigger] engine.triggers[i],
    ) || passed(engine, i) by {
        assert(ran.contains(engine.triggers[i]) || overtaken(engine.triggers, i, now));
    }
}

/// Before the start of the piece, nothing is worked off.
pub proof fn law_count_in_waits(engine: EngineModel, frames: int)
    requires
        not_before_start(engine.time) >= engine.time + frames,
    ensures
        engine.after_planning(frames).triggers == engine.triggers,
        engine.planned(frames).len() == 0,
{
}

/// The clock moves on by just the frames of a period that runs, whatever else
/// the engine is doing, and stands still in one that does not; the end of a
/// period changes nothing else.
pub proof fn law_clock_counts_the_frames(engine: EngineModel, active: bool, frames: int)
    ensures
        engine.after_frames(active, frames).time - engine.time == if active {
            frames
        } else {
            0
        },
        engine.after_frames(active, frames) == (EngineModel {
            time: engine.after_frames(active, frames).time,
            ..engine
        }),
{
}

/// Periods join up: where a running engine ends one period, the next one begins,
/// so that together they give the loopers every frame of both once, in order and
/// at its proper time. `ran` is the engine after the commands of the first
/// period, which leave the clock and the state alone.
pub proof fn law_periods_join(engine: EngineModel, ran: EngineModel, first: int, second: int)
    requires
        i64::MIN <= engine.time,
        0 <= first <= usize::MAX,
        0 <= second <= usize::MAX,
        engine.time + first + second <= i64::MAX,
        0 <= engine.time + first,
        engine.at_period().state == EngineState::Active,
        ran.time == engine.after_planning(first).time,
        ran.state == engine.after_planning(first).state,
    ensures
        ({
            let next = ran.after_frames(true, first);
            &&& next.time == engine.time + first
            &&& covers(
                engine.planned(first),
                engine.time,
                not_before_start(engine.time) - engine.time,
                first,
            )
            &&& covers(next.planned(second), engine.time + first, 0, second)
        }),
{
    let next = ran.after_frames(true, first);
    law_running_period(engine, first);
    law_running_period(next, second);
}

/// In a turn of the loopers each one that is not deleted takes part, in order,
/// and the first 64 of them have a meter each.
pub proof fn law_loopers_take_part(engine: EngineModel, p: int)
    requires
        engine.loopers.len() <= usize::MAX,
    ensures
        engine.looper_ios().len() == live_before(engine, engine.loopers.len() as int),
        0 <= p < engine.loopers.len() && !engine.loopers[p].deleted ==> {
            let k = live_before(engine, p);
            engine.looper_ios()[k as int] == (LooperIo {
                position: p as usize,
                id: engine.loopers[p].id,
                meter: if k < 64 {
                    Some(k as usize)
                } else {
                    None
                },
            })
        },
{
    assert(engine.loopers.take(engine.loopers.len() as int) =~= engine.loopers);
    lemma_live_count(engine.loopers);
    if 0 <= p < engine.loopers.len() && !engine.loopers[p].deleted {
        lemma_live_place(engine, p);
    }
}

/// The place of a looper among those that are not deleted is the number of those
/// before it, and its mode is reported at that place.
pub proof fn law_live_loopers_by_place(engine: EngineModel, p: int, count: int)
    requires
        engine.loopers.len() <= usize::MAX,
    ensures
        positions(engine.loopers, Selector::Live).len() == live_before(
            engine,
            engine.loopers.len() as int,
        ),
        0 <= count ==> engine.looper_modes(count).len() == count,
        0 <= p < engine.loopers.len() && !engine.loopers[p].deleted ==> {
            let k = live_before(engine, p);
            &&& positions(engine.loopers, Selector::Live)[k as int] == p
            &&& k < count ==> engine.looper_modes(count)[k as int] == engine.loopers[p].mode
        },
{
    assert(engine.loopers.take(engine.loopers.len() as int) =~= engine.loopers);
    lemma_live_count(engine.loopers);
    if 0 <= p < engine.loopers.len() && !engine.loopers[p].deleted {
        lemma_live_place(engine, p);
    }
}

/// What is shown of the engine is what the engine has; the MIDI output gets the
/// numbers of looper and part, of which it can tell 256 apart.
pub proof fn law_snapshots_tell_the_truth(engine: EngineModel, solo: bool, levels: Levels)
    requires
        engine.wf(),
    ensures
        ({
            let midi = engine.midi_snapshot(levels);
            &&& midi.engine_state == engine.state
            &&& midi.engine_mode == engine.mode
            &&& midi.sync_mode == engine.sync_mode
            &&& midi.metronome == levels.metronome_midi
            &&& midi.part == place(engine.current_part)
            &&& engine.active < 256 ==> midi.active_looper == engine.active
            &&& (engine.active - midi.active_looper) % 256 == 0
            &&& engine.loopers.len() < 256 ==> midi.looper_count == engine.loopers.len()
            &&& (engine.loopers.len() - midi.looper_count) % 256 == 0
        }),
        ({
            let shown = engine.snapshot(solo, levels);
            &&& shown.engine_state == engine.state
            &&& shown.engine_mode == engine.mode
            &&& shown.engine_switching_order == engine.switching_order
            &&& shown.time.0 == engine.time
            &&& shown.metric_structure == engine.metric_structure
            &&& shown.active_looper == engine.active
            &&& shown.looper_count == engine.loopers.len()
            &&& shown.part == engine.current_part
            &&& shown.solo == solo
            &&& shown.sync_mode == engine.sync_mode
            &&& shown.input_levels == levels.input
            &&& shown.looper_levels == levels.loopers
            &&& shown.metronome_volume == levels.metronome
        }),
{
}

// ---- Tempo, time signature and sessions ----

/// A new tempo or time signature is taken over and goes to the metronome first;
/// then the engine goes back to the start. Nothing else about it changes.
pub proof fn law_new_metric_structure(engine: EngineModel, ms: MetricStructure)
    requires
        engine.loopers.len() <= usize::MAX,
    ensures
        ({
            let r = engine.after_metric_structure(ms);
            &&& r.engine == (EngineModel {
                metric_structure: ms,
                time: 0,
                triggers: Seq::empty(),
                ..engine
            })
            &&& r.actions.len() == engine.loopers.len() + 3
            &&& r.actions[0] == Action::SetMetronomeStructure(ms)
            &&& r.actions[1] == Action::ResetMetronome
            &&& r.actions[2] == Action::SetLooperTimes(FrameTime(0))
            &&& forall|i: int|
                0 <= i < engine.loopers.len() ==> (#[trigger] r.actions[i + 3]) == (Action::Looper {
                    position: i as usize,
                    command: LooperCommand::Play,
                    loop_sync: false,
                })
        }),
{
    lemma_positions_any(engine.loopers);
}

/// Saving and loading come back: when a session is loaded, whatever loopers were
/// restored, the engine has its metric structure and its quantization mode, and
/// saving it again names these. It stands at the start with nothing waiting, and
/// keeps state, mode, part and mappings as they were.
pub proof fn law_session_comes_back(
    engine: EngineModel,
    session: SavedSession,
    restored: Seq<Looper>,
    path: String,
    triggered: bool,
    times: TriggerTimes,
)
    requires
        session.metric_structure is Ok,
    ensures
        ({
            let ms = session.metric_structure->Ok_0;
            let begun = engine.after_session_start(session);
            let done = (EngineModel { loopers: restored, ..begun }).after_session().engine;
            &&& begun.loopers.len() == 0
            &&& begun.metric_structure == ms
            &&& begun.sync_mode == session.sync_mode
            &&& done.metric_structure == ms
            &&& done.sync_mode == session.sync_mode
            &&& done.loopers == restored
            &&& done.time == 0
            &&& done.triggers.len() == 0
            &&& done == (EngineModel {
                metric_structure: ms,
                sync_mode: session.sync_mode,
                loopers: restored,
                time: 0,
                triggers: Seq::empty(),
                id_counter: done.id_counter,
                ..engine
            })
            &&& done.after(Command::SaveSession(path), triggered, times).actions == seq![
                Action::SaveSession { metric_structure: ms, sync_mode: session.sync_mode, path },
            ]
        }),
{
    let begun = engine.after_session_start(session);
    let done = (EngineModel { loopers: restored, ..begun }).after_session().engine;
    assert(done.triggers =~= Seq::<Trigger>::empty());
}

/// Loading a session reports another sample rate, sets the metronome to the saved
/// level, which is 100 percent at most, and lets go of every looper, in order. A
/// session without a proper metric structure changes nothing and only reports.
pub proof fn law_session_asks(engine: EngineModel, session: SavedSession, sample_rate: usize)
    ensures
        ({
            let actions = engine.session_actions(session, sample_rate);
            let n = if session.sample_rate == sample_rate {
                0int
            } else {
                1int
            };
            &&& n == 1 ==> actions[0] == (Action::ReportSampleRate {
                saved: session.sample_rate,
                system: sample_rate,
            })
            &&& session.metric_structure is Err ==> actions.len() == n
                && engine.after_session_start(session) == engine
            &&& session.metric_structure is Ok ==> {
                &&& actions.len() == n + 1 + engine.loopers.len()
                &&& actions[n] is SetMetronomeLevel
                &&& session.metronome_volume <= 100 ==> actions[n]->SetMetronomeLevel_0
                    == session.metronome_volume
                &&& session.metronome_volume > 100 ==> actions[n]->SetMetronomeLevel_0 == 100
                &&& forall|i: int|
                    0 <= i < engine.loopers.len() ==> (#[trigger] actions[n + 1 + i])
                        == Action::RemoveLooper(engine.loopers[i].id)
            }
        }),
{
}

/// When a session is loaded, new ids begin right behind the highest of its
/// loopers, or at 1 where it has none; and every looper is told to play.
pub proof fn law_session_numbers_on(engine: EngineModel)
    requires
        engine.loopers.len() <= usize::MAX,
    ensures
        ({
            let r = engine.after_session();
            &&& forall|i: int|
                0 <= i < engine.loopers.len() ==> (#[trigger] engine.loopers[i]).id
                    < r.engine.id_counter
            &&& engine.loopers.len() == 0 ==> r.engine.id_counter == 1
            &&& engine.loopers.len() > 0 ==> exists|i: int|
                0 <= i < engine.loopers.len() && (#[trigger] engine.loopers[i]).id + 1
                    == r.engine.id_counter
            &&& r.actions.len() == engine.loopers.len() + 2
            &&& r.actions[0] == Action::ResetMetronome
            &&& r.actions[1] == Action::SetLooperTimes(FrameTime(0))
            &&& forall|i: int|
                0 <= i < engine.loopers.len() ==> (#[trigger] r.actions[i + 2]) == (Action::Looper {
                    position: i as usize,
                    command: LooperCommand::Play,
                    loop_sync: false,
                })
        }),
{
    lemma_positions_any(engine.loopers);
    EngineModel::lemma_highest_id(engine.loopers);
    lemma_highest_is_one(engine.loopers);
}

proof fn lemma_highest_is_one(loopers: Seq<Looper>)
    ensures
        loopers.len() > 0 ==> exists|i: int|
            0 <= i < loopers.len() && (#[trigger] loopers[i]).id == EngineModel::highest_id(loopers),
    decreases loopers.len(),
{
    if loopers.len() > 0 {
        let shorter = loopers.drop_last();
        lemma_highest_is_one(shorter);
        assert(shorter.len() == 0 ==> EngineModel::highest_id(shorter) == 0);
        if loopers.last().id > EngineModel::highest_id(shorter) || shorter.len() == 0 {
            assert(loopers[loopers.len() - 1].id == EngineModel::highest_id(loopers));
        } else {
            let i = choose|i: int|
                0 <= i < shorter.len() && (#[trigger] shorter[i]).id == EngineModel::highest_id(
                    shorter,
                );
            assert(loopers[i].id == EngineModel::highest_id(loopers));
        }
    }
}

/// A period can be counted as long as its frames, and the time at its end if the
/// engine runs, fit into 63 bits.
pub proof fn law_time_for_a_period(engine: EngineModel, frames: u64)
    ensures
        engine.has_time_for(frames) <==> {
            let runs = engine.state == EngineState::Active || (engine.state == EngineState::Stopped
                && (engine.triggers.len() > 0 || something_records(engine)));
            &&& frames <= 0x7fff_ffff_ffff_ffff
            &&& frames <= usize::MAX
            &&& runs ==> engine.time + frames <= 0x7fff_ffff_ffff_ffff
        },
{
    lemma_records(engine);
}

} // verus!
