//! What each command means, in terms of the engine before and after it.

use vstd::prelude::*;

use crate::action::Action;
use crate::api::{
    Command, EngineMode, EngineState, FrameTime, LooperCommand, LooperMode, LooperTarget, Part,
    PartSet, QuantizationMode,
};
use crate::looper::{lemma_positions, lemma_positions_any, positions, Looper, Selector};
use crate::model::{first_index, is_first_index, EngineModel};
use crate::trigger::{Trigger, TriggerCondition, TriggerTimes};

verus! {

// ---- What the laws speak of ----

/// Whether a looper is there and plays in a part.
pub open spec fn plays_in(l: Looper, part: Part) -> bool {
    !l.deleted && on_in(l.parts, part)
}

/// Whether a set of parts has a part.
pub open spec fn on_in(parts: PartSet, part: Part) -> bool {
    ||| part == Part::A && parts.a
    ||| part == Part::B && parts.b
    ||| part == Part::C && parts.c
    ||| part == Part::D && parts.d
}

/// Whether anything plays in a part.
pub open spec fn lively(engine: EngineModel, part: Part) -> bool {
    exists|i: int| 0 <= i < engine.loopers.len() && plays_in(#[trigger] engine.loopers[i], part)
}

/// The place of a part in the piece.
pub open spec fn place(part: Part) -> int {
    if part == Part::A {
        0
    } else if part == Part::B {
        1
    } else if part == Part::C {
        2
    } else {
        3
    }
}

/// How many parts one has to go on from one part to get to another: at least one,
/// and around the end.
pub open spec fn steps_on(from: Part, to: Part) -> int {
    if place(to) > place(from) {
        place(to) - place(from)
    } else {
        place(to) - place(from) + 4
    }
}

/// The last of some waiting commands, as many as may wait.
pub open spec fn at_most_128(triggers: Seq<Trigger>) -> Seq<Trigger> {
    if triggers.len() > 128 {
        triggers.subrange(triggers.len() - 128, triggers.len() as int)
    } else {
        triggers
    }
}

/// How many loopers before a position are not deleted.
pub open spec fn live_before(engine: EngineModel, p: int) -> nat {
    engine.loopers.take(p).filter(|l: Looper| !l.deleted).len()
}

/// Whether a command is one of those that concern the engine as a whole and may
/// have to wait.
pub open spec fn waits_its_turn(c: Command) -> bool {
    c is SelectNextLooper || c is SelectPreviousLooper || c is ToggleMode || c is PreviousPart || c
        is NextPart || c is GoToPart
}

/// The time for which such a command would wait: changes of part wait as the
/// quantization mode has it, all others do not.
pub open spec fn turn_of(engine: EngineModel, c: Command, times: TriggerTimes) -> FrameTime {
    if (c is PreviousPart || c is NextPart || c is GoToPart) && engine.sync_mode
        != QuantizationMode::Free {
        times.quantized
    } else {
        times.immediate
    }
}

/// Whether such a command is carried out at once: the engine stands still, or
/// the turn of the command has come or gone.
pub open spec fn at_once(
    engine: EngineModel,
    c: Command,
    triggered: bool,
    times: TriggerTimes,
) -> bool {
    let at = turn_of(engine, c, times).0;
    engine.state == EngineState::Stopped || triggered || (at != 0 && at < engine.time)
}

// ---- Which command changes what ----

/// No command changes anything but what it is for: only the toggle changes the
/// mode, only the transport commands the state, and so on. No command changes
/// the loopers, the metric structure, the order of modes or the mappings.
pub proof fn law_commands_mind_their_own_business(
    engine: EngineModel,
    c: Command,
    triggered: bool,
    times: TriggerTimes,
)
    ensures
        ({
            let m = engine.after(c, triggered, times).engine;
            &&& m.loopers == engine.loopers
            &&& m.metric_structure == engine.metric_structure
            &&& m.switching_order == engine.switching_order
            &&& m.midi_out_mappings == engine.midi_out_mappings
            &&& m.mode != engine.mode ==> c is ToggleMode
            &&& m.state != engine.state ==> c is Start || c is Pause || c is Stop || c is StartStop
                || c is PlayPause
            &&& m.time != engine.time ==> c is Stop || c is Reset || c is SetTime || c is StartStop
            &&& m.sync_mode != engine.sync_mode ==> c is SetQuantizationMode
            &&& m.id_counter != engine.id_counter ==> c is AddLooper
            &&& m.current_part != engine.current_part ==> c is PreviousPart || c is NextPart || c
                is GoToPart
            &&& m.active != engine.active ==> {
                ||| c is AddLooper || c is SelectLooperById || c is SelectLooperByIndex
                ||| c is SelectNextLooper || c is SelectPreviousLooper
                ||| c is PreviousPart || c is NextPart || c is GoToPart
                ||| c is Looper && c->Looper_1 is Index
            }
            &&& m.triggers != engine.triggers && engine.triggers.len() <= 128 ==> {
                ||| c is Looper || waits_its_turn(c)
                ||| c is Stop || c is Reset || c is StartStop
            }
        }),
{
}

/// What the transport commands make of the state.
pub proof fn law_transport(engine: EngineModel, triggered: bool, times: TriggerTimes)
    ensures
        engine.after(Command::Start, triggered, times).engine.state == EngineState::Active,
        engine.after(Command::Pause, triggered, times).engine.state == EngineState::Paused,
        engine.after(Command::Stop, triggered, times).engine.state == EngineState::Stopped,
        engine.after(Command::StartStop, triggered, times).engine.state == EngineState::Active
            <==> engine.state != EngineState::Active,
        engine.after(Command::StartStop, triggered, times).engine.state == EngineState::Stopped
            <==> engine.state == EngineState::Active,
        engine.after(Command::PlayPause, triggered, times).engine.state == EngineState::Active
            <==> engine.state != EngineState::Active,
        engine.after(Command::PlayPause, triggered, times).engine.state == EngineState::Paused
            <==> engine.state == EngineState::Active,
{
}

/// Stopping and resetting leads back to the start: nothing waits any more, the
/// metronome starts over, every looper is moved to time 0, and every one is told
/// to play. Starting, pausing and playing on asks nothing of anybody and leaves
/// clock and queue alone.
pub proof fn law_back_to_the_start(
    engine: EngineModel,
    c: Command,
    triggered: bool,
    times: TriggerTimes,
)
    requires
        engine.loopers.len() <= usize::MAX,
    ensures
        c is Stop || c is Reset || (c is StartStop && engine.state == EngineState::Active) ==> {
            let r = engine.after(c, triggered, times);
            &&& r.engine.time == 0
            &&& r.engine.triggers.len() == 0
            &&& r.actions.len() == engine.loopers.len() + 2
            &&& r.actions[0] == Action::ResetMetronome
            &&& r.actions[1] == Action::SetLooperTimes(FrameTime(0))
            &&& forall|i: int|
                0 <= i < engine.loopers.len() ==> (#[trigger] r.actions[i + 2]) == (Action::Looper {
                    position: i as usize,
                    command: LooperCommand::Play,
                    loop_sync: false,
                })
        },
        c is Start || c is Pause || c is PlayPause || (c is StartStop && engine.state
            != EngineState::Active) ==> {
            let r = engine.after(c, triggered, times);
            &&& r.engine.time == engine.time
            &&& r.engine.triggers == engine.triggers
            &&& r.actions.len() == 0
        },
{
    lemma_positions_any(engine.loopers);
}

/// A command to move to a time moves the clock and all loopers there, and
/// nothing else.
pub proof fn law_set_time(
    engine: EngineModel,
    time: FrameTime,
    triggered: bool,
    times: TriggerTimes,
)
    ensures
        ({
            let r = engine.after(Command::SetTime(time), triggered, times);
            &&& r.engine.time == time.0
            &&& r.engine.triggers == engine.triggers
            &&& r.actions == seq![Action::SetLooperTimes(time)]
        }),
{
}

/// What is set is what is asked for: the quantization mode is the one named, the
/// metronome gets the level up to 100 percent and none above, tempo and time
/// signature are worked out from just what was given and what the engine has.
pub proof fn law_settings(
    engine: EngineModel,
    mode: QuantizationMode,
    level: u8,
    number: u32,
    upper: u8,
    lower: u8,
    triggered: bool,
    times: TriggerTimes,
)
    ensures
        engine.after(Command::SetQuantizationMode(mode), triggered, times).engine.sync_mode == mode,
        engine.after(Command::SetQuantizationMode(mode), triggered, times).actions.len() == 0,
        level <= 100 ==> engine.after(
            Command::SetMetronomeLevel(level),
            triggered,
            times,
        ).actions == seq![Action::SetMetronomeLevel(level)],
        level > 100 ==> engine.after(
            Command::SetMetronomeLevel(level),
            triggered,
            times,
        ).actions.len() == 0,
        engine.after(Command::SetTempoBPM(number), triggered, times).actions == seq![
            Action::WorkOutTempo { bpm: number },
        ],
        engine.after(Command::ChangeTempoBPM(number), triggered, times).actions == seq![
            Action::WorkOutTempoChange { tempo: engine.metric_structure.tempo, delta: number },
        ],
        engine.after(Command::SetTimeSignature(upper, lower), triggered, times).actions == seq![
            Action::WorkOutTimeSignature { upper, lower },
        ],
{
}

/// A session is saved as the engine has it, under the path given, and loaded
/// from the path given.
pub proof fn law_session_commands(
    engine: EngineModel,
    path: String,
    triggered: bool,
    times: TriggerTimes,
)
    ensures
        engine.after(Command::SaveSession(path), triggered, times).actions == seq![
            Action::SaveSession {
                metric_structure: engine.metric_structure,
                sync_mode: engine.sync_mode,
                path,
            },
        ],
        engine.after(Command::LoadSession(path), triggered, times).actions == seq![
            Action::LoadSession { path },
        ],
{
}

/// A new looper is made in the current part, under the next id, and is active
/// from then on; the id after it is the next.
pub proof fn law_add_looper(engine: EngineModel, triggered: bool, times: TriggerTimes)
    requires
        0 <= engine.id_counter <= u32::MAX,
    ensures
        ({
            let r = engine.after(Command::AddLooper, triggered, times);
            &&& r.actions == seq![
                Action::CreateLooper {
                    id: engine.id_counter as u32,
                    part: engine.current_part,
                },
            ]
            &&& r.engine.active == engine.id_counter
            &&& r.engine.id_counter == engine.id_counter + 1
        }),
{
}

// ---- Places of loopers ----

proof fn lemma_no_more(loopers: Seq<Looper>, selector: Selector, a: int, b: int)
    requires
        0 <= a <= b <= loopers.len(),
        forall|i: int| a <= i < b ==> !selector.picks(#[trigger] loopers[i]),
    ensures
        positions(loopers.take(b), selector) == positions(loopers.take(a), selector),
    decreases b - a,
{
    if a < b {
        lemma_no_more(loopers, selector, a, b - 1);
        assert(loopers.take(b).drop_last() =~= loopers.take(b - 1));
        assert(loopers.take(b).last() == loopers[b - 1]);
    }
}

proof fn lemma_one_more(loopers: Seq<Looper>, selector: Selector, p: int)
    requires
        0 <= p < loopers.len(),
        selector.picks(loopers[p]),
    ensures
        positions(loopers.take(p + 1), selector) == positions(loopers.take(p), selector).push(
            p as usize,
        ),
{
    assert(loopers.take(p + 1).drop_last() =~= loopers.take(p));
    assert(loopers.take(p + 1).last() == loopers[p]);
}

/// The positions among the first loopers come first.
proof fn lemma_prefix(loopers: Seq<Looper>, selector: Selector, p: int)
    requires
        0 <= p <= loopers.len(),
    ensures
        positions(loopers.take(p), selector).len() <= positions(loopers, selector).len(),
        forall|k: int|
            0 <= k < positions(loopers.take(p), selector).len() ==> positions(
                loopers.take(p),
                selector,
            )[k] == #[trigger] positions(loopers, selector)[k],
    decreases loopers.len() - p,
{
    if p < loopers.len() {
        lemma_prefix(loopers, selector, p + 1);
        assert(loopers.take(p + 1).drop_last() =~= loopers.take(p));
    } else {
        assert(loopers.take(p) =~= loopers);
    }
}

/// A picked looper stands behind those that were picked before it.
proof fn lemma_place(loopers: Seq<Looper>, selector: Selector, p: int)
    requires
        0 <= p < loopers.len(),
        selector.picks(loopers[p]),
    ensures
        positions(loopers.take(p), selector).len() < positions(loopers, selector).len(),
        positions(loopers, selector)[positions(loopers.take(p), selector).len() as int]
            == p as usize,
{
    lemma_one_more(loopers, selector, p);
    lemma_prefix(loopers, selector, p + 1);
}

proof fn lemma_nothing_picked(loopers: Seq<Looper>, selector: Selector)
    requires
        forall|i: int| 0 <= i < loopers.len() ==> !selector.picks(#[trigger] loopers[i]),
    ensures
        positions(loopers, selector).len() == 0,
{
    lemma_no_more(loopers, selector, 0, loopers.len() as int);
    assert(loopers.take(loopers.len() as int) =~= loopers);
    assert(loopers.take(0) =~= Seq::<Looper>::empty());
}

/// The first picked looper stands first.
proof fn lemma_first_place(loopers: Seq<Looper>, selector: Selector, p: int)
    requires
        0 <= p < loopers.len(),
        selector.picks(loopers[p]),
        forall|i: int| 0 <= i < p ==> !selector.picks(#[trigger] loopers[i]),
    ensures
        positions(loopers, selector).len() > 0,
        positions(loopers, selector)[0] == p as usize,
{
    lemma_no_more(loopers, selector, 0, p);
    assert(loopers.take(0) =~= Seq::<Looper>::empty());
    lemma_place(loopers, selector, p);
}

/// The live positions are as many as the live loopers.
pub proof fn lemma_live_count(loopers: Seq<Looper>)
    ensures
        positions(loopers, Selector::Live).len() == loopers.filter(|l: Looper| !l.deleted).len(),
    decreases loopers.len(),
{
    reveal_with_fuel(Seq::filter, 2);
    if loopers.len() > 0 {
        lemma_live_count(loopers.drop_last());
    }
}

/// The looper that stands in for an index is at that place among those that are
/// not deleted.
pub proof fn lemma_live_place(engine: EngineModel, p: int)
    requires
        0 <= p < engine.loopers.len(),
        !engine.loopers[p].deleted,
    ensures
        live_before(engine, p) < positions(engine.loopers, Selector::Live).len(),
        positions(engine.loopers, Selector::Live)[live_before(engine, p) as int] == p as usize,
{
    lemma_live_count(engine.loopers.take(p));
    lemma_place(engine.loopers, Selector::Live, p);
}

// ---- Selecting loopers ----

/// Selecting by id makes the looper with that id active, if there is one, and
/// changes nothing otherwise.
pub proof fn law_select_by_id(
    engine: EngineModel,
    id: u32,
    triggered: bool,
    times: TriggerTimes,
)
    ensures
        ({
            let r = engine.after(Command::SelectLooperById(id), triggered, times);
            let there = exists|i: int|
                0 <= i < engine.loopers.len() && (#[trigger] engine.loopers[i]).id == id;
            &&& r.actions.len() == 0
            &&& r.engine.active == if there {
                id
            } else {
                engine.active
            }
        }),
{
    let selector = Selector::WithId(id);
    if exists|i: int| 0 <= i < engine.loopers.len() && (#[trigger] engine.loopers[i]).id == id {
        let i = choose|i: int|
            0 <= i < engine.loopers.len() && (#[trigger] engine.loopers[i]).id == id;
        lemma_place(engine.loopers, selector, i);
    } else {
        lemma_nothing_picked(engine.loopers, selector);
    }
}

/// Selecting by index makes the looper active that has just so many live ones
/// before it, and changes nothing where there are too few.
pub proof fn law_select_by_index(
    engine: EngineModel,
    index: u8,
    p: int,
    triggered: bool,
    times: TriggerTimes,
)
    requires
        engine.loopers.len() <= usize::MAX,
    ensures
        ({
            let r = engine.after(Command::SelectLooperByIndex(index), triggered, times);
            &&& r.actions.len() == 0
            &&& 0 <= p < engine.loopers.len() && !engine.loopers[p].deleted && live_before(
                engine,
                p,
            ) == index ==> r.engine.active == engine.loopers[p].id
            &&& live_before(engine, engine.loopers.len() as int) <= index ==> r.engine.active
                == engine.active
        }),
{
    if 0 <= p < engine.loopers.len() && !engine.loopers[p].deleted {
        lemma_live_place(engine, p);
    }
    assert(engine.loopers.take(engine.loopers.len() as int) =~= engine.loopers);
    lemma_live_count(engine.loopers);
}

/// Where a looper stands among those of the current part.
proof fn lemma_member(engine: EngineModel, p: int)
    requires
        engine.loopers.len() <= usize::MAX,
        0 <= p < engine.loopers.len(),
        plays_in(engine.loopers[p], engine.current_part),
    ensures
        ({
            let selector = Selector::LiveIn(engine.current_part);
            let n = positions(engine.loopers.take(p), selector).len() as int;
            &&& n < engine.members().len()
            &&& engine.members()[n] == engine.loopers[p].id
            &&& positions(engine.loopers, selector)[n] == p as usize
        }),
{
    lemma_place(engine.loopers, Selector::LiveIn(engine.current_part), p);
}

/// Where the active looper stands among those of the current part.
proof fn lemma_active_member(engine: EngineModel, p: int)
    requires
        engine.loopers.len() <= usize::MAX,
        0 <= p < engine.loopers.len(),
        plays_in(engine.loopers[p], engine.current_part),
        engine.loopers[p].id == engine.active,
        forall|i: int|
            0 <= i < p && plays_in(#[trigger] engine.loopers[i], engine.current_part)
                ==> engine.loopers[i].id != engine.active,
    ensures
        engine.members().contains(engine.active),
        first_index(engine.members(), engine.active) == positions(
            engine.loopers.take(p),
            Selector::LiveIn(engine.current_part),
        ).len(),
{
    let selector = Selector::LiveIn(engine.current_part);
    let at = positions(engine.loopers, selector);
    let ids = engine.members();
    let n = positions(engine.loopers.take(p), selector).len() as int;
    lemma_member(engine, p);
    lemma_positions(engine.loopers, selector);
    assert forall|j: int| 0 <= j < n implies ids[j] != engine.active by {
        assert(at[j] < at[n]);
        assert(selector.picks(engine.loopers[at[j] as int]));
    }
    assert(is_first_index(ids, engine.active, n));
    let chosen = first_index(ids, engine.active);
    assert(is_first_index(ids, engine.active, chosen));
    assert(chosen == n) by {
        if chosen < n {
            assert(ids[chosen] != engine.active);
        }
        if n < chosen {
            assert(ids[n] == engine.active);
        }
    }
}

/// The next looper is the one that follows in the current part, and the previous
/// one is the one before: of two loopers that play in the part, with none of it
/// between them, next leads from the first to the second, and previous back.
pub proof fn law_next_looper_follows(
    engine: EngineModel,
    p: int,
    q: int,
    triggered: bool,
    times: TriggerTimes,
)
    requires
        engine.loopers.len() <= usize::MAX,
        0 <= p < q < engine.loopers.len(),
        plays_in(engine.loopers[p], engine.current_part),
        plays_in(engine.loopers[q], engine.current_part),
        forall|i: int|
            p < i < q ==> !plays_in(#[trigger] engine.loopers[i], engine.current_part),
    ensures
        at_once(engine, Command::SelectNextLooper, triggered, times) && engine.loopers[p].id
            == engine.active && (forall|i: int|
            0 <= i < p && plays_in(#[trigger] engine.loopers[i], engine.current_part)
                ==> engine.loopers[i].id != engine.active) ==> engine.after(
            Command::SelectNextLooper,
            triggered,
            times,
        ).engine.active == engine.loopers[q].id,
        at_once(engine, Command::SelectPreviousLooper, triggered, times) && engine.loopers[q].id
            == engine.active && (forall|i: int|
            0 <= i < q && plays_in(#[trigger] engine.loopers[i], engine.current_part)
                ==> engine.loopers[i].id != engine.active) ==> engine.after(
            Command::SelectPreviousLooper,
            triggered,
            times,
        ).engine.active == engine.loopers[p].id,
{
    let selector = Selector::LiveIn(engine.current_part);
    let n = positions(engine.loopers.take(p), selector).len() as int;
    let all = engine.members().len() as int;
    lemma_member(engine, p);
    lemma_member(engine, q);
    lemma_one_more(engine.loopers, selector, p);
    lemma_no_more(engine.loopers, selector, p + 1, q);
    assert(positions(engine.loopers.take(q), selector).len() == n + 1);
    vstd::arithmetic::div_mod::lemma_small_mod((n + 1) as nat, all as nat);
    vstd::arithmetic::div_mod::lemma_mod_add_multiples_vanish(n, all);
    vstd::arithmetic::div_mod::lemma_small_mod(n as nat, all as nat);
    assert(all + n == n + 1 + all - 1);
    if engine.loopers[p].id == engine.active && (forall|i: int|
        0 <= i < p && plays_in(#[trigger] engine.loopers[i], engine.current_part)
            ==> engine.loopers[i].id != engine.active) {
        lemma_active_member(engine, p);
    }
    if engine.loopers[q].id == engine.active && (forall|i: int|
        0 <= i < q && plays_in(#[trigger] engine.loopers[i], engine.current_part)
            ==> engine.loopers[i].id != engine.active) {
        lemma_active_member(engine, q);
    }
}

/// Around the end: from the last looper of the part, next leads to the first;
/// from the first, previous leads to the last. Where the active looper does not
/// play in the part, both lead to the first that does.
pub proof fn law_selection_goes_around_the_end(
    engine: EngineModel,
    first: int,
    last: int,
    triggered: bool,
    times: TriggerTimes,
)
    requires
        engine.loopers.len() <= usize::MAX,
        0 <= first <= last < engine.loopers.len(),
        plays_in(engine.loopers[first], engine.current_part),
        plays_in(engine.loopers[last], engine.current_part),
        forall|i: int|
            (0 <= i < first || last < i < engine.loopers.len()) ==> !plays_in(
                #[trigger] engine.loopers[i],
                engine.current_part,
            ),
    ensures
        at_once(engine, Command::SelectNextLooper, triggered, times) && engine.loopers[last].id
            == engine.active && (forall|i: int|
            0 <= i < last && plays_in(#[trigger] engine.loopers[i], engine.current_part)
                ==> engine.loopers[i].id != engine.active) ==> engine.after(
            Command::SelectNextLooper,
            triggered,
            times,
        ).engine.active == engine.loopers[first].id,
        at_once(engine, Command::SelectPreviousLooper, triggered, times)
            && engine.loopers[first].id == engine.active ==> engine.after(
            Command::SelectPreviousLooper,
            triggered,
            times,
        ).engine.active == engine.loopers[last].id,
        (forall|i: int|
            0 <= i < engine.loopers.len() && plays_in(
                #[trigger] engine.loopers[i],
                engine.current_part,
            ) ==> engine.loopers[i].id != engine.active) ==> {
            &&& at_once(engine, Command::SelectNextLooper, triggered, times) ==> engine.after(
                Command::SelectNextLooper,
                triggered,
                times,
            ).engine.active == engine.loopers[first].id
            &&& at_once(engine, Command::SelectPreviousLooper, triggered, times) ==> engine.after(
                Command::SelectPreviousLooper,
                triggered,
                times,
            ).engine.active == engine.loopers[first].id
        },
{
    let selector = Selector::LiveIn(engine.current_part);
    let at = positions(engine.loopers, selector);
    let ids = engine.members();
    let all = ids.len() as int;
    lemma_member(engine, first);
    lemma_member(engine, last);
    lemma_first_place(engine.loopers, selector, first);
    lemma_no_more(engine.loopers, selector, 0, first);
    assert(engine.loopers.take(0) =~= Seq::<Looper>::empty());
    lemma_one_more(engine.loopers, selector, last);
    lemma_no_more(engine.loopers, selector, last + 1, engine.loopers.len() as int);
    assert(engine.loopers.take(engine.loopers.len() as int) =~= engine.loopers);
    assert(ids[0] == engine.loopers[first].id);
    assert(ids[all - 1] == engine.loopers[last].id);
    vstd::arithmetic::div_mod::lemma_mod_self_0(all);
    vstd::arithmetic::div_mod::lemma_small_mod((all - 1) as nat, all as nat);
    if engine.loopers[first].id == engine.active {
        lemma_active_member(engine, first);
    }
    if engine.loopers[last].id == engine.active && (forall|i: int|
        0 <= i < last && plays_in(#[trigger] engine.loopers[i], engine.current_part)
            ==> engine.loopers[i].id != engine.active) {
        lemma_active_member(engine, last);
    }
    lemma_positions(engine.loopers, selector);
    if forall|i: int|
        0 <= i < engine.loopers.len() && plays_in(#[trigger] engine.loopers[i], engine.current_part)
            ==> engine.loopers[i].id != engine.active {
        assert(!ids.contains(engine.active)) by {
            if ids.contains(engine.active) {
                let k = ids.index_of(engine.active);
                assert(selector.picks(engine.loopers[at[k] as int]));
            }
        }
    }
}

/// In a part in which nothing plays, there is nothing to select.
pub proof fn law_nothing_to_select(engine: EngineModel, triggered: bool, times: TriggerTimes)
    requires
        !lively(engine, engine.current_part),
    ensures
        engine.after(Command::SelectNextLooper, triggered, times).engine.active == engine.active,
        engine.after(Command::SelectPreviousLooper, triggered, times).engine.active
            == engine.active,
{
    let selector = Selector::LiveIn(engine.current_part);
    assert forall|i: int| 0 <= i < engine.loopers.len() implies !selector.picks(
        #[trigger] engine.loopers[i],
    ) by {
        assert(!plays_in(engine.loopers[i], engine.current_part));
    }
    lemma_nothing_picked(engine.loopers, selector);
}

/// Selecting neighbours moves nothing but the selection, and asks nothing of
/// anybody.
pub proof fn law_selecting_is_quiet(
    engine: EngineModel,
    c: Command,
    triggered: bool,
    times: TriggerTimes,
)
    requires
        c is SelectNextLooper || c is SelectPreviousLooper || c is PreviousPart || c is NextPart
            || c is GoToPart,
        at_once(engine, c, triggered, times),
    ensures
        engine.after(c, triggered, times).actions.len() == 0,
        engine.after(c, triggered, times).engine.triggers == engine.triggers,
{
}

// ---- Parts ----

proof fn lemma_lively(engine: EngineModel, part: Part)
    ensures
        engine.occupied(part) == lively(engine, part),
{
    if engine.occupied(part) {
        let i = choose|i: int|
            0 <= i < engine.loopers.len() && Selector::LiveIn(part).picks(
                #[trigger] engine.loopers[i],
            );
        assert(plays_in(engine.loopers[i], part));
    }
    if lively(engine, part) {
        let i = choose|i: int|
            0 <= i < engine.loopers.len() && plays_in(#[trigger] engine.loopers[i], part);
        assert(Selector::LiveIn(part).picks(engine.loopers[i]));
    }
}

/// The next part is the nearest one ahead, in the order A, B, C, D, A, in which
/// anything plays; the previous one is the nearest one the other way round.
/// Going to a part goes to that part.
pub proof fn law_parts_in_order(
    engine: EngineModel,
    part: Part,
    triggered: bool,
    times: TriggerTimes,
)
    ensures
        at_once(engine, Command::NextPart, triggered, times) ==> {
            let from = engine.current_part;
            let to = engine.after(Command::NextPart, triggered, times).engine.current_part;
            &&& lively(engine, to) || to == from
            &&& lively(engine, part) ==> steps_on(from, to) <= steps_on(from, part)
        },
        at_once(engine, Command::PreviousPart, triggered, times) ==> {
            let from = engine.current_part;
            let to = engine.after(Command::PreviousPart, triggered, times).engine.current_part;
            &&& lively(engine, to) || to == from
            &&& lively(engine, part) ==> steps_on(to, from) <= steps_on(part, from)
        },
        at_once(engine, Command::GoToPart(part), triggered, times) ==> engine.after(
            Command::GoToPart(part),
            triggered,
            times,
        ).engine.current_part == part,
{
    lemma_lively(engine, Part::A);
    lemma_lively(engine, Part::B);
    lemma_lively(engine, Part::C);
    lemma_lively(engine, Part::D);
}

/// However a part is reached, the active looper stays active if it is in the
/// part; otherwise the first looper that plays in the part becomes active, and
/// where there is none, the active looper stays.
pub proof fn law_part_selects_its_looper(
    engine: EngineModel,
    c: Command,
    p: int,
    triggered: bool,
    times: TriggerTimes,
)
    requires
        engine.loopers.len() <= usize::MAX,
        c is PreviousPart || c is NextPart || c is GoToPart,
        at_once(engine, c, triggered, times),
    ensures
        ({
            let m = engine.after(c, triggered, times).engine;
            let stays = exists|i: int|
                0 <= i < engine.loopers.len() && (#[trigger] engine.loopers[i]).id == engine.active
                    && on_in(engine.loopers[i].parts, m.current_part);
            &&& stays ==> m.active == engine.active
            &&& !lively(engine, m.current_part) ==> m.active == engine.active
            &&& !stays && 0 <= p < engine.loopers.len() && plays_in(
                engine.loopers[p],
                m.current_part,
            ) && (forall|i: int|
                0 <= i < p ==> !plays_in(#[trigger] engine.loopers[i], m.current_part))
                ==> m.active == engine.loopers[p].id
        }),
{
    let m = engine.after(c, triggered, times).engine;
    let part = m.current_part;
    let there = EngineModel { current_part: part, ..engine };
    let selector = Selector::LiveIn(part);
    assert(m == there.after_select_first());
    let stays = exists|i: int|
        0 <= i < engine.loopers.len() && (#[trigger] engine.loopers[i]).id == engine.active
            && on_in(engine.loopers[i].parts, part);
    assert(stays == there.active_in_part()) by {
        if stays {
            let i = choose|i: int|
                0 <= i < engine.loopers.len() && (#[trigger] engine.loopers[i]).id == engine.active
                    && on_in(engine.loopers[i].parts, part);
            assert(there.loopers[i].parts.has(part));
        }
        if there.active_in_part() {
            let i = choose|i: int|
                0 <= i < there.loopers.len() && (#[trigger] there.loopers[i]).id == there.active
                    && there.loopers[i].parts.has(there.current_part);
            assert(on_in(engine.loopers[i].parts, part));
        }
    }
    if !lively(engine, part) {
        assert forall|i: int| 0 <= i < engine.loopers.len() implies !selector.picks(
            #[trigger] engine.loopers[i],
        ) by {
            assert(!plays_in(engine.loopers[i], part));
        }
        lemma_nothing_picked(engine.loopers, selector);
    }
    if !stays && 0 <= p < engine.loopers.len() && plays_in(engine.loopers[p], part) && (forall|
        i: int,
    |
        0 <= i < p ==> !plays_in(#[trigger] engine.loopers[i], part)) {
        assert forall|i: int| 0 <= i < p implies !selector.picks(#[trigger] engine.loopers[i]) by {
            assert(!plays_in(engine.loopers[i], part));
        }
        lemma_first_place(engine.loopers, selector, p);
    }
}

// ---- The mode ----

/// The toggle switches between recording and playing, and asks for nothing when
/// recording begins.
pub proof fn law_toggle(engine: EngineModel, triggered: bool, times: TriggerTimes)
    requires
        at_once(engine, Command::ToggleMode, triggered, times),
    ensures
        ({
            let r = engine.after(Command::ToggleMode, triggered, times);
            &&& r.engine.mode != engine.mode
            &&& r.engine.triggers == engine.triggers
            &&& r.engine.mode == EngineMode::Record ==> r.actions.len() == 0
        }),
{
}

/// Whether the end of the record mode cuts a looper short.
pub open spec fn cut_short(l: Looper) -> bool {
    &&& !l.deleted
    &&& l.mode == LooperMode::Recording || l.mode == LooperMode::Overdubbing || l.mode
        == LooperMode::Armed
}

proof fn lemma_interrupted(loopers: Seq<Looper>)
    requires
        loopers.len() <= usize::MAX,
    ensures
        ({
            let at = EngineModel::interrupted_at(loopers);
            &&& forall|k: int|
                0 <= k < at.len() ==> (#[trigger] at[k]) < loopers.len() && cut_short(
                    loopers[at[k] as int],
                )
            &&& forall|j: int, k: int| 0 <= j < k < at.len() ==> at[j] < at[k]
            &&& forall|i: int|
                0 <= i < loopers.len() && cut_short(#[trigger] loopers[i]) ==> at.contains(
                    i as usize,
                )
        }),
    decreases loopers.len(),
{
    if loopers.len() > 0 {
        let shorter = loopers.drop_last();
        lemma_interrupted(shorter);
        let before = EngineModel::interrupted_at(shorter);
        let at = EngineModel::interrupted_at(loopers);
        assert forall|i: int| 0 <= i < loopers.len() && cut_short(#[trigger] loopers[i]) implies at.contains(
            i as usize,
        ) by {
            if i < loopers.len() - 1 {
                assert(loopers[i] == shorter[i]);
                let k = before.index_of(i as usize);
                assert(at[k] == before[k]);
            } else {
                assert(at[at.len() - 1] == i as usize);
            }
        }
        assert forall|k: int| 0 <= k < at.len() implies (#[trigger] at[k]) < loopers.len()
            && cut_short(loopers[at[k] as int]) by {
            if k < before.len() {
                assert(at[k] == before[k]);
                assert(loopers[before[k] as int] == shorter[before[k] as int]);
            }
        }
    }
}

/// When the record mode ends, exactly the loopers that it cuts short are told to
/// play, each once and in order.
pub proof fn law_end_of_recording(engine: EngineModel, triggered: bool, times: TriggerTimes)
    requires
        engine.loopers.len() <= usize::MAX,
        at_once(engine, Command::ToggleMode, triggered, times),
        engine.mode == EngineMode::Record,
    ensures
        ({
            let actions = engine.after(Command::ToggleMode, triggered, times).actions;
            &&& forall|k: int|
                0 <= k < actions.len() ==> {
                    &&& (#[trigger] actions[k]) is Looper
                    &&& actions[k]->Looper_position < engine.loopers.len()
                    &&& cut_short(engine.loopers[actions[k]->Looper_position as int])
                    &&& actions[k]->Looper_command == LooperCommand::Play
                    &&& !actions[k]->loop_sync
                }
            &&& forall|j: int, k: int|
                0 <= j < k < actions.len() ==> (#[trigger] actions[j])->Looper_position < (
                #[trigger] actions[k])->Looper_position
            &&& forall|i: int|
                0 <= i < engine.loopers.len() && cut_short(#[trigger] engine.loopers[i])
                    ==> exists|k: int|
                    0 <= k < actions.len() && (#[trigger] actions[k])->Looper_position == i
        }),
{
    lemma_interrupted(engine.loopers);
    let at = EngineModel::interrupted_at(engine.loopers);
    let actions = engine.after(Command::ToggleMode, triggered, times).actions;
    assert forall|i: int|
        0 <= i < engine.loopers.len() && cut_short(#[trigger] engine.loopers[i]) implies exists|
        k: int,
    |
        0 <= k < actions.len() && (#[trigger] actions[k])->Looper_position == i by {
        let k = at.index_of(i as usize);
        assert(actions[k]->Looper_position == i);
    }
}

// ---- Waiting ----

/// A change of part, a selection or a change of mode whose turn has not come
/// waits: it is queued behind the others and shown, for the time of its turn, and
/// nothing else happens yet.
pub proof fn law_changes_wait_their_turn(
    engine: EngineModel,
    c: Command,
    triggered: bool,
    times: TriggerTimes,
)
    requires
        waits_its_turn(c),
        !at_once(engine, c, triggered, times),
    ensures
        ({
            let r = engine.after(c, triggered, times);
            let at = turn_of(engine, c, times);
            &&& r.engine.triggers == at_most_128(
                engine.triggers.push(Trigger { triggered_at: at, command: c }),
            )
            &&& r.engine == (EngineModel { triggers: r.engine.triggers, ..engine })
            &&& r.actions == seq![Action::ShowGlobalTrigger { at, command: c }]
        }),
{
    let at = turn_of(engine, c, times);
    let queue = engine.triggers.push(Trigger { triggered_at: at, command: c });
    assert(at_most_128(queue) =~= engine.after(c, triggered, times).engine.triggers);
}

/// Each quantization mode waits for what it is named after: a recording and a
/// change of part ask for the next beat, measure or loop, and without
/// quantization for no such time but for the time without waiting.
pub proof fn law_modes_wait_for_what_they_name(
    engine: EngineModel,
    target: LooperTarget,
    p: int,
    c: Command,
    condition: TriggerCondition,
)
    requires
        engine.loopers.len() <= usize::MAX,
        c == Command::Looper(LooperCommand::Record, target) && 0 <= p < engine.loopers.len()
            && meant_for(engine, target, p) || (c is PreviousPart || c is NextPart || c is GoToPart) && engine.state
            != EngineState::Stopped,
    ensures
        engine.asks(c, false, condition) <==> match engine.sync_mode {
            QuantizationMode::Free => condition == TriggerCondition::Immediate,
            QuantizationMode::Beat => condition == TriggerCondition::Beat,
            QuantizationMode::Measure => condition == TriggerCondition::Measure,
            QuantizationMode::Loop => condition == TriggerCondition::Loop,
        },
{
    if c == Command::Looper(LooperCommand::Record, target) {
        lemma_addressed_literally(engine, target, p);
        let at = engine.addressed(target);
        let k = if target is All || target is AllSync {
            p
        } else {
            0
        };
        assert(at[k] == p as usize);
        assert(engine.waits_for(at[k], LooperCommand::Record, false) is Some);
    }
}

/// A looper command asks for just the times that the loopers that it is meant for
/// wait for.
pub proof fn law_looper_command_asks(
    engine: EngineModel,
    lc: LooperCommand,
    target: LooperTarget,
    triggered: bool,
    condition: TriggerCondition,
)
    requires
        engine.loopers.len() <= usize::MAX,
    ensures
        engine.asks(Command::Looper(lc, target), triggered, condition) <==> !triggered && exists|
            p: int,
        |
            0 <= p < engine.loopers.len() && #[trigger] meant_for(engine, target, p)
                && waits_until(engine, lc, engine.loopers[p], condition),
{
    let at = engine.addressed(target);
    if engine.asks(Command::Looper(lc, target), triggered, condition) {
        let k = choose|k: int|
            0 <= k < at.len() && engine.waits_for(#[trigger] at[k], lc, triggered) == Some(
                condition,
            );
        lemma_addressed_is_meant(engine, target, k);
        assert(meant_for(engine, target, at[k] as int));
    }
    if !triggered && exists|p: int|
        0 <= p < engine.loopers.len() && #[trigger] meant_for(engine, target, p) && waits_until(
            engine,
            lc,
            engine.loopers[p],
            condition,
        ) {
        let p = choose|p: int|
            0 <= p < engine.loopers.len() && #[trigger] meant_for(engine, target, p)
                && waits_until(engine, lc, engine.loopers[p], condition);
        lemma_addressed_literally(engine, target, p);
        let k = if target is All || target is AllSync {
            p
        } else {
            0
        };
        assert(at[k] == p as usize);
        assert(engine.waits_for(at[k], lc, triggered) == Some(condition));
    }
}

/// Whether a command to a looper waits until a condition holds.
pub open spec fn waits_until(
    engine: EngineModel,
    lc: LooperCommand,
    l: Looper,
    condition: TriggerCondition,
) -> bool {
    if starts_or_ends_recording(lc, l) {
        match engine.sync_mode {
            QuantizationMode::Free => condition == TriggerCondition::Immediate,
            QuantizationMode::Beat => condition == TriggerCondition::Beat,
            QuantizationMode::Measure => condition == TriggerCondition::Measure,
            QuantizationMode::Loop => condition == TriggerCondition::Loop,
        }
    } else {
        (lc is RecordOverdubPlay || lc is RecordPlayOverdub) && condition
            == TriggerCondition::Immediate
    }
}

proof fn lemma_addressed_is_meant(engine: EngineModel, target: LooperTarget, k: int)
    requires
        engine.loopers.len() <= usize::MAX,
        0 <= k < engine.addressed(target).len(),
    ensures
        engine.addressed(target)[k] < engine.loopers.len(),
        meant_for(engine, target, engine.addressed(target)[k] as int),
{
    match target {
        LooperTarget::Id(id) => lemma_first_has_id(engine, id),
        LooperTarget::Selected => lemma_first_has_id(engine, engine.active),
        LooperTarget::Index(i) => {
            lemma_positions(engine.loopers, Selector::Live);
            lemma_live_at(engine, i as int);
        },
        LooperTarget::All => lemma_positions_any(engine.loopers),
        LooperTarget::AllSync => lemma_positions_any(engine.loopers),
    }
}

proof fn lemma_live_at(engine: EngineModel, i: int)
    requires
        engine.loopers.len() <= usize::MAX,
        0 <= i < positions(engine.loopers, Selector::Live).len(),
    ensures
        ({
            let p = positions(engine.loopers, Selector::Live)[i] as int;
            &&& p < engine.loopers.len()
            &&& !engine.loopers[p].deleted
            &&& live_before(engine, p) == i
        }),
{
    let at = positions(engine.loopers, Selector::Live);
    lemma_positions(engine.loopers, Selector::Live);
    let p = at[i] as int;
    lemma_live_place(engine, p);
    let n = live_before(engine, p) as int;
    assert(at[n] == at[i]);
    if n < i {
        assert(at[n] < at[i]);
    } else if i < n {
        assert(at[i] < at[n]);
    }
}

proof fn lemma_first_has_id(engine: EngineModel, id: u32)
    requires
        engine.loopers.len() <= usize::MAX,
    ensures
        ({
            let at = positions(engine.loopers, Selector::WithId(id));
            at.len() > 0 ==> {
                &&& at[0] < engine.loopers.len()
                &&& engine.loopers[at[0] as int].id == id
                &&& forall|i: int| 0 <= i < at[0] ==> (#[trigger] engine.loopers[i]).id != id
            }
        }),
{
    let selector = Selector::WithId(id);
    let at = positions(engine.loopers, selector);
    lemma_positions(engine.loopers, selector);
    if at.len() > 0 {
        assert forall|i: int| 0 <= i < at[0] implies (#[trigger] engine.loopers[i]).id != id by {
            if engine.loopers[i].id == id {
                assert(selector.picks(engine.loopers[i]));
                assert(at.contains(i as usize));
                let k = at.index_of(i as usize);
                if k > 0 {
                    assert(at[0] < at[k]);
                }
            }
        }
    }
}

/// The time without waiting is never taken for that of a beat, a measure or a
/// loop, nor the other way round.
pub proof fn law_times_are_kept_apart(times: TriggerTimes)
    ensures
        times.at(TriggerCondition::Immediate) == times.immediate,
        times.at(TriggerCondition::Beat) == times.quantized,
        times.at(TriggerCondition::Measure) == times.quantized,
        times.at(TriggerCondition::Loop) == times.quantized,
{
}

/// A command whose turn has come, or that never waits, asks for no times; a
/// selection or a change of mode on a running engine asks for the time without
/// waiting only.
pub proof fn law_who_asks_for_times(
    engine: EngineModel,
    c: Command,
    triggered: bool,
    condition: TriggerCondition,
)
    requires
        engine.asks(c, triggered, condition),
    ensures
        !triggered,
        c is Looper || waits_its_turn(c),
        !(c is Looper) ==> engine.state != EngineState::Stopped,
        c is SelectNextLooper || c is SelectPreviousLooper || c is ToggleMode ==> condition
            == TriggerCondition::Immediate,
{
}

/// The loop by which waiting times are set is that of the first looper. Looper
/// commands leave it out where that looper is the only one, and those to all
/// loopers leave out its length.
pub proof fn law_first_looper_sets_the_time(
    engine: EngineModel,
    lc: LooperCommand,
    target: LooperTarget,
    c: Command,
)
    ensures
        engine.loopers.len() > 1 ==> {
            &&& engine.base_offset(Command::Looper(lc, target)) == engine.loopers[0].offset
            &&& target is Id || target is Index || target is Selected ==> engine.base_length(
                Command::Looper(lc, target),
            ) == engine.loopers[0].length
        },
        engine.loopers.len() <= 1 ==> {
            &&& engine.base_offset(Command::Looper(lc, target)) == FrameTime(0)
            &&& engine.base_length(Command::Looper(lc, target)) == 0
        },
        target is All || target is AllSync ==> engine.base_length(Command::Looper(lc, target)) == 0,
        waits_its_turn(c) && engine.loopers.len() > 0 ==> {
            &&& engine.base_offset(c) == engine.loopers[0].offset
            &&& engine.base_length(c) == engine.loopers[0].length
        },
{
}

/// The engine takes every command, but for a new looper when no id is left, and
/// for one that would have to wait where there is no looper to set the time by.
pub proof fn law_what_the_engine_takes(engine: EngineModel, c: Command, triggered: bool)
    ensures
        engine.takes(c, triggered) <==> {
            &&& c is AddLooper ==> engine.id_counter < 0xffff_ffff
            &&& waits_its_turn(c) && !triggered && engine.state != EngineState::Stopped
                ==> engine.loopers.len() > 0
        },
{
}

// ---- Looper commands ----

/// Whether a looper command is meant for the looper at a position.
pub open spec fn meant_for(engine: EngineModel, target: LooperTarget, p: int) -> bool {
    let l = engine.loopers[p];
    match target {
        LooperTarget::Id(id) => l.id == id && forall|i: int|
            0 <= i < p ==> (#[trigger] engine.loopers[i]).id != id,
        LooperTarget::Selected => l.id == engine.active && forall|i: int|
            0 <= i < p ==> (#[trigger] engine.loopers[i]).id != engine.active,
        LooperTarget::Index(i) => !l.deleted && live_before(engine, p) == i,
        LooperTarget::All => true,
        LooperTarget::AllSync => true,
    }
}

/// Whether a looper command has to wait as the quantization mode has it: it
/// starts or ends a recording.
pub open spec fn starts_or_ends_recording(lc: LooperCommand, l: Looper) -> bool {
    let level = lc is SetLevel || lc is SetPan;
    let cycle = lc is RecordOverdubPlay || lc is RecordPlayOverdub;
    &&& !level
    &&& lc is Record || (cycle && l.length == 0) || l.mode == LooperMode::Recording || l.mode
        == LooperMode::Overdubbing
}

/// What has to be done about a looper command for the looper at a position.
pub open spec fn right_action(
    engine: EngineModel,
    lc: LooperCommand,
    target: LooperTarget,
    triggered: bool,
    times: TriggerTimes,
    p: int,
) -> Action {
    let l = engine.loopers[p];
    if !triggered && starts_or_ends_recording(lc, l) {
        Action::ShowLoopTrigger {
            looper: l.id,
            at: if engine.sync_mode == QuantizationMode::Free {
                times.immediate
            } else {
                times.quantized
            },
            command: lc,
        }
    } else if !triggered && (lc is RecordOverdubPlay || lc is RecordPlayOverdub) {
        Action::ShowLoopTrigger { looper: l.id, at: times.immediate, command: lc }
    } else {
        Action::Looper {
            position: p as usize,
            command: lc,
            loop_sync: target is AllSync && p > 0,
        }
    }
}

/// A looper command reaches each looper that it is meant for: the one looper that
/// is named, or each of them in order. What starts or ends a recording waits as
/// the quantization mode has it, moving on a full looper is queued without
/// waiting, and all else is carried out at once.
pub proof fn law_looper_command_reaches(
    engine: EngineModel,
    lc: LooperCommand,
    target: LooperTarget,
    triggered: bool,
    times: TriggerTimes,
    p: int,
)
    requires
        engine.loopers.len() <= usize::MAX,
        0 <= p < engine.loopers.len(),
        meant_for(engine, target, p),
    ensures
        ({
            let r = engine.after(Command::Looper(lc, target), triggered, times);
            let right = right_action(engine, lc, target, triggered, times, p);
            if target is All || target is AllSync {
                &&& r.actions.len() == engine.loopers.len()
                &&& r.actions[p] == right
            } else {
                r.actions == seq![right]
            }
        }),
{
    lemma_addressed_literally(engine, target, p);
    let r = engine.after(Command::Looper(lc, target), triggered, times);
    let right = right_action(engine, lc, target, triggered, times, p);
    if !(target is All || target is AllSync) {
        assert(r.actions =~= seq![right]);
    }
}

proof fn lemma_addressed_literally(engine: EngineModel, target: LooperTarget, p: int)
    requires
        engine.loopers.len() <= usize::MAX,
        0 <= p < engine.loopers.len(),
        meant_for(engine, target, p),
    ensures
        target is All || target is AllSync ==> {
            &&& engine.addressed(target).len() == engine.loopers.len()
            &&& engine.addressed(target)[p] == p as usize
        },
        !(target is All || target is AllSync) ==> engine.addressed(target) == seq![p as usize],
{
    match target {
        LooperTarget::Id(id) => lemma_first_place(engine.loopers, Selector::WithId(id), p),
        LooperTarget::Selected => lemma_first_place(
            engine.loopers,
            Selector::WithId(engine.active),
            p,
        ),
        LooperTarget::Index(_) => lemma_live_place(engine, p),
        LooperTarget::All => lemma_positions_any(engine.loopers),
        LooperTarget::AllSync => lemma_positions_any(engine.loopers),
    }
    if !(target is All || target is AllSync) {
        assert(engine.addressed(target) =~= seq![p as usize]);
    }
}

/// A looper command that is meant for nobody does nothing.
pub proof fn law_looper_command_for_nobody(
    engine: EngineModel,
    lc: LooperCommand,
    target: LooperTarget,
    triggered: bool,
    times: TriggerTimes,
)
    requires
        engine.loopers.len() <= usize::MAX,
        engine.triggers.len() <= 128,
        forall|p: int| 0 <= p < engine.loopers.len() ==> !meant_for(engine, target, p),
    ensures
        engine.after(Command::Looper(lc, target), triggered, times).actions.len() == 0,
        engine.after(Command::Looper(lc, target), triggered, times).engine == engine,
{
    if engine.addressed(target).len() > 0 {
        lemma_addressed_is_meant(engine, target, 0);
    }
    assert(engine.triggers + Seq::<Trigger>::empty() =~= engine.triggers);
}

/// What waits is what is shown: for each looper command that is shown as waiting,
/// in order, the command is queued behind the others for the time that is shown;
/// the oldest make room where too many wait.
pub proof fn law_what_is_shown_waits(
    engine: EngineModel,
    lc: LooperCommand,
    target: LooperTarget,
    triggered: bool,
    times: TriggerTimes,
)
    ensures
        ({
            let r = engine.after(Command::Looper(lc, target), triggered, times);
            let shown = r.actions.filter(|a: Action| a is ShowLoopTrigger);
            r.engine.triggers == at_most_128(
                engine.triggers + shown.map_values(
                    |a: Action|
                        Trigger {
                            triggered_at: a->ShowLoopTrigger_at,
                            command: Command::Looper(lc, target),
                        },
                ),
            )
        }),
{
    let at = engine.addressed(target);
    let r = engine.after(Command::Looper(lc, target), triggered, times);
    let is_shown = |a: Action| a is ShowLoopTrigger;
    let queued = |a: Action|
        Trigger {
            triggered_at: a->ShowLoopTrigger_at,
            command: Command::Looper(lc, target),
        };
    lemma_shown(engine, at, lc, target, triggered, times);
    let all = engine.triggers + r.actions.filter(is_shown).map_values(queued);
    assert(at_most_128(all) =~= r.engine.triggers);
}

proof fn lemma_shown(
    engine: EngineModel,
    at: Seq<usize>,
    lc: LooperCommand,
    target: LooperTarget,
    triggered: bool,
    times: TriggerTimes,
)
    ensures
        at.map_values(
            |p: usize| engine.looper_action(p, lc, target, triggered, times),
        ).filter(|a: Action| a is ShowLoopTrigger).map_values(
            |a: Action|
                Trigger {
                    triggered_at: a->ShowLoopTrigger_at,
                    command: Command::Looper(lc, target),
                },
        ) == engine.put_off(at, lc, target, triggered, times),
    decreases at.len(),
{
    let act = |p: usize| engine.looper_action(p, lc, target, triggered, times);
    let is_shown = |a: Action| a is ShowLoopTrigger;
    let queued = |a: Action|
        Trigger {
            triggered_at: a->ShowLoopTrigger_at,
            command: Command::Looper(lc, target),
        };
    reveal_with_fuel(Seq::filter, 2);
    let actions = at.map_values(act);
    if at.len() > 0 {
        let fewer = at.drop_last();
        lemma_shown(engine, fewer, lc, target, triggered, times);
        assert(actions.drop_last() =~= fewer.map_values(act));
        assert(actions.last() == act(at.last()));
        let before = fewer.map_values(act).filter(is_shown);
        if is_shown(actions.last()) {
            assert(before.push(actions.last()).map_values(queued) =~= before.map_values(
                queued,
            ).push(queued(actions.last())));
        }
    } else {
        assert(actions.filter(is_shown).map_values(queued) =~= Seq::<Trigger>::empty());
    }
}

/// Naming a looper by its index makes it the active one; no other looper command
/// moves the selection.
pub proof fn law_index_selects(
    engine: EngineModel,
    lc: LooperCommand,
    target: LooperTarget,
    triggered: bool,
    times: TriggerTimes,
    p: int,
)
    requires
        engine.loopers.len() <= usize::MAX,
        0 <= p < engine.loopers.len(),
        meant_for(engine, target, p),
    ensures
        engine.after(Command::Looper(lc, target), triggered, times).engine.active == if target
            is Index {
            engine.loopers[p].id
        } else {
            engine.active
        },
{
    lemma_addressed_literally(engine, target, p);
}

} // verus!
