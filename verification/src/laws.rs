//! What holds of the library as a whole: properties that relate several
//! operations, over all their inputs.

use vstd::prelude::*;
use vstd::utf8::{
    decode_utf8, encode_utf8, encode_utf8_decode_utf8, encode_utf8_valid_utf8, valid_utf8,
};

use crate::action::Action;
use crate::api::{
    Command, EngineState, FrameTime, LooperCommand, LooperMode, LooperTarget, Part,
};
use crate::buffer::BUFFER_SIZE;
use crate::config::MidiOutMapping;
use crate::looper::{lemma_positions, lemma_positions_any, positions, Looper, Selector};
use crate::midi::{
    controller_change, EngineSnapshotField, LogText, MidiEngineStateSnapshot, MidiEvent,
};
use crate::midi_out::{
    lemma_unchanged, looper_mapping, looper_messages, reports, state_messages, MidiOutput,
};
use crate::model::{can_wait, can_wait_globally, first_index, is_first_index, EngineModel};
use crate::ports::{decimal, digit, port_text};
use crate::schedule::{
    first_frame, io, late, law_commands_on_time, left_over, on_time, runs, steps, Step,
};
use crate::trigger::{mode_condition, Trigger, TriggerCondition, TriggerTimes};

verus! {

// ---- MIDI events ----

/// The bytes of a controller change read back as the same controller and data,
/// on the channel that is one lower: written channels count from 1, read ones
/// from 0.
pub proof fn law_controller_change_reads_back(channel: u8, controller: u8, data: u8)
    requires
        1 <= channel <= 16,
    ensures
        MidiEvent::parsed(controller_change(channel, controller, data)) == Some(
            MidiEvent::ControllerChange { channel: (channel - 1) as u8, controller, data },
        ),
{
}

/// Three bytes that read as an event are the bytes of that event, with its
/// channel counted from 1.
pub proof fn law_event_writes_back(bytes: Seq<u8>)
    requires
        MidiEvent::parsed(bytes) is Some,
    ensures
        ({
            let e = MidiEvent::parsed(bytes)->0;
            controller_change((e->channel + 1) as u8, e->controller, e->data) == bytes
        }),
{
    let e = MidiEvent::parsed(bytes)->0;
    assert(controller_change((e->channel + 1) as u8, e->controller, e->data) =~= bytes);
}

// ---- Log messages ----

/// A message after some pieces were written to it, one after the other.
pub open spec fn written(pieces: Seq<Seq<u8>>) -> LogText
    decreases pieces.len(),
{
    if pieces.len() == 0 {
        LogText::blank()
    } else {
        written(pieces.drop_last()).and(pieces.last())
    }
}

/// Some pieces, one after the other.
pub open spec fn joined(pieces: Seq<Seq<u8>>) -> Seq<u8>
    decreases pieces.len(),
{
    if pieces.len() == 0 {
        Seq::empty()
    } else {
        joined(pieces.drop_last()) + pieces.last()
    }
}

/// A message holds what was written to it: all of it as long as it fits, and
/// the beginning of it otherwise.
pub proof fn law_message_holds_what_was_written(pieces: Seq<Seq<u8>>)
    ensures
        joined(pieces).len() <= BUFFER_SIZE ==> written(pieces).bytes == joined(pieces) && written(
            pieces,
        ).intact(),
        joined(pieces).len() > BUFFER_SIZE ==> written(pieces).bytes == joined(pieces).take(
            BUFFER_SIZE as int,
        ) && !written(pieces).intact(),
        written(pieces).offered == joined(pieces).len(),
    decreases pieces.len(),
{
    if pieces.len() > 0 {
        let before = pieces.drop_last();
        law_message_holds_what_was_written(before);
        if joined(pieces).len() <= BUFFER_SIZE {
            assert(written(pieces).bytes =~= joined(pieces));
        } else {
            assert(written(pieces).bytes =~= joined(pieces).take(BUFFER_SIZE as int));
        }
    }
}

/// A text that was written to a message reads back as the same text, if it
/// fits; it may come in pieces, even such as end in the middle of a character.
pub proof fn law_message_reads_back(pieces: Seq<Seq<u8>>, text: Seq<char>)
    requires
        joined(pieces) == encode_utf8(text),
        encode_utf8(text).len() <= BUFFER_SIZE,
    ensures
        ({
            let held = written(pieces);
            let read = held.bytes.take(held.offered);
            &&& held.offered <= held.bytes.len()
            &&& valid_utf8(read)
            &&& decode_utf8(read) == text
        }),
{
    law_message_holds_what_was_written(pieces);
    let held = written(pieces);
    assert(held.bytes.take(held.offered) =~= encode_utf8(text));
    encode_utf8_valid_utf8(text);
    encode_utf8_decode_utf8(text);
}

// ---- Commands ----

/// A command whose trigger has come does what it does whatever the waiting
/// times are, and leaves the clock, the queue and the loopers alone. So a whole
/// period can be planned before its commands run.
pub proof fn law_triggered_command_leaves_the_queue(
    engine: EngineModel,
    command: Command,
    times: TriggerTimes,
    other: TriggerTimes,
)
    requires
        engine.wf(),
        can_wait(command),
    ensures
        engine.after(command, true, times) == engine.after(command, true, other),
        ({
            let after = engine.after(command, true, times).engine;
            &&& after.triggers == engine.triggers
            &&& after.time == engine.time
            &&& after.state == engine.state
            &&& after.loopers == engine.loopers
            &&& after.sync_mode == engine.sync_mode
            &&& after.metric_structure == engine.metric_structure
            &&& after.id_counter == engine.id_counter
            &&& after.wf()
        }),
{
    match command {
        Command::Looper(lc, target) => {
            let at = engine.addressed(target);
            lemma_nothing_put_off(engine, at, lc, target, times);
            lemma_nothing_put_off(engine, at, lc, target, other);
            assert(engine.triggers + Seq::<Trigger>::empty() =~= engine.triggers);
            assert(engine.after(command, true, times).actions =~= engine.after(
                command,
                true,
                other,
            ).actions);
        },
        _ => {},
    }
}

proof fn lemma_nothing_put_off(
    engine: EngineModel,
    at: Seq<usize>,
    command: LooperCommand,
    target: LooperTarget,
    times: TriggerTimes,
)
    ensures
        engine.put_off(at, command, target, true, times) == Seq::<Trigger>::empty(),
    decreases at.len(),
{
    if at.len() > 0 {
        lemma_nothing_put_off(engine, at.drop_last(), command, target, times);
    }
}

/// Level and pan apply at once, to every looper that they are meant for.
pub proof fn law_level_and_pan_apply_at_once(
    engine: EngineModel,
    command: LooperCommand,
    target: LooperTarget,
    triggered: bool,
    times: TriggerTimes,
)
    requires
        engine.wf(),
        command is SetLevel || command is SetPan,
    ensures
        ({
            let outcome = engine.after(Command::Looper(command, target), triggered, times);
            let at = engine.addressed(target);
            &&& outcome.engine.triggers == engine.triggers
            &&& outcome.actions.len() == at.len()
            &&& forall|k: int|
                0 <= k < at.len() ==> (#[trigger] outcome.actions[k] matches Action::Looper {
                    position,
                    command: c,
                    loop_sync,
                } && position == at[k] && c == command)
        }),
{
    let at = engine.addressed(target);
    lemma_level_not_put_off(engine, at, command, target, triggered, times);
    assert(engine.triggers + Seq::<Trigger>::empty() =~= engine.triggers);
}

proof fn lemma_level_not_put_off(
    engine: EngineModel,
    at: Seq<usize>,
    command: LooperCommand,
    target: LooperTarget,
    triggered: bool,
    times: TriggerTimes,
)
    requires
        command is SetLevel || command is SetPan,
    ensures
        engine.put_off(at, command, target, triggered, times) == Seq::<Trigger>::empty(),
    decreases at.len(),
{
    if at.len() > 0 {
        lemma_level_not_put_off(engine, at.drop_last(), command, target, triggered, times);
    }
}

/// What a command does depends only on the waiting times that it asks for.
pub proof fn law_unasked_times_do_not_matter(
    engine: EngineModel,
    command: Command,
    triggered: bool,
    times: TriggerTimes,
    other: TriggerTimes,
)
    requires
        engine.wf(),
        engine.asks(command, triggered, TriggerCondition::Immediate) ==> times.immediate
            == other.immediate,
        mode_condition(engine.sync_mode) != TriggerCondition::Immediate && engine.asks(
            command,
            triggered,
            mode_condition(engine.sync_mode),
        ) ==> times.quantized == other.quantized,
    ensures
        engine.after(command, triggered, times) == engine.after(command, triggered, other),
{
    match command {
        Command::Looper(lc, target) => {
            let at = engine.addressed(target);
            assert forall|k: int| 0 <= k < at.len() implies {
                let c = engine.waits_for(#[trigger] at[k], lc, triggered);
                c is Some ==> times.at(c->0) == other.at(c->0)
            } by {
                let c = engine.waits_for(at[k], lc, triggered);
                if c is Some {
                    assert(engine.asks(command, triggered, c->0));
                    assert(c->0 == TriggerCondition::Immediate || c->0 == mode_condition(
                        engine.sync_mode,
                    ));
                }
            }
            lemma_same_put_off(engine, at, lc, target, triggered, times, other);
            assert(engine.after(command, triggered, times).actions =~= engine.after(
                command,
                triggered,
                other,
            ).actions);
        },
        _ => {
            if can_wait_globally(command) && engine.state != EngineState::Stopped && !triggered {
                let c = engine.global_condition(command);
                assert(engine.asks(command, triggered, c));
                assert(times.at(c) == other.at(c));
            }
        },
    }
}

proof fn lemma_same_put_off(
    engine: EngineModel,
    at: Seq<usize>,
    command: LooperCommand,
    target: LooperTarget,
    triggered: bool,
    times: TriggerTimes,
    other: TriggerTimes,
)
    requires
        forall|k: int|
            0 <= k < at.len() ==> {
                let c = engine.waits_for(#[trigger] at[k], command, triggered);
                c is Some ==> times.at(c->0) == other.at(c->0)
            },
    ensures
        engine.put_off(at, command, target, triggered, times) == engine.put_off(
            at,
            command,
            target,
            triggered,
            other,
        ),
    decreases at.len(),
{
    if at.len() > 0 {
        let before = at.drop_last();
        assert forall|k: int| 0 <= k < before.len() implies {
            let c = engine.waits_for(#[trigger] before[k], command, triggered);
            c is Some ==> times.at(c->0) == other.at(c->0)
        } by {
            assert(before[k] == at[k]);
        }
        lemma_same_put_off(engine, before, command, target, triggered, times, other);
        assert(at[at.len() - 1] == at.last());
    }
}

/// In sync, the first looper leads and all others follow it.
pub proof fn law_only_the_first_leads(
    engine: EngineModel,
    command: LooperCommand,
    times: TriggerTimes,
)
    requires
        engine.wf(),
    ensures
        ({
            let outcome = engine.after(
                Command::Looper(command, LooperTarget::AllSync),
                true,
                times,
            );
            &&& outcome.actions.len() == engine.loopers.len()
            &&& forall|i: int|
                0 <= i < engine.loopers.len() ==> #[trigger] outcome.actions[i] == (
                Action::Looper { position: i as usize, command, loop_sync: i != 0 })
        }),
{
    lemma_positions_any(engine.loopers);
}

/// Starting and stopping from a standstill leads back to a standstill at the
/// start, with nothing waiting.
pub proof fn law_start_stop_comes_back(engine: EngineModel, times: TriggerTimes)
    requires
        engine.state == EngineState::Stopped,
    ensures
        ({
            let started = engine.after(Command::StartStop, false, times).engine;
            let stopped = started.after(Command::StartStop, false, times).engine;
            &&& started.state == EngineState::Active
            &&& stopped.state == EngineState::Stopped
            &&& stopped.time == 0
            &&& stopped.triggers.len() == 0
        }),
{
}

/// Pausing and playing on changes nothing.
pub proof fn law_pause_and_play_on(engine: EngineModel, times: TriggerTimes)
    requires
        engine.state == EngineState::Active,
    ensures
        engine.after(Command::PlayPause, false, times).engine.after(
            Command::PlayPause,
            false,
            times,
        ).engine == engine,
        engine.after(Command::PlayPause, false, times).engine.state == EngineState::Paused,
{
}

/// Switching the mode twice comes back to the same mode.
pub proof fn law_toggle_twice(engine: EngineModel)
    ensures
        engine.after_toggle().engine.after_toggle().engine == engine,
{
}

// ---- Selection ----

/// Where the ids of the loopers in the part differ, selecting the next looper
/// and then the previous one comes back to the active looper, if it is in the
/// part.
pub proof fn law_previous_undoes_next(engine: EngineModel)
    requires
        engine.members().no_duplicates(),
        engine.members().contains(engine.active),
    ensures
        engine.after_select_neighbour(true).after_select_neighbour(false) == engine,
        engine.after_select_neighbour(false).after_select_neighbour(true) == engine,
{
    let ids = engine.members();
    let n = ids.len() as int;
    let k = ids.index_of(engine.active);
    lemma_first_index_unique(ids, engine.active, k);
    assert(first_index(ids, engine.active) == k);
    let next = engine.after_select_neighbour(true);
    let previous = engine.after_select_neighbour(false);
    assert(next.members() =~= ids);
    assert(previous.members() =~= ids);
    let i = (k + 1) % n;
    let j = (k + n - 1) % n;
    vstd::arithmetic::div_mod::lemma_mod_bound(k + 1, n);
    vstd::arithmetic::div_mod::lemma_mod_bound(k + n - 1, n);
    lemma_first_index_unique(ids, next.active, i);
    lemma_first_index_unique(ids, previous.active, j);
    if k + 1 < n {
        vstd::arithmetic::div_mod::lemma_small_mod((k + 1) as nat, n as nat);
        vstd::arithmetic::div_mod::lemma_mod_add_multiples_vanish(k, n);
        vstd::arithmetic::div_mod::lemma_small_mod(k as nat, n as nat);
        assert((i + n - 1) % n == k);
    } else {
        vstd::arithmetic::div_mod::lemma_mod_self_0(n);
        vstd::arithmetic::div_mod::lemma_small_mod((n - 1) as nat, n as nat);
        assert((i + n - 1) % n == k);
    }
    if k > 0 {
        vstd::arithmetic::div_mod::lemma_mod_add_multiples_vanish(k - 1, n);
        vstd::arithmetic::div_mod::lemma_small_mod((k - 1) as nat, n as nat);
        vstd::arithmetic::div_mod::lemma_small_mod(k as nat, n as nat);
        assert(n + (k - 1) == k + n - 1);
        assert((j + 1) % n == k);
    } else {
        vstd::arithmetic::div_mod::lemma_small_mod((n - 1) as nat, n as nat);
        vstd::arithmetic::div_mod::lemma_mod_self_0(n);
        assert((j + 1) % n == k);
    }
}

/// The engine after the next looper was selected some number of times.
pub open spec fn after_nexts(engine: EngineModel, times: nat) -> EngineModel
    decreases times,
{
    if times == 0 {
        engine
    } else {
        after_nexts(engine, (times - 1) as nat).after_select_neighbour(true)
    }
}

/// Counting around once.
proof fn lemma_around(x: int, n: int)
    requires
        0 <= x < 2 * n,
    ensures
        x % n == if x < n {
            x
        } else {
            x - n
        },
{
    if x < n {
        vstd::arithmetic::div_mod::lemma_small_mod(x as nat, n as nat);
    } else {
        vstd::arithmetic::div_mod::lemma_mod_add_multiples_vanish(x - n, n);
        vstd::arithmetic::div_mod::lemma_small_mod((x - n) as nat, n as nat);
    }
}

proof fn lemma_after_nexts(engine: EngineModel, at: int, times: nat)
    requires
        engine.members().no_duplicates(),
        0 <= at < engine.members().len(),
        engine.members()[at] == engine.active,
        times <= engine.members().len(),
    ensures
        after_nexts(engine, times) == engine.with_active(
            engine.members()[(at + times) % (engine.members().len() as int)],
        ),
    decreases times,
{
    let ids = engine.members();
    let n = ids.len() as int;
    lemma_around(at + times, n);
    if times > 0 {
        let fewer = (times - 1) as nat;
        lemma_after_nexts(engine, at, fewer);
        lemma_around(at + fewer, n);
        let there = after_nexts(engine, fewer);
        let k = (at + fewer) % n;
        assert(there.members() =~= ids);
        lemma_first_index_unique(ids, there.active, k);
        lemma_around(k + 1, n);
    }
}

/// Where the ids of the loopers in the part differ and the active looper is one
/// of them, selecting the next looper as often as there are loopers in the part
/// comes back to it, and selects each of them once.
pub proof fn law_nexts_go_around(engine: EngineModel)
    requires
        engine.members().no_duplicates(),
        engine.members().contains(engine.active),
    ensures
        after_nexts(engine, engine.members().len()) == engine,
        forall|j: nat, k: nat|
            0 < j < k <= engine.members().len() ==> (#[trigger] after_nexts(engine, j)).active != (
            #[trigger] after_nexts(engine, k)).active,
        forall|id: u32| #[trigger]
            engine.members().contains(id) ==> exists|k: nat|
                0 < k <= engine.members().len() && (#[trigger] after_nexts(engine, k)).active == id,
{
    let ids = engine.members();
    let n = ids.len() as int;
    let at = ids.index_of(engine.active);
    lemma_after_nexts(engine, at, n as nat);
    lemma_around(at + n, n);
    assert forall|j: nat, k: nat| 0 < j < k <= n implies (#[trigger] after_nexts(engine, j)).active
        != (#[trigger] after_nexts(engine, k)).active by {
        lemma_after_nexts(engine, at, j);
        lemma_after_nexts(engine, at, k);
        lemma_around(at + j, n);
        lemma_around(at + k, n);
    }
    assert forall|id: u32| #[trigger] ids.contains(id) implies exists|k: nat|
        0 < k <= n && (#[trigger] after_nexts(engine, k)).active == id by {
        let i = ids.index_of(id);
        let k = (if i > at {
            i - at
        } else {
            i - at + n
        }) as nat;
        lemma_after_nexts(engine, at, k);
        lemma_around(at + k, n);
        assert(after_nexts(engine, k).active == id);
    }
}

proof fn lemma_first_index_unique(ids: Seq<u32>, id: u32, k: int)
    requires
        ids.no_duplicates(),
        0 <= k < ids.len(),
        ids[k] == id,
    ensures
        first_index(ids, id) == k,
        ids.contains(id),
{
    assert(is_first_index(ids, id, k));
}

/// Going to a part in which a live looper plays leaves a looper of that part
/// active; the active looper stays active if it is one.
pub proof fn law_part_has_its_looper_active(engine: EngineModel, part: Part)
    requires
        engine.wf(),
    ensures
        engine.after_part(part).current_part == part,
        engine.occupied(part) ==> engine.after_part(part).active_in_part(),
        (EngineModel { current_part: part, ..engine }).active_in_part() ==> engine.after_part(
            part,
        ).active == engine.active,
{
    let there = EngineModel { current_part: part, ..engine };
    let at = positions(engine.loopers, Selector::LiveIn(part));
    lemma_positions(engine.loopers, Selector::LiveIn(part));
    if engine.occupied(part) && !there.active_in_part() {
        let i = choose|i: int|
            0 <= i < engine.loopers.len() && Selector::LiveIn(part).picks(
                #[trigger] engine.loopers[i],
            );
        assert(at.contains(i as usize));
        let p = at[0] as int;
        assert(Selector::LiveIn(part).picks(engine.loopers[p]));
        assert(there.members()[0] == engine.loopers[p].id);
        assert(engine.after_part(part).loopers[p].id == engine.after_part(part).active);
    }
}

/// From a part in which a live looper plays, going one part ahead and one back
/// comes back to it, and so does going one back and one ahead.
pub proof fn law_parts_go_around(engine: EngineModel)
    requires
        engine.occupied(engine.current_part),
    ensures
        engine.after_part(engine.part_ahead()).part_behind() == engine.current_part,
        engine.after_part(engine.part_behind()).part_ahead() == engine.current_part,
{
    let ahead = engine.after_part(engine.part_ahead());
    let behind = engine.after_part(engine.part_behind());
    assert forall|p: Part| ahead.occupied(p) == engine.occupied(p) by {
        assert(ahead.loopers == engine.loopers);
    }
    assert forall|p: Part| behind.occupied(p) == engine.occupied(p) by {
        assert(behind.loopers == engine.loopers);
    }
}

/// Turning over the parts only ever stops at one in which a live looper plays,
/// or stays.
pub proof fn law_parts_stop_where_something_plays(engine: EngineModel)
    ensures
        engine.part_ahead() == engine.current_part || engine.occupied(engine.part_ahead()),
        engine.part_behind() == engine.current_part || engine.occupied(engine.part_behind()),
{
}

// ---- Ids ----

/// A new looper gets an id that no looper has, and becomes the active one; ids
/// that were given out stay below the next.
pub proof fn law_new_looper_has_a_new_id(engine: EngineModel, times: TriggerTimes, fresh: Looper)
    requires
        engine.wf(),
        engine.ids_given_out(),
        engine.takes(Command::AddLooper, false),
    ensures
        ({
            let outcome = engine.after(Command::AddLooper, false, times);
            let id = outcome.engine.active;
            let added = EngineModel {
                loopers: outcome.engine.loopers.push(Looper { id, ..fresh }),
                ..outcome.engine
            };
            &&& outcome.actions == seq![Action::CreateLooper { id, part: engine.current_part }]
            &&& forall|i: int|
                0 <= i < engine.loopers.len() ==> (#[trigger] engine.loopers[i]).id != id
            &&& added.ids_given_out()
        }),
{
}

/// Whatever a command does, the loopers stay as they are until they are
/// reported, and ids that were given out stay given out.
pub proof fn law_commands_keep_the_loopers(
    engine: EngineModel,
    command: Command,
    triggered: bool,
    times: TriggerTimes,
)
    ensures
        engine.after(command, triggered, times).engine.loopers == engine.loopers,
        engine.ids_given_out() ==> engine.after(command, triggered, times).engine.ids_given_out(),
{
}

/// Loopers whose ids differ keep doing so: whatever the command, when a new
/// looper is added under the id that it was given, when it reports under its own
/// id, and when a period begins.
pub proof fn law_ids_stay_distinct(
    engine: EngineModel,
    command: Command,
    triggered: bool,
    times: TriggerTimes,
    looper: Looper,
    position: int,
    frames: int,
)
    requires
        engine.wf(),
        engine.ids_differ(),
        engine.ids_given_out(),
    ensures
        engine.after(command, triggered, times).engine.ids_differ(),
        engine.takes(Command::AddLooper, false) ==> ({
            let added = engine.after(Command::AddLooper, false, times).engine;
            (EngineModel {
                loopers: added.loopers.push(Looper { id: added.active, ..looper }),
                ..added
            }).ids_differ()
        }),
        0 <= position < engine.loopers.len() && looper.id == engine.loopers[position].id ==> (
        EngineModel {
            loopers: engine.loopers.update(position, looper),
            ..engine
        }).ids_differ(),
        engine.after_planning(frames).ids_differ(),
{
    law_commands_keep_the_loopers(engine, command, triggered, times);
    lemma_filter_keeps_ids(engine.loopers);
    let updated = engine.loopers.update(position, looper);
    if 0 <= position < engine.loopers.len() && looper.id == engine.loopers[position].id {
        assert forall|i: int, j: int| 0 <= i < j < updated.len() implies (#[trigger] updated[i]).id
            != (#[trigger] updated[j]).id by {
            assert(engine.loopers[i].id != engine.loopers[j].id);
        }
    }
}

proof fn lemma_filter_keeps_ids(loopers: Seq<Looper>)
    requires
        forall|i: int, j: int|
            0 <= i < j < loopers.len() ==> (#[trigger] loopers[i]).id != (
            #[trigger] loopers[j]).id,
    ensures
        ({
            let left = loopers.filter(|l: Looper| !l.deleted);
            forall|i: int, j: int|
                0 <= i < j < left.len() ==> (#[trigger] left[i]).id != (#[trigger] left[j]).id
        }),
    decreases loopers.len(),
{
    let kept = |l: Looper| !l.deleted;
    reveal_with_fuel(Seq::filter, 2);
    if loopers.len() > 0 {
        let shorter = loopers.drop_last();
        let before = shorter.filter(kept);
        lemma_filter_keeps_ids(shorter);
        assert forall|i: int| 0 <= i < before.len() implies (#[trigger] before[i]).id
            != loopers.last().id by {
            assert(before.contains(before[i]));
            shorter.lemma_filter_contains_rev(kept, before[i]);
            let p = shorter.index_of(before[i]);
            assert(loopers[p] == before[i]);
            assert(loopers[p].id != loopers[loopers.len() - 1].id);
        }
    }
}

/// When a session is loaded, every id of its loopers counts as given out.
pub proof fn law_session_ids_are_given_out(engine: EngineModel)
    ensures
        engine.after_session().engine.ids_given_out(),
        engine.after_session().engine.time == 0,
        engine.after_session().engine.triggers.len() == 0,
{
    EngineModel::lemma_highest_id(engine.loopers);
}

// ---- Periods ----

/// After a period began, no looper is deleted, and an engine that has something
/// to do is not stopped.
pub proof fn law_period_begins_clean(engine: EngineModel)
    ensures
        forall|i: int|
            0 <= i < engine.at_period().loopers.len() ==> !(
            #[trigger] engine.at_period().loopers[i]).deleted,
        engine.at_period().triggers.len() > 0 || engine.at_period().capturing()
            ==> engine.at_period().state != EngineState::Stopped,
{
    let kept = |l: Looper| !l.deleted;
    broadcast use vstd::seq_lib::group_filter_ensures;
    assert forall|i: int| 0 <= i < engine.at_period().loopers.len() implies !(
    #[trigger] engine.at_period().loopers[i]).deleted by {
        assert(kept(engine.loopers.filter(kept)[i]));
    }
    let woken = engine.at_period();
    let asleep = engine.after_removal();
    assert(woken.capturing() == asleep.capturing()) by {
        assert(woken.loopers == asleep.loopers);
    }
}

/// A period whose commands run one by one, between the loopers' turns, each on
/// the engine that the one before it left behind. The loopers may have changed
/// in any way after each. Returns the steps that were taken, and the engine
/// after the last of them; `rounds` bounds how many triggers are looked at.
pub open spec fn one_by_one(
    engine: EngineModel,
    origin: int,
    now: int,
    end: int,
    rounds: nat,
    times: TriggerTimes,
    loopers_then: spec_fn(EngineModel) -> Seq<Looper>,
) -> (Seq<Step>, EngineModel)
    decreases rounds,
{
    if now >= end || rounds == 0 {
        (Seq::empty(), engine)
    } else if engine.triggers.len() > 0 && engine.triggers[0].triggered_at.0 < end {
        let t = engine.triggers[0];
        let at = t.triggered_at.0 as int;
        let taken = EngineModel { triggers: engine.triggers.drop_first(), ..engine };
        let fewer = (rounds - 1) as nat;
        if late(t, now) {
            one_by_one(taken, origin, now, end, fewer, times, loopers_then)
        } else {
            let then = if at > now {
                at
            } else {
                now
            };
            let turn = if at > now {
                seq![io(origin, now, at)]
            } else {
                Seq::empty()
            };
            let ran = taken.after(t.command, true, times).engine;
            let seen = EngineModel { loopers: loopers_then(ran), ..ran };
            let rest = one_by_one(seen, origin, then, end, fewer, times, loopers_then);
            (turn.push(Step::Run(t)) + rest.0, rest.1)
        }
    } else {
        (seq![io(origin, now, end)], engine)
    }
}

/// Planning a period before any of its commands runs comes to the same as
/// running them one by one, whatever they do to the engine and however the
/// loopers change meanwhile: the same steps are taken in the same order, and the
/// same commands are left waiting.
pub proof fn law_plan_foresees_the_period(
    engine: EngineModel,
    origin: int,
    now: int,
    end: int,
    rounds: nat,
    times: TriggerTimes,
    loopers_then: spec_fn(EngineModel) -> Seq<Looper>,
)
    requires
        engine.wf(),
        rounds > engine.triggers.len(),
        forall|m: EngineModel| (#[trigger] loopers_then(m)).len() <= usize::MAX,
    ensures
        ({
            let r = one_by_one(engine, origin, now, end, rounds, times, loopers_then);
            &&& r.0 == steps(engine.triggers, origin, now, end)
            &&& r.1.triggers == left_over(engine.triggers, now, end)
        }),
    decreases rounds,
{
    if now < end && engine.triggers.len() > 0 && engine.triggers[0].triggered_at.0 < end {
        let t = engine.triggers[0];
        let at = t.triggered_at.0 as int;
        let rest = engine.triggers.drop_first();
        let taken = EngineModel { triggers: rest, ..engine };
        let fewer = (rounds - 1) as nat;
        assert forall|i: int| 0 <= i < rest.len() implies can_wait((#[trigger] rest[i]).command) by {
            assert(rest[i] == engine.triggers[i + 1]);
        }
        if late(t, now) {
            law_plan_foresees_the_period(taken, origin, now, end, fewer, times, loopers_then);
        } else {
            let then = if at > now {
                at
            } else {
                now
            };
            law_triggered_command_leaves_the_queue(taken, t.command, times, times);
            let ran = taken.after(t.command, true, times).engine;
            let seen = EngineModel { loopers: loopers_then(ran), ..ran };
            law_plan_foresees_the_period(seen, origin, then, end, fewer, times, loopers_then);
            let r = one_by_one(engine, origin, now, end, rounds, times, loopers_then);
            assert(r.0 =~= steps(engine.triggers, origin, now, end));
        }
    }
}

/// What starts a recording always waits as the quantization mode has it, and is
/// never carried out before its trigger has come.
pub proof fn law_recording_waits(engine: EngineModel, target: LooperTarget, times: TriggerTimes)
    requires
        engine.wf(),
    ensures
        ({
            let outcome = engine.after(Command::Looper(LooperCommand::Record, target), false, times);
            let at = engine.addressed(target);
            &&& outcome.actions.len() == at.len()
            &&& forall|k: int|
                0 <= k < at.len() ==> #[trigger] outcome.actions[k] == (Action::ShowLoopTrigger {
                    looper: engine.loopers[at[k] as int].id,
                    at: times.at(mode_condition(engine.sync_mode)),
                    command: LooperCommand::Record,
                })
        }),
{
}

/// Whether a time falls into the period of some frames that is about to begin,
/// or means without waiting.
pub open spec fn due_in_period(engine: EngineModel, at: FrameTime, frames: int) -> bool {
    &&& at.0 == 0 || first_frame(engine.time) <= at.0
    &&& at.0 < engine.time + frames
    &&& first_frame(engine.time) < engine.time + frames
}

proof fn lemma_lone_trigger_runs(waiting: EngineModel, due: Trigger, frames: int)
    requires
        waiting.wf(),
        waiting.state == EngineState::Active,
        waiting.triggers == seq![due],
        0 <= frames <= usize::MAX,
        waiting.time + frames <= i64::MAX,
        due_in_period(waiting, due.triggered_at, frames),
    ensures
        runs(waiting.planned(frames)) == seq![due],
        on_time(waiting.planned(frames), first_frame(waiting.time)),
        waiting.after_planning(frames).triggers.len() == 0,
{
    let at = due.triggered_at;
    let now = first_frame(waiting.time);
    let end = waiting.time + frames;
    let rest = waiting.triggers.drop_first();
    assert(rest =~= Seq::<Trigger>::empty());
    let plan = waiting.planned(frames);
    assert(plan == steps(waiting.triggers, waiting.time, now, end));
    let then = if at.0 > now {
        at.0 as int
    } else {
        now
    };
    let tail = seq![io(waiting.time, then, end)];
    assert(steps(rest, waiting.time, then, end) == tail);
    reveal_with_fuel(runs, 5);
    reveal_with_fuel(left_over, 3);
    assert(tail.drop_first() =~= Seq::<Step>::empty());
    assert(runs(tail) =~= Seq::<Trigger>::empty());
    if at.0 > now {
        assert(plan.drop_first() =~= seq![Step::Run(due)] + tail);
        assert(plan.drop_first().drop_first() =~= tail);
        assert(runs(plan) =~= seq![due]);
    } else {
        assert(plan.drop_first() =~= tail);
        assert(runs(plan) =~= seq![due]);
    }
    law_commands_on_time(waiting.triggers, waiting.time, frames);
}

/// A change of part, a selection or a change of mode that is put off runs in the
/// period in which its time falls, at just that time, and then does what it
/// would have done at once.
pub proof fn law_put_off_change_runs(
    engine: EngineModel,
    command: Command,
    times: TriggerTimes,
    frames: int,
)
    requires
        engine.wf(),
        engine.state == EngineState::Active,
        engine.triggers.len() == 0,
        can_wait_globally(command),
        !engine.runs_now(command, false, times),
        0 <= frames <= usize::MAX,
        engine.time + frames <= i64::MAX,
        due_in_period(engine, times.at(engine.global_condition(command)), frames),
    ensures
        ({
            let at = times.at(engine.global_condition(command));
            let waiting = engine.after(command, false, times).engine;
            let due = Trigger { triggered_at: at, command };
            &&& waiting.triggers == seq![due]
            &&& runs(waiting.planned(frames)) == seq![due]
            &&& on_time(waiting.planned(frames), first_frame(engine.time))
            &&& waiting.after_planning(frames).triggers.len() == 0
            &&& engine.after(due.command, true, times) == engine.after_run(command)
        }),
{
    let at = times.at(engine.global_condition(command));
    let waiting = engine.after(command, false, times).engine;
    assert(waiting.triggers =~= seq![Trigger { triggered_at: at, command }]);
    lemma_lone_trigger_runs(waiting, Trigger { triggered_at: at, command }, frames);
}

/// A command to a single looper that is put off runs in the period in which its
/// time falls, at just that time; and then it is carried out on the looper that
/// it was meant for. Naming the looper by its index makes it active when the
/// command arrives, and when it runs; otherwise the active looper stays.
pub proof fn law_put_off_command_runs(
    engine: EngineModel,
    command: LooperCommand,
    target: LooperTarget,
    times: TriggerTimes,
    frames: int,
)
    requires
        engine.wf(),
        engine.state == EngineState::Active,
        engine.triggers.len() == 0,
        0 <= frames <= usize::MAX,
        engine.time + frames <= i64::MAX,
        target is Id || target is Index || target is Selected,
        engine.addressed(target).len() > 0,
        ({
            let c = engine.waits_for(engine.addressed(target)[0], command, false);
            &&& c is Some
            &&& due_in_period(engine, times.at(c->0), frames)
        }),
    ensures
        ({
            let position = engine.addressed(target)[0];
            let at = times.at(engine.waits_for(position, command, false)->0);
            let waiting = engine.after(Command::Looper(command, target), false, times).engine;
            let due = Trigger { triggered_at: at, command: Command::Looper(command, target) };
            let ran = waiting.after(due.command, true, times);
            let active = if target is Index {
                engine.loopers[position as int].id
            } else {
                engine.active
            };
            &&& waiting.triggers == seq![due]
            &&& waiting.active == active
            &&& runs(waiting.planned(frames)) == seq![due]
            &&& on_time(waiting.planned(frames), first_frame(engine.time))
            &&& waiting.after_planning(frames).triggers.len() == 0
            &&& ran.actions == seq![Action::Looper { position, command, loop_sync: false }]
            &&& ran.engine == waiting
        }),
{
    let positions = engine.addressed(target);
    let position = positions[0];
    let at = times.at(engine.waits_for(position, command, false)->0);
    let due = Trigger { triggered_at: at, command: Command::Looper(command, target) };
    let waiting = engine.after(Command::Looper(command, target), false, times).engine;
    assert(positions.drop_last() =~= Seq::<usize>::empty());
    reveal_with_fuel(EngineModel::put_off, 2);
    assert(engine.put_off(positions, command, target, false, times) =~= seq![due]);
    assert(waiting.triggers =~= seq![due]);
    lemma_lone_trigger_runs(waiting, due, frames);
    let ran = waiting.after(due.command, true, times);
    assert(waiting.addressed(target) == positions);
    assert(ran.actions =~= seq![Action::Looper { position, command, loop_sync: false }]);
    law_triggered_command_leaves_the_queue(waiting, due.command, times, times);
    assert(ran.engine =~= waiting);
}

// ---- MIDI output ----

/// A snapshot like the one before it leads to no messages about the state.
pub proof fn law_unchanged_state_is_silent(
    mappings: Seq<MidiOutMapping>,
    state: MidiEngineStateSnapshot,
)
    ensures
        state_messages(mappings, state, Some(state)) == Seq::<Seq<u8>>::empty(),
    decreases mappings.len(),
{
    if mappings.len() > 0 {
        law_unchanged_state_is_silent(mappings.drop_last(), state);
    }
}

/// Whether some messages stand in a report at some places, in order.
pub open spec fn stand_at(messages: Seq<Seq<u8>>, report: Seq<Seq<u8>>, places: Seq<int>) -> bool {
    &&& places.len() == messages.len()
    &&& forall|i: int|
        0 <= i < places.len() ==> 0 <= #[trigger] places[i] < report.len() && report[places[i]]
            == messages[i]
    &&& forall|i: int, j: int| 0 <= i < j < places.len() ==> places[i] < places[j]
}

/// Whether every field that is reported differs between two snapshots.
pub open spec fn all_differ(new: MidiEngineStateSnapshot, before: MidiEngineStateSnapshot) -> bool {
    &&& new.engine_state != before.engine_state
    &&& new.engine_mode != before.engine_mode
    &&& new.sync_mode != before.sync_mode
    &&& new.metronome != before.metronome
    &&& new.active_looper != before.active_looper
    &&& new.looper_count != before.looper_count
}

/// What is reported as new in a snapshot is part of its report in full, in the
/// same order; and it is all of it where every field is new.
pub proof fn law_news_are_part_of_full_report(
    mappings: Seq<MidiOutMapping>,
    new: MidiEngineStateSnapshot,
    before: MidiEngineStateSnapshot,
)
    ensures
        exists|places: Seq<int>|
            stand_at(
                state_messages(mappings, new, Some(before)),
                state_messages(mappings, new, None),
                places,
            ),
        all_differ(new, before) ==> state_messages(mappings, new, Some(before))
            == state_messages(mappings, new, None),
    decreases mappings.len(),
{
    let news = state_messages(mappings, new, Some(before));
    let all = state_messages(mappings, new, None);
    if mappings.len() == 0 {
        assert(stand_at(news, all, Seq::empty()));
    } else {
        let earlier = mappings.drop_last();
        law_news_are_part_of_full_report(earlier, new, before);
        let old_news = state_messages(earlier, new, Some(before));
        let old_all = state_messages(earlier, new, None);
        let places = choose|places: Seq<int>| stand_at(old_news, old_all, places);
        law_reports_follow_the_fields(mappings.last(), new, before);
        if reports(mappings.last(), new, Some(before)) {
            let longer = places.push(all.len() - 1);
            assert forall|i: int| 0 <= i < longer.len() implies 0 <= #[trigger] longer[i]
                < all.len() && all[longer[i]] == news[i] by {
                if i < places.len() {
                    assert(longer[i] == places[i]);
                }
            }
            assert(stand_at(news, all, longer));
        } else {
            assert forall|i: int| 0 <= i < places.len() implies 0 <= #[trigger] places[i]
                < all.len() && all[places[i]] == news[i] by {}
            assert(stand_at(news, all, places));
        }
    }
}

/// A mapping reports again exactly when the field that it is for has another
/// value.
pub proof fn law_reports_follow_the_fields(
    mapping: MidiOutMapping,
    new: MidiEngineStateSnapshot,
    before: MidiEngineStateSnapshot,
)
    ensures
        reports(mapping, new, Some(before)) <==> match mapping.field {
            EngineSnapshotField::EngineState => new.engine_state != before.engine_state,
            EngineSnapshotField::EngineMode => new.engine_mode != before.engine_mode,
            EngineSnapshotField::QuantizationMode => new.sync_mode != before.sync_mode,
            EngineSnapshotField::Metronome => new.metronome != before.metronome,
            EngineSnapshotField::ActiveLooper => new.active_looper != before.active_looper,
            EngineSnapshotField::LooperCount => new.looper_count != before.looper_count,
            _ => false,
        },
{
}

/// Once a snapshot was reported, reporting it again with the same looper modes
/// leads to no messages. `before` and `after` are what the output remembers
/// around the first report.
pub proof fn law_repeated_snapshot_is_silent(
    before: MidiOutput,
    after: MidiOutput,
    state: MidiEngineStateSnapshot,
    modes: Seq<LooperMode>,
    mappings: Seq<MidiOutMapping>,
)
    requires
        before.current_state is Some,
        after.current_state == Some(state),
        after.first == (before.first && !before.in_full(state)),
        after.looper_modes@ == before.next_modes(modes, mappings),
    ensures
        after.messages(state, modes, mappings) == Seq::<Seq<u8>>::empty(),
{
    law_unchanged_state_is_silent(mappings, state);
    if looper_mapping(mappings) is Some {
        lemma_unchanged(modes, modes);
        assert(looper_messages(
            looper_mapping(mappings)->0,
            modes,
            modes.len() as int,
        ) =~= Seq::<Seq<u8>>::empty());
    }
    assert(after.messages(state, modes, mappings) =~= Seq::<Seq<u8>>::empty());
}

/// From the first changed looper on, every looper is reported, on a controller
/// of its own.
pub proof fn law_each_looper_on_its_own_controller(
    mapping: MidiOutMapping,
    modes: Seq<LooperMode>,
    from: int,
    j: int,
    k: int,
)
    requires
        0 <= from <= modes.len(),
        mapping.controller + modes.len() <= 256,
        0 <= j < k < modes.len() - from,
    ensures
        looper_messages(mapping, modes, from)[j][1] < looper_messages(mapping, modes, from)[k][1],
{
}

// ---- Ports ----

/// A looper whose ports were opened is not given ports again, and closing them
/// leaves the other loopers' ports as they were.
pub proof fn law_closing_undoes_opening<P>(ports: Map<u32, (P, P)>, id: u32, left: P, right: P)
    requires
        !ports.contains_key(id),
    ensures
        ports.insert(id, (left, right)).contains_key(id),
        ports.insert(id, (left, right)).remove(id) == ports,
{
    assert(ports.insert(id, (left, right)).remove(id) =~= ports);
}

/// Different loopers, and the two sides of a looper, have ports of different
/// names.
pub proof fn law_port_names_differ(a: u32, right_a: bool, b: u32, right_b: bool)
    requires
        port_text(a, right_a) == port_text(b, right_b),
    ensures
        a == b,
        right_a == right_b,
{
    reveal_strlit("loop");
    reveal_strlit("_out_l");
    reveal_strlit("_out_r");
    let x = port_text(a, right_a);
    let y = port_text(b, right_b);
    assert(x.last() == if right_a {
        'r'
    } else {
        'l'
    });
    assert(y.last() == if right_b {
        'r'
    } else {
        'l'
    });
    assert(x.subrange(4, x.len() - 6) =~= decimal(a as nat));
    assert(y.subrange(4, y.len() - 6) =~= decimal(b as nat));
    lemma_decimal_injective(a as nat, b as nat);
}

proof fn lemma_decimal_injective(a: nat, b: nat)
    requires
        decimal(a) == decimal(b),
    ensures
        a == b,
    decreases a,
{
    lemma_decimal_len(a);
    lemma_decimal_len(b);
    if a < 10 {
        if b < 10 {
            assert(digit(a)[0] == digit(b)[0]);
        } else {
            lemma_decimal_len(b / 10);
        }
    } else if b < 10 {
        lemma_decimal_len(a / 10);
    } else {
        let x = decimal(a);
        let y = decimal(b);
        assert(x.last() == digit(a % 10)[0]);
        assert(y.last() == digit(b % 10)[0]);
        assert(x.drop_last() =~= decimal(a / 10));
        assert(y.drop_last() =~= decimal(b / 10));
        lemma_decimal_injective(a / 10, b / 10);
    }
}

proof fn lemma_decimal_len(n: nat)
    ensures
        decimal(n).len() >= 1,
        n >= 10 ==> decimal(n).len() == decimal(n / 10).len() + 1,
        n < 10 ==> decimal(n).len() == 1,
    decreases n,
{
    if n >= 10 {
        lemma_decimal_len(n / 10);
    }
}

} // verus!
