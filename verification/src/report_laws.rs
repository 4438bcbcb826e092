//! What goes to MIDI devices and comes from them, byte by byte, and what a device
//! learns from it.

use vstd::prelude::*;

use crate::api::{EngineMode, EngineState, LooperMode, QuantizationMode};
use crate::config::MidiOutMapping;
use crate::looper::{positions, Selector};
use crate::midi::{
    controller_change, EngineSnapshotField, MidiEngineStateSnapshot, MidiEvent, MidiOutCommand,
};
use crate::midi_out::{
    all_looper_messages, field_data, lemma_unchanged, looper_mapping, looper_messages, mode_data,
    report_from, reports, state_channels_ok, state_messages, unchanged, MidiOutput,
};
use crate::model::EngineModel;

verus! {

// ---- Bytes ----

/// The status byte of a controller change on a channel, counted from 1.
pub open spec fn status(channel: u8) -> int {
    0xb0 + (channel - 1) % 16
}

/// A controller change is a status byte, the controller and the data.
pub proof fn law_controller_change_bytes(channel: u8, controller: u8, data: u8)
    requires
        channel >= 1,
    ensures
        ({
            let bytes = controller_change(channel, controller, data);
            &&& bytes.len() == 3
            &&& bytes[0] == status(channel)
            &&& bytes[1] == controller
            &&& bytes[2] == data
        }),
{
}

/// Just the messages of three bytes with a status of 0xb0 up to 0xbf are
/// controller changes; what the status is above 0xb0 is the channel, counted
/// from 0, and controller and data follow.
pub proof fn law_controller_change_is_recognized(bytes: Seq<u8>)
    ensures
        MidiEvent::parsed(bytes) is Some <==> bytes.len() == 3 && 0xb0 <= bytes[0] <= 0xbf,
        MidiEvent::parsed(bytes) matches Some(MidiEvent::ControllerChange {
            channel,
            controller,
            data,
        }) ==> {
            &&& channel == bytes[0] - 0xb0
            &&& controller == bytes[1]
            &&& data == bytes[2]
        },
{
}

/// Each field goes by its name, and by no other; every other name is unknown.
pub proof fn law_fields_by_name(name: Seq<char>)
    ensures
        EngineSnapshotField::named("EngineState"@) == EngineSnapshotField::EngineState,
        EngineSnapshotField::named("EngineMode"@) == EngineSnapshotField::EngineMode,
        EngineSnapshotField::named("QuantizationMode"@) == EngineSnapshotField::QuantizationMode,
        EngineSnapshotField::named("Metronome"@) == EngineSnapshotField::Metronome,
        EngineSnapshotField::named("ActiveLooper"@) == EngineSnapshotField::ActiveLooper,
        EngineSnapshotField::named("Part"@) == EngineSnapshotField::Part,
        EngineSnapshotField::named("LooperCount"@) == EngineSnapshotField::LooperCount,
        EngineSnapshotField::named("LooperMode"@) == EngineSnapshotField::LooperMode,
        name != "EngineState"@ && name != "EngineMode"@ && name != "QuantizationMode"@ && name
            != "Metronome"@ && name != "ActiveLooper"@ && name != "Part"@ && name != "LooperCount"@
            && name != "LooperMode"@ ==> EngineSnapshotField::named(name)
            == EngineSnapshotField::Unknown,
{
    reveal_strlit("EngineState");
    reveal_strlit("EngineMode");
    reveal_strlit("QuantizationMode");
    reveal_strlit("Metronome");
    reveal_strlit("ActiveLooper");
    reveal_strlit("Part");
    reveal_strlit("LooperCount");
    reveal_strlit("LooperMode");
    assert("EngineState"@.len() == 11 && "EngineState"@[0] == 'E');
    assert("EngineMode"@.len() == 10 && "EngineMode"@[0] == 'E');
    assert("QuantizationMode"@.len() == 16);
    assert("Metronome"@.len() == 9);
    assert("ActiveLooper"@.len() == 12);
    assert("Part"@.len() == 4);
    assert("LooperCount"@.len() == 11 && "LooperCount"@[0] == 'L');
    assert("LooperMode"@.len() == 10 && "LooperMode"@[0] == 'L');
}

// ---- Numbers ----

/// The number by which a device is told of a field, if it is told of it.
pub open spec fn number_of(s: MidiEngineStateSnapshot, field: EngineSnapshotField) -> Option<int> {
    if field is EngineState {
        Some(
            if s.engine_state == EngineState::Stopped {
                0
            } else if s.engine_state == EngineState::Paused {
                1
            } else {
                2
            },
        )
    } else if field is EngineMode {
        Some(
            if s.engine_mode == EngineMode::Record {
                0
            } else {
                1
            },
        )
    } else if field is QuantizationMode {
        Some(
            if s.sync_mode == QuantizationMode::Free {
                0
            } else if s.sync_mode == QuantizationMode::Beat {
                1
            } else if s.sync_mode == QuantizationMode::Measure {
                2
            } else {
                3
            },
        )
    } else if field is Metronome {
        Some(s.metronome as int)
    } else if field is ActiveLooper {
        Some(s.active_looper as int)
    } else if field is LooperCount {
        Some(s.looper_count as int)
    } else {
        None
    }
}

/// The number by which a device is told of a looper's mode.
pub open spec fn number_of_mode(mode: LooperMode) -> int {
    if mode == LooperMode::Recording {
        0
    } else if mode == LooperMode::Overdubbing {
        1
    } else if mode == LooperMode::Muted {
        2
    } else if mode == LooperMode::Playing {
        3
    } else if mode == LooperMode::Soloed {
        4
    } else {
        5
    }
}

/// Fields and modes go by these numbers; different modes by different ones.
pub proof fn law_numbers(
    s: MidiEngineStateSnapshot,
    field: EngineSnapshotField,
    mode: LooperMode,
    other: LooperMode,
)
    ensures
        field_data(s, field) is Some <==> number_of(s, field) is Some,
        field_data(s, field) is Some ==> field_data(s, field)->0 == number_of(s, field)->0,
        mode_data(mode) == number_of_mode(mode),
        mode_data(mode) == mode_data(other) <==> mode == other,
{
}

// ---- Messages ----

/// Whether a message reports a mapping's field: on its channel and controller,
/// with the number of the field.
pub open spec fn tells(message: Seq<u8>, m: MidiOutMapping, s: MidiEngineStateSnapshot) -> bool {
    &&& message.len() == 3
    &&& message[0] == status(m.channel)
    &&& message[1] == m.controller
    &&& message[2] == number_of(s, m.field)->0
}

/// Whether a mapping has news: its field is reported, and its number is another
/// than before, if there was a snapshot before.
pub open spec fn has_news(
    m: MidiOutMapping,
    new: MidiEngineStateSnapshot,
    before: Option<MidiEngineStateSnapshot>,
) -> bool {
    &&& number_of(new, m.field) is Some
    &&& before is Some ==> number_of(before->0, m.field) != number_of(new, m.field)
}

/// The mappings that have news tell of it, each once and in order, and no others
/// do.
pub proof fn law_news_are_told(
    mappings: Seq<MidiOutMapping>,
    new: MidiEngineStateSnapshot,
    before: Option<MidiEngineStateSnapshot>,
)
    requires
        forall|i: int|
            0 <= i < mappings.len() && has_news(#[trigger] mappings[i], new, before)
                ==> mappings[i].channel >= 1,
    ensures
        ({
            let news = mappings.filter(|m: MidiOutMapping| has_news(m, new, before));
            let messages = state_messages(mappings, new, before);
            &&& messages.len() == news.len()
            &&& forall|k: int| 0 <= k < news.len() ==> tells(#[trigger] messages[k], news[k], new)
        }),
    decreases mappings.len(),
{
    reveal_with_fuel(Seq::filter, 2);
    if mappings.len() > 0 {
        let fewer = mappings.drop_last();
        assert forall|i: int|
            0 <= i < fewer.len() && has_news(#[trigger] fewer[i], new, before) implies fewer[i].channel
            >= 1 by {
            assert(fewer[i] == mappings[i]);
        }
        law_news_are_told(fewer, new, before);
        let m = mappings.last();
        assert(m == mappings[mappings.len() - 1]);
        assert(reports(m, new, before) == has_news(m, new, before));
        let told = state_messages(fewer, new, before);
        let messages = state_messages(mappings, new, before);
        let had = fewer.filter(|m: MidiOutMapping| has_news(m, new, before));
        let news = mappings.filter(|m: MidiOutMapping| has_news(m, new, before));
        assert forall|k: int| 0 <= k < news.len() implies tells(
            #[trigger] messages[k],
            news[k],
            new,
        ) by {
            if k < had.len() {
                assert(tells(told[k], had[k], new));
                assert(messages[k] == told[k] && news[k] == had[k]);
            }
        }
    }
}

/// Whether a message reports the looper at a place: on the controller so far
/// above that of the mapping, with the number of its mode.
pub open spec fn tells_mode(
    message: Seq<u8>,
    m: MidiOutMapping,
    modes: Seq<LooperMode>,
    i: int,
) -> bool {
    &&& message.len() == 3
    &&& message[0] == status(m.channel)
    &&& message[1] == m.controller + i
    &&& message[2] == number_of_mode(modes[i])
}

proof fn lemma_looper_mapping(mappings: Seq<MidiOutMapping>, j: int)
    requires
        0 <= j < mappings.len(),
        mappings[j].field == EngineSnapshotField::LooperMode,
        forall|i: int|
            0 <= i < j ==> (#[trigger] mappings[i]).field != EngineSnapshotField::LooperMode,
    ensures
        looper_mapping(mappings) == Some(mappings[j]),
    decreases j,
{
    if j > 0 {
        let rest = mappings.drop_first();
        assert(mappings[0].field != EngineSnapshotField::LooperMode);
        assert forall|i: int| 0 <= i < j - 1 implies (#[trigger] rest[i]).field
            != EngineSnapshotField::LooperMode by {
            assert(rest[i] == mappings[i + 1]);
        }
        lemma_looper_mapping(rest, j - 1);
    }
}

proof fn lemma_no_looper_mapping(mappings: Seq<MidiOutMapping>)
    requires
        forall|i: int|
            0 <= i < mappings.len() ==> (#[trigger] mappings[i]).field
                != EngineSnapshotField::LooperMode,
    ensures
        looper_mapping(mappings) is None,
    decreases mappings.len(),
{
    if mappings.len() > 0 {
        let rest = mappings.drop_first();
        assert(mappings[0].field != EngineSnapshotField::LooperMode);
        assert forall|i: int| 0 <= i < rest.len() implies (#[trigger] rest[i]).field
            != EngineSnapshotField::LooperMode by {
            assert(rest[i] == mappings[i + 1]);
        }
        lemma_no_looper_mapping(rest);
    }
}

/// Whether a place is where the modes begin to differ from those last reported:
/// all before it are the same, and it is not, unless it is the end.
pub open spec fn first_change(modes: Seq<LooperMode>, reported: Seq<LooperMode>, f: int) -> bool {
    &&& 0 <= f <= modes.len() && f <= reported.len()
    &&& forall|i: int| 0 <= i < f ==> modes[i] == reported[i]
    &&& f < modes.len() ==> f < reported.len() && modes[f] != reported[f]
}

proof fn lemma_first_change(modes: Seq<LooperMode>, reported: Seq<LooperMode>, f: int)
    requires
        first_change(modes, reported, f),
    ensures
        unchanged(modes, reported) == f,
{
    if modes.len() > reported.len() {
        assert(modes[f] != reported[f]);
    }
    lemma_unchanged(modes, reported);
    let u = unchanged(modes, reported);
    if u < f {
        assert(modes[u] == reported[u]);
    }
    if f < u {
        assert(modes[f] == reported[f]);
    }
}

/// From the first looper whose mode has changed on, or from the very first where
/// all are asked for, each looper is told of once and in order, by the first
/// mapping for looper modes; without one, nothing is told.
pub proof fn law_changed_modes_are_told(
    mappings: Seq<MidiOutMapping>,
    j: int,
    modes: Seq<LooperMode>,
    reported: Seq<LooperMode>,
    f: int,
    all: bool,
)
    requires
        first_change(modes, reported, f),
    ensures
        (forall|i: int|
            0 <= i < mappings.len() ==> (#[trigger] mappings[i]).field
                != EngineSnapshotField::LooperMode) ==> all_looper_messages(
            mappings,
            modes,
            reported,
            all,
        ).len() == 0,
        0 <= j < mappings.len() && mappings[j].field == EngineSnapshotField::LooperMode && (forall|
            i: int,
        |
            0 <= i < j ==> (#[trigger] mappings[i]).field != EngineSnapshotField::LooperMode)
            && mappings[j].channel >= 1 && mappings[j].controller + modes.len() <= 256 ==> {
            let messages = all_looper_messages(mappings, modes, reported, all);
            let from = if all {
                0
            } else {
                f
            };
            &&& messages.len() == modes.len() - from
            &&& forall|k: int|
                0 <= k < messages.len() ==> tells_mode(
                    #[trigger] messages[k],
                    mappings[j],
                    modes,
                    from + k,
                )
        },
{
    lemma_first_change(modes, reported, f);
    if forall|i: int|
        0 <= i < mappings.len() ==> (#[trigger] mappings[i]).field
            != EngineSnapshotField::LooperMode {
        lemma_no_looper_mapping(mappings);
    }
    if 0 <= j < mappings.len() && mappings[j].field == EngineSnapshotField::LooperMode && (forall|
        i: int,
    |
        0 <= i < j ==> (#[trigger] mappings[i]).field != EngineSnapshotField::LooperMode) {
        lemma_looper_mapping(mappings, j);
    }
}

// ---- The output as a whole ----

/// The very first snapshot is only remembered. Afterwards the state comes first:
/// in full the first time that the engine is active, else compared with the
/// snapshot before; then come the loopers: all of them when there are more or
/// fewer than before, else from the first that has changed.
pub proof fn law_output_reports(
    out: MidiOutput,
    state: MidiEngineStateSnapshot,
    modes: Seq<LooperMode>,
    mappings: Seq<MidiOutMapping>,
)
    ensures
        ({
            let messages = out.messages(state, modes, mappings);
            let known = out.looper_modes@;
            let in_full = out.first && state.engine_state == EngineState::Active;
            &&& out.current_state is None ==> messages.len() == 0
            &&& out.current_state is Some && in_full ==> messages == state_messages(
                mappings,
                state,
                None,
            ) + all_looper_messages(mappings, modes, known, modes.len() != known.len())
            &&& out.current_state is Some && !in_full ==> messages == state_messages(
                mappings,
                state,
                out.current_state,
            ) + all_looper_messages(mappings, modes, known, modes.len() != known.len())
        }),
{
}

/// The modes that are remembered are those that devices were told of: the given
/// ones whenever they may have been told, and the old ones otherwise.
pub proof fn law_output_remembers(
    out: MidiOutput,
    modes: Seq<LooperMode>,
    mappings: Seq<MidiOutMapping>,
    j: int,
)
    ensures
        out.current_state is None || modes.len() != out.looper_modes@.len() ==> out.next_modes(
            modes,
            mappings,
        ) == modes,
        0 <= j < mappings.len() && mappings[j].field == EngineSnapshotField::LooperMode
            ==> out.next_modes(modes, mappings) == modes,
        out.current_state is Some && modes.len() == out.looper_modes@.len() && (forall|i: int|
            0 <= i < mappings.len() ==> (#[trigger] mappings[i]).field
                != EngineSnapshotField::LooperMode) ==> out.next_modes(modes, mappings)
            == out.looper_modes@,
{
    if forall|i: int|
        0 <= i < mappings.len() ==> (#[trigger] mappings[i]).field
            != EngineSnapshotField::LooperMode {
        lemma_no_looper_mapping(mappings);
    }
    if 0 <= j < mappings.len() && mappings[j].field == EngineSnapshotField::LooperMode {
        lemma_some_looper_mapping(mappings, j);
    }
}

proof fn lemma_some_looper_mapping(mappings: Seq<MidiOutMapping>, j: int)
    requires
        0 <= j < mappings.len(),
        mappings[j].field == EngineSnapshotField::LooperMode,
    ensures
        looper_mapping(mappings) is Some,
    decreases j,
{
    if mappings[0].field != EngineSnapshotField::LooperMode {
        assert(mappings.drop_first()[j - 1] == mappings[j]);
        lemma_some_looper_mapping(mappings.drop_first(), j - 1);
    }
}

// ---- What a device knows ----

/// A device that keeps the last data it was sent for each status and controller.
pub open spec fn hears(device: Map<(u8, u8), u8>, messages: Seq<Seq<u8>>) -> Map<(u8, u8), u8>
    decreases messages.len(),
{
    if messages.len() == 0 {
        device
    } else {
        let m = messages.last();
        hears(device, messages.drop_last()).insert((m[0], m[1]), m[2])
    }
}

/// The status and the controller of a mapping, so many controllers above its own.
pub open spec fn key(m: MidiOutMapping, i: int) -> (u8, u8) {
    (status(m.channel) as u8, (m.controller + i) as u8)
}

/// Whether a device is right about the modes of the loopers.
pub open spec fn knows_modes(
    device: Map<(u8, u8), u8>,
    m: MidiOutMapping,
    modes: Seq<LooperMode>,
) -> bool {
    forall|i: int|
        0 <= i < modes.len() ==> #[trigger] device.contains_key(key(m, i)) && device[key(m, i)]
            == number_of_mode(modes[i])
}

/// Whether a device is right about the fields of a snapshot.
pub open spec fn knows_state(
    device: Map<(u8, u8), u8>,
    mappings: Seq<MidiOutMapping>,
    s: MidiEngineStateSnapshot,
) -> bool {
    forall|i: int|
        0 <= i < mappings.len() && number_of(s, (#[trigger] mappings[i]).field) is Some
            ==> device.contains_key(key(mappings[i], 0)) && device[key(mappings[i], 0)]
            == number_of(s, mappings[i].field)->0
}

/// Whether no two things that are reported share a controller: neither two
/// fields, nor a field and one of so many loopers.
pub open spec fn kept_apart(
    mappings: Seq<MidiOutMapping>,
    m: MidiOutMapping,
    loopers: nat,
) -> bool {
    &&& forall|i: int, j: int|
        0 <= i < j < mappings.len() && is_state_field((#[trigger] mappings[i]).field)
            && is_state_field((#[trigger] mappings[j]).field) ==> key(mappings[i], 0) != key(
            mappings[j],
            0,
        )
    &&& forall|i: int, k: int|
        0 <= i < mappings.len() && 0 <= k < loopers && is_state_field(
            (#[trigger] mappings[i]).field,
        ) ==> key(mappings[i], 0) != #[trigger] key(m, k)
}

/// Whether a field is reported from snapshots.
pub open spec fn is_state_field(field: EngineSnapshotField) -> bool {
    field is EngineState || field is EngineMode || field is QuantizationMode || field is Metronome
        || field is ActiveLooper || field is LooperCount
}

proof fn lemma_hears_more(device: Map<(u8, u8), u8>, a: Seq<Seq<u8>>, b: Seq<Seq<u8>>)
    ensures
        hears(device, a + b) == hears(hears(device, a), b),
    decreases b.len(),
{
    if b.len() == 0 {
        assert(a + b =~= a);
    } else {
        lemma_hears_more(device, a, b.drop_last());
        assert((a + b).drop_last() =~= a + b.drop_last());
        assert((a + b).last() == b.last());
    }
}

proof fn lemma_hears_nothing_of(device: Map<(u8, u8), u8>, messages: Seq<Seq<u8>>, k: (u8, u8))
    requires
        forall|i: int|
            0 <= i < messages.len() ==> ((#[trigger] messages[i])[0], messages[i][1]) != k,
    ensures
        hears(device, messages).contains_key(k) == device.contains_key(k),
        hears(device, messages)[k] == device[k],
    decreases messages.len(),
{
    if messages.len() > 0 {
        let fewer = messages.drop_last();
        assert forall|i: int| 0 <= i < fewer.len() implies ((#[trigger] fewer[i])[0], fewer[i][1])
            != k by {
            assert(fewer[i] == messages[i]);
        }
        lemma_hears_nothing_of(device, fewer, k);
        assert(messages.last() == messages[messages.len() - 1]);
    }
}

/// Every message about the state is on the controller of a mapping for it.
proof fn lemma_state_keys(
    mappings: Seq<MidiOutMapping>,
    new: MidiEngineStateSnapshot,
    before: Option<MidiEngineStateSnapshot>,
    k: (u8, u8),
)
    requires
        forall|i: int|
            0 <= i < mappings.len() && is_state_field((#[trigger] mappings[i]).field) ==> key(
                mappings[i],
                0,
            ) != k,
    ensures
        forall|i: int|
            0 <= i < state_messages(mappings, new, before).len() ==> ((
            #[trigger] state_messages(mappings, new, before)[i])[0], state_messages(
                mappings,
                new,
                before,
            )[i][1]) != k,
    decreases mappings.len(),
{
    if mappings.len() > 0 {
        let fewer = mappings.drop_last();
        assert forall|i: int| 0 <= i < fewer.len() && is_state_field((#[trigger] fewer[i]).field) implies key(
            fewer[i],
            0,
        ) != k by {
            assert(fewer[i] == mappings[i]);
        }
        lemma_state_keys(fewer, new, before, k);
        let m = mappings.last();
        assert(m == mappings[mappings.len() - 1]);
        let told = state_messages(fewer, new, before);
        let messages = state_messages(mappings, new, before);
        assert forall|i: int| 0 <= i < messages.len() implies ((#[trigger] messages[i])[0],
            messages[i][1]) != k by {
            if i < told.len() {
                assert(messages[i] == told[i]);
            } else {
                assert(is_state_field(m.field));
            }
        }
    }
}

/// A device hears of every field that has news, and keeps what it knows of the
/// others.
proof fn lemma_hears_state(
    device: Map<(u8, u8), u8>,
    mappings: Seq<MidiOutMapping>,
    new: MidiEngineStateSnapshot,
    before: Option<MidiEngineStateSnapshot>,
)
    requires
        forall|i: int, j: int|
            0 <= i < j < mappings.len() && is_state_field((#[trigger] mappings[i]).field)
                && is_state_field((#[trigger] mappings[j]).field) ==> key(mappings[i], 0) != key(
                mappings[j],
                0,
            ),
        before is Some ==> knows_state(device, mappings, before->0),
    ensures
        knows_state(hears(device, state_messages(mappings, new, before)), mappings, new),
    decreases mappings.len(),
{
    if mappings.len() > 0 {
        let fewer = mappings.drop_last();
        let m = mappings.last();
        assert(m == mappings[mappings.len() - 1]);
        assert forall|i: int, j: int|
            0 <= i < j < fewer.len() && is_state_field((#[trigger] fewer[i]).field)
                && is_state_field((#[trigger] fewer[j]).field) implies key(fewer[i], 0) != key(
            fewer[j],
            0,
        ) by {
            assert(fewer[i] == mappings[i] && fewer[j] == mappings[j]);
        }
        if before is Some {
            assert forall|i: int|
                0 <= i < fewer.len() && number_of(
                    before->0,
                    (#[trigger] fewer[i]).field,
                ) is Some implies device.contains_key(key(fewer[i], 0)) && device[key(fewer[i], 0)]
                == number_of(before->0, fewer[i].field)->0 by {
                assert(fewer[i] == mappings[i]);
            }
        }
        lemma_hears_state(device, fewer, new, before);
        let told = state_messages(fewer, new, before);
        let messages = state_messages(mappings, new, before);
        let middle = hears(device, told);
        let after = hears(device, messages);
        if reports(m, new, before) {
            assert(messages.drop_last() =~= told);
            let message = messages.last();
            assert(after == middle.insert((message[0], message[1]), message[2]));
        }
        assert forall|i: int|
            0 <= i < mappings.len() && number_of(new, (#[trigger] mappings[i]).field) is Some implies after.contains_key(
            key(mappings[i], 0),
        ) && after[key(mappings[i], 0)] == number_of(new, mappings[i].field)->0 by {
            if i < fewer.len() {
                assert(fewer[i] == mappings[i]);
                if reports(m, new, before) {
                    assert(key(mappings[i], 0) != key(mappings[mappings.len() - 1], 0));
                }
            } else if !reports(m, new, before) {
                assert forall|n: int|
                    0 <= n < fewer.len() && is_state_field((#[trigger] fewer[n]).field) implies key(
                    fewer[n],
                    0,
                ) != key(m, 0) by {
                    assert(fewer[n] == mappings[n]);
                    assert(key(mappings[n], 0) != key(mappings[mappings.len() - 1], 0));
                }
                lemma_state_keys(fewer, new, before, key(m, 0));
                lemma_hears_nothing_of(device, told, key(m, 0));
                assert(messages == told);
                assert(number_of(before->0, m.field) == number_of(new, m.field));
            }
        }
    }
}

proof fn lemma_hears_modes(
    device: Map<(u8, u8), u8>,
    m: MidiOutMapping,
    modes: Seq<LooperMode>,
    from: int,
    n: int,
)
    requires
        0 <= from <= modes.len(),
        0 <= n <= modes.len() - from,
        m.controller + modes.len() <= 256,
    ensures
        ({
            let heard = hears(device, looper_messages(m, modes, from).take(n));
            &&& forall|i: int|
                from <= i < from + n ==> #[trigger] heard.contains_key(key(m, i)) && heard[key(m, i)]
                    == number_of_mode(modes[i])
            &&& forall|k: (u8, u8)|
                (forall|i: int| from <= i < from + n ==> k != #[trigger] key(m, i)) ==> (
                #[trigger] heard.contains_key(k)) == device.contains_key(k) && heard[k] == device[k]
        }),
    decreases n,
{
    let messages = looper_messages(m, modes, from);
    if n > 0 {
        lemma_hears_modes(device, m, modes, from, n - 1);
        let before = hears(device, messages.take(n - 1));
        let heard = hears(device, messages.take(n));
        assert(messages.take(n).drop_last() =~= messages.take(n - 1));
        assert(messages.take(n).last() == messages[n - 1]);
        let last = key(m, from + n - 1);
        assert(heard == before.insert(last, messages[n - 1][2]));
        assert forall|i: int| from <= i < from + n implies #[trigger] heard.contains_key(key(m, i))
            && heard[key(m, i)] == number_of_mode(modes[i]) by {
            if i < from + n - 1 {
                assert(before.contains_key(key(m, i)));
                assert(key(m, i) != last);
            }
        }
        assert forall|k: (u8, u8)|
            (forall|i: int| from <= i < from + n ==> k != #[trigger] key(m, i)) implies (
        #[trigger] heard.contains_key(k)) == device.contains_key(k) && heard[k] == device[k] by {
            assert(k != last);
            assert(before.contains_key(k) == device.contains_key(k));
        }
    } else {
        assert(messages.take(0) =~= Seq::<Seq<u8>>::empty());
    }
}

/// A device that is right about what was last reported is right about everything
/// after the messages that a snapshot leads to: about every field of the snapshot
/// and about the mode of every looper, also of those that are new. The first
/// snapshot, which is only remembered, leads to no messages.
pub proof fn law_device_stays_right(
    out: MidiOutput,
    device: Map<(u8, u8), u8>,
    state: MidiEngineStateSnapshot,
    modes: Seq<LooperMode>,
    mappings: Seq<MidiOutMapping>,
    j: int,
)
    requires
        out.current_state is Some,
        0 <= j < mappings.len(),
        mappings[j].field == EngineSnapshotField::LooperMode,
        forall|i: int|
            0 <= i < j ==> (#[trigger] mappings[i]).field != EngineSnapshotField::LooperMode,
        mappings[j].controller + modes.len() <= 256,
        kept_apart(mappings, mappings[j], modes.len()),
        knows_state(device, mappings, out.current_state->0),
        knows_modes(device, mappings[j], out.looper_modes@),
    ensures
        knows_state(hears(device, out.messages(state, modes, mappings)), mappings, state),
        knows_modes(hears(device, out.messages(state, modes, mappings)), mappings[j], modes),
{
    let m = mappings[j];
    let known = out.looper_modes@;
    let all = known.len() != modes.len();
    let before = out.compared_with(state);
    let told = state_messages(mappings, state, before);
    lemma_looper_mapping(mappings, j);
    lemma_hears_state(device, mappings, state, before);
    let middle = hears(device, told);
    if !all {
        lemma_unchanged(modes, known);
    }
    let from = report_from(modes, known, all);
    let looper = looper_messages(m, modes, from);
    assert(out.messages(state, modes, mappings) == told + looper);
    lemma_hears_more(device, told, looper);
    lemma_hears_modes(middle, m, modes, from, looper.len() as int);
    assert(looper.take(looper.len() as int) =~= looper);
    let after = hears(middle, looper);
    assert forall|i: int| 0 <= i < modes.len() implies #[trigger] after.contains_key(key(m, i))
        && after[key(m, i)] == number_of_mode(modes[i]) by {
        if i < from {
            assert forall|n: int| from <= n < modes.len() implies key(m, i) != #[trigger] key(
                m,
                n,
            ) by {}
            assert(after.contains_key(key(m, i)) == middle.contains_key(key(m, i)));
            assert forall|n: int|
                0 <= n < mappings.len() && is_state_field((#[trigger] mappings[n]).field) implies key(
                mappings[n],
                0,
            ) != key(m, i) by {}
            lemma_state_keys(mappings, state, before, key(m, i));
            lemma_hears_nothing_of(device, told, key(m, i));
            assert(modes[i] == known[i]);
            assert(device.contains_key(key(m, i)));
            assert(after[key(m, i)] == middle[key(m, i)]);
        } else {
            assert(from <= i < from + looper.len());
            assert(after.contains_key(key(m, i)));
        }
    }
    assert(hears(device, out.messages(state, modes, mappings)) == after);
    assert(knows_modes(after, m, modes));
    assert forall|i: int|
        0 <= i < mappings.len() && number_of(state, (#[trigger] mappings[i]).field) is Some implies after.contains_key(
        key(mappings[i], 0),
    ) && after[key(mappings[i], 0)] == number_of(state, mappings[i].field)->0 by {
        assert(is_state_field(mappings[i].field));
        assert forall|n: int| from <= n < modes.len() implies key(mappings[i], 0)
            != #[trigger] key(m, n) by {}
        assert(after.contains_key(key(mappings[i], 0)) == middle.contains_key(key(mappings[i], 0)));
    }
}

/// When there are more or fewer loopers than before, every one of them is told
/// of.
pub proof fn law_new_count_tells_of_all(
    out: MidiOutput,
    state: MidiEngineStateSnapshot,
    modes: Seq<LooperMode>,
    mappings: Seq<MidiOutMapping>,
    j: int,
    i: int,
)
    requires
        out.current_state is Some,
        out.looper_modes@.len() != modes.len(),
        0 <= j < mappings.len(),
        mappings[j].field == EngineSnapshotField::LooperMode,
        forall|k: int|
            0 <= k < j ==> (#[trigger] mappings[k]).field != EngineSnapshotField::LooperMode,
        mappings[j].channel >= 1,
        mappings[j].controller + modes.len() <= 256,
        0 <= i < modes.len(),
    ensures
        exists|k: int|
            0 <= k < out.messages(state, modes, mappings).len() && tells_mode(
                #[trigger] out.messages(state, modes, mappings)[k],
                mappings[j],
                modes,
                i,
            ),
{
    lemma_looper_mapping(mappings, j);
    let told = state_messages(mappings, state, out.compared_with(state));
    let messages = out.messages(state, modes, mappings);
    assert(tells_mode(messages[told.len() + i], mappings[j], modes, i));
}

// ---- What can be reported ----

/// Whether every mapping that has news is on a channel, which are counted from 1.
pub open spec fn news_on_channels(
    mappings: Seq<MidiOutMapping>,
    new: MidiEngineStateSnapshot,
    before: Option<MidiEngineStateSnapshot>,
) -> bool {
    forall|i: int|
        0 <= i < mappings.len() && has_news(#[trigger] mappings[i], new, before)
            ==> mappings[i].channel >= 1
}

/// A snapshot can be reported as long as every mapping that has news is on a
/// channel, and the mapping for looper modes, if it has news, is on a channel and
/// has a controller for every looper. The very first can always be.
pub proof fn law_what_can_be_reported(
    out: MidiOutput,
    state: MidiEngineStateSnapshot,
    modes: Seq<LooperMode>,
    mappings: Seq<MidiOutMapping>,
    j: int,
    f: int,
)
    requires
        modes.len() == out.looper_modes@.len() ==> first_change(modes, out.looper_modes@, f),
        0 <= j <= mappings.len(),
        j < mappings.len() ==> mappings[j].field == EngineSnapshotField::LooperMode,
        forall|i: int|
            0 <= i < j ==> (#[trigger] mappings[i]).field != EngineSnapshotField::LooperMode,
    ensures
        out.mappings_ok(state, modes, mappings) <==> out.current_state is None || {
            let before = if out.first && state.engine_state == EngineState::Active {
                None
            } else {
                out.current_state
            };
            let looper_news = if modes.len() == out.looper_modes@.len() {
                f < modes.len()
            } else {
                modes.len() > 0
            };
            &&& news_on_channels(mappings, state, before)
            &&& j < mappings.len() && looper_news ==> mappings[j].channel >= 1
                && mappings[j].controller + modes.len() <= 256
        },
{
    let before = out.compared_with(state);
    if j < mappings.len() {
        lemma_looper_mapping(mappings, j);
    } else {
        lemma_no_looper_mapping(mappings);
    }
    if modes.len() == out.looper_modes@.len() {
        lemma_first_change(modes, out.looper_modes@, f);
    }
    assert(state_channels_ok(mappings, state, before) == news_on_channels(mappings, state, before))
        by {
        if news_on_channels(mappings, state, before) {
            assert forall|i: int|
                0 <= i < mappings.len() && reports(#[trigger] mappings[i], state, before) implies mappings[i].channel
                >= 1 by {
                assert(has_news(mappings[i], state, before));
            }
        }
        if state_channels_ok(mappings, state, before) {
            assert forall|i: int|
                0 <= i < mappings.len() && has_news(#[trigger] mappings[i], state, before) implies mappings[i].channel
                >= 1 by {
                assert(reports(mappings[i], state, before));
            }
        }
    }
}

/// A command to the output is followed with the modes of as many live loopers as
/// the snapshot counts, for which there have to be so many; only where nothing
/// could come of them are they not looked at.
pub proof fn law_output_looks_at_the_loopers(
    out: MidiOutput,
    engine: EngineModel,
    state: MidiEngineStateSnapshot,
)
    ensures
        ({
            let count = state.looper_count as int;
            let looks = out.current_state is None || out.looper_modes@.len() != count || exists|
                i: int,
            |
                0 <= i < engine.midi_out_mappings.len() && (
                #[trigger] engine.midi_out_mappings[i]).field == EngineSnapshotField::LooperMode;
            let modes = if looks {
                engine.looper_modes(count)
            } else {
                out.looper_modes@
            };
            &&& out.modes_for(state, engine) == modes
            &&& out.follows(MidiOutCommand::StateSnapshot(state), engine) <==> {
                &&& looks ==> count <= positions(engine.loopers, Selector::Live).len()
                &&& out.mappings_ok(state, modes, engine.midi_out_mappings)
            }
        }),
{
    let mappings = engine.midi_out_mappings;
    if exists|i: int|
        0 <= i < mappings.len() && (#[trigger] mappings[i]).field
            == EngineSnapshotField::LooperMode {
        let i = choose|i: int|
            0 <= i < mappings.len() && (#[trigger] mappings[i]).field
                == EngineSnapshotField::LooperMode;
        lemma_some_looper_mapping(mappings, i);
    } else {
        lemma_no_looper_mapping(mappings);
    }
}

} // verus!
