//! What the MIDI output sends: controller changes that report the state of the
//! engine and the modes of the loopers.

use vstd::prelude::*;

use crate::api::{EngineMode, EngineState, LooperMode, QuantizationMode};
use crate::config::MidiOutMapping;
use crate::engine::Engine;
use crate::looper::{positions, Selector};
use crate::midi::{
    controller_change, EngineSnapshotField, MidiEngineStateSnapshot, MidiEvent, MidiOutCommand,
};
use crate::model::EngineModel;

verus! {

/// The number by which a field of a snapshot is reported; nothing for fields
/// that are not reported from the snapshot.
pub open spec fn field_data(state: MidiEngineStateSnapshot, field: EngineSnapshotField) -> Option<
    u8,
> {
    match field {
        EngineSnapshotField::EngineState => Some(
            match state.engine_state {
                EngineState::Stopped => 0,
                EngineState::Paused => 1,
                EngineState::Active => 2,
            },
        ),
        EngineSnapshotField::EngineMode => Some(
            match state.engine_mode {
                EngineMode::Record => 0,
                EngineMode::Play => 1,
            },
        ),
        EngineSnapshotField::QuantizationMode => Some(
            match state.sync_mode {
                QuantizationMode::Free => 0,
                QuantizationMode::Beat => 1,
                QuantizationMode::Measure => 2,
                QuantizationMode::Loop => 3,
            },
        ),
        EngineSnapshotField::Metronome => Some(state.metronome),
        EngineSnapshotField::ActiveLooper => Some(state.active_looper),
        EngineSnapshotField::LooperCount => Some(state.looper_count),
        _ => None,
    }
}

/// The number by which a field of a snapshot is reported.
pub fn data_for_field(state: &MidiEngineStateSnapshot, field: EngineSnapshotField) -> (r: Option<
    u8,
>)
    ensures
        r == field_data(*state, field),
{
    match field {
        EngineSnapshotField::EngineState => Some(
            match state.engine_state {
                EngineState::Stopped => 0,
                EngineState::Paused => 1,
                EngineState::Active => 2,
            },
        ),
        EngineSnapshotField::EngineMode => Some(
            match state.engine_mode {
                EngineMode::Record => 0,
                EngineMode::Play => 1,
            },
        ),
        EngineSnapshotField::QuantizationMode => Some(
            match state.sync_mode {
                QuantizationMode::Free => 0,
                QuantizationMode::Beat => 1,
                QuantizationMode::Measure => 2,
                QuantizationMode::Loop => 3,
            },
        ),
        EngineSnapshotField::Metronome => Some(state.metronome),
        EngineSnapshotField::ActiveLooper => Some(state.active_looper),
        EngineSnapshotField::LooperCount => Some(state.looper_count),
        _ => None,
    }
}

/// The number by which the mode of a looper is reported.
pub open spec fn mode_data(mode: LooperMode) -> u8 {
    match mode {
        LooperMode::Recording => 0,
        LooperMode::Overdubbing => 1,
        LooperMode::Muted => 2,
        LooperMode::Playing => 3,
        LooperMode::Soloed => 4,
        LooperMode::Armed => 5,
    }
}

fn data_for_mode(mode: LooperMode) -> (r: u8)
    ensures
        r == mode_data(mode),
{
    match mode {
        LooperMode::Recording => 0,
        LooperMode::Overdubbing => 1,
        LooperMode::Muted => 2,
        LooperMode::Playing => 3,
        LooperMode::Soloed => 4,
        LooperMode::Armed => 5,
    }
}

/// The bytes of some messages.
pub open spec fn bytes_of(messages: Seq<[u8; 3]>) -> Seq<Seq<u8>> {
    messages.map_values(|m: [u8; 3]| m@)
}

/// Whether a mapping has something to report: its field is reported, and not the
/// same as in the snapshot before, if there was one.
pub open spec fn reports(
    mapping: MidiOutMapping,
    new: MidiEngineStateSnapshot,
    before: Option<MidiEngineStateSnapshot>,
) -> bool {
    &&& field_data(new, mapping.field) is Some
    &&& before is Some ==> field_data(before->0, mapping.field) != field_data(new, mapping.field)
}

/// The messages of some mappings about a snapshot, in order.
pub open spec fn state_messages(
    mappings: Seq<MidiOutMapping>,
    new: MidiEngineStateSnapshot,
    before: Option<MidiEngineStateSnapshot>,
) -> Seq<Seq<u8>>
    decreases mappings.len(),
{
    if mappings.len() == 0 {
        Seq::empty()
    } else {
        let earlier = state_messages(mappings.drop_last(), new, before);
        let m = mappings.last();
        if reports(m, new, before) {
            earlier.push(controller_change(m.channel, m.controller, field_data(new, m.field)->0))
        } else {
            earlier
        }
    }
}

/// Whether the mappings that have something to report are on a channel; channels
/// are counted from 1.
pub open spec fn state_channels_ok(
    mappings: Seq<MidiOutMapping>,
    new: MidiEngineStateSnapshot,
    before: Option<MidiEngineStateSnapshot>,
) -> bool {
    forall|i: int|
        0 <= i < mappings.len() && reports(#[trigger] mappings[i], new, before)
            ==> mappings[i].channel >= 1
}

fn check_state_channels(
    mappings: &Vec<MidiOutMapping>,
    new_state: &MidiEngineStateSnapshot,
    before: Option<MidiEngineStateSnapshot>,
) -> (r: bool)
    ensures
        r == state_channels_ok(mappings@, *new_state, before),
{
    let mut i: usize = 0;
    while i < mappings.len()
        invariant
            i <= mappings.len(),
            forall|j: int|
                0 <= j < i && reports(#[trigger] mappings@[j], *new_state, before)
                    ==> mappings@[j].channel >= 1,
        decreases mappings.len() - i,
    {
        let mm = mappings[i];
        if mm.channel == 0 && has_report(&mm, new_state, before) {
            assert(reports(mappings@[i as int], *new_state, before));
            return false;
        }
        i = i + 1;
    }
    true
}

fn has_report(
    mapping: &MidiOutMapping,
    new_state: &MidiEngineStateSnapshot,
    before: Option<MidiEngineStateSnapshot>,
) -> (r: bool)
    ensures
        r == reports(*mapping, *new_state, before),
{
    match (data_for_field(new_state, mapping.field), before) {
        (Some(x), Some(b)) => match data_for_field(&b, mapping.field) {
            Some(y) => x != y,
            None => true,
        },
        (Some(_), None) => true,
        (None, _) => false,
    }
}

fn push_state_messages(
    messages: &mut Vec<[u8; 3]>,
    new_state: &MidiEngineStateSnapshot,
    before: Option<MidiEngineStateSnapshot>,
    mappings: &Vec<MidiOutMapping>,
)
    requires
        state_channels_ok(mappings@, *new_state, before),
    ensures
        bytes_of(final(messages)@) == bytes_of(old(messages)@) + state_messages(
            mappings@,
            *new_state,
            before,
        ),
{
    let ghost earlier = bytes_of(messages@);
    let mut i: usize = 0;
    assert(mappings@.take(0) =~= Seq::<MidiOutMapping>::empty());
    while i < mappings.len()
        invariant
            i <= mappings.len(),
            state_channels_ok(mappings@, *new_state, before),
            bytes_of(messages@) =~= earlier + state_messages(
                mappings@.take(i as int),
                *new_state,
                before,
            ),
        decreases mappings.len() - i,
    {
        let mm = mappings[i];
        assert(mappings@.take(i + 1).drop_last() =~= mappings@.take(i as int));
        assert(mappings@.take(i + 1).last() == mm);
        if has_report(&mm, new_state, before) {
            assert(reports(mappings@[i as int], *new_state, before));
            let event = MidiEvent::ControllerChange {
                channel: mm.channel,
                controller: mm.controller,
                data: data_for_field(new_state, mm.field).unwrap(),
            };
            let message = MidiEvent::to_bytes(&event);
            let ghost sent = messages@;
            messages.push(message);
            assert(bytes_of(messages@) =~= bytes_of(sent).push(message@));
        }
        i = i + 1;
    }
    assert(mappings@.take(i as int) =~= mappings@);
}

/// The messages that report a snapshot in full.
pub fn initialize(new_state: &MidiEngineStateSnapshot, mappings: &Vec<MidiOutMapping>) -> (r: Vec<
    [u8; 3],
>)
    requires
        state_channels_ok(mappings@, *new_state, None),
    ensures
        bytes_of(r@) == state_messages(mappings@, *new_state, None),
{
    let mut r: Vec<[u8; 3]> = Vec::new();
    push_state_messages(&mut r, new_state, None, mappings);
    assert(bytes_of(r@) =~= state_messages(mappings@, *new_state, None));
    r
}

/// The messages that report what is new in a snapshot.
pub fn update(
    new_state: &MidiEngineStateSnapshot,
    current_state: &MidiEngineStateSnapshot,
    mappings: &Vec<MidiOutMapping>,
) -> (r: Vec<[u8; 3]>)
    requires
        state_channels_ok(mappings@, *new_state, Some(*current_state)),
    ensures
        bytes_of(r@) == state_messages(mappings@, *new_state, Some(*current_state)),
{
    let mut r: Vec<[u8; 3]> = Vec::new();
    push_state_messages(&mut r, new_state, Some(*current_state), mappings);
    assert(bytes_of(r@) =~= state_messages(mappings@, *new_state, Some(*current_state)));
    r
}

/// The first mapping that reports looper modes.
pub open spec fn looper_mapping(mappings: Seq<MidiOutMapping>) -> Option<MidiOutMapping>
    decreases mappings.len(),
{
    if mappings.len() == 0 {
        None
    } else if mappings[0].field == EngineSnapshotField::LooperMode {
        Some(mappings[0])
    } else {
        looper_mapping(mappings.drop_first())
    }
}

fn find_looper_mapping(mappings: &Vec<MidiOutMapping>) -> (r: Option<MidiOutMapping>)
    ensures
        r == looper_mapping(mappings@),
{
    let mut i: usize = 0;
    assert(mappings@.skip(0) =~= mappings@);
    while i < mappings.len()
        invariant
            i <= mappings.len(),
            looper_mapping(mappings@) == looper_mapping(mappings@.skip(i as int)),
        decreases mappings.len() - i,
    {
        assert(mappings@.skip(i as int).drop_first() =~= mappings@.skip(i + 1));
        if mappings[i].field == EngineSnapshotField::LooperMode {
            return Some(mappings[i]);
        }
        i = i + 1;
    }
    None
}

/// How many of the first loopers are in the mode that was last reported.
pub open spec fn unchanged(modes: Seq<LooperMode>, reported: Seq<LooperMode>) -> int
    decreases modes.len(),
{
    if modes.len() > 0 && modes[0] == reported[0] {
        1 + unchanged(modes.drop_first(), reported.drop_first())
    } else {
        0
    }
}

/// The place of the first looper whose mode is reported: the first of all, or
/// the first that has changed.
pub open spec fn report_from(
    modes: Seq<LooperMode>,
    reported: Seq<LooperMode>,
    update_all: bool,
) -> int {
    if update_all {
        0
    } else {
        unchanged(modes, reported)
    }
}

/// The messages about the modes of the loopers from a place on. Each looper has
/// a controller of its own, counted from the one in the mapping.
pub open spec fn looper_messages(
    mapping: MidiOutMapping,
    modes: Seq<LooperMode>,
    from: int,
) -> Seq<Seq<u8>> {
    Seq::new(
        (modes.len() - from) as nat,
        |k: int|
            controller_change(
                mapping.channel,
                (mapping.controller + from + k) as u8,
                mode_data(modes[from + k]),
            ),
    )
}

/// The messages about the modes of the loopers; none without a mapping for them.
pub open spec fn all_looper_messages(
    mappings: Seq<MidiOutMapping>,
    modes: Seq<LooperMode>,
    reported: Seq<LooperMode>,
    update_all: bool,
) -> Seq<Seq<u8>> {
    match looper_mapping(mappings) {
        Some(m) => looper_messages(m, modes, report_from(modes, reported, update_all)),
        None => Seq::empty(),
    }
}

/// Whether the mapping for the looper modes has room for those that are
/// reported.
pub open spec fn looper_channels_ok(
    mappings: Seq<MidiOutMapping>,
    modes: Seq<LooperMode>,
    reported: Seq<LooperMode>,
    update_all: bool,
) -> bool {
    looper_mapping(mappings) is Some && report_from(modes, reported, update_all) < modes.len() ==> {
        &&& looper_mapping(mappings)->0.channel >= 1
        &&& looper_mapping(mappings)->0.controller + modes.len() <= 256
    }
}

/// Whether the modes can be compared with those that were last reported: every
/// looper has one, or one that has changed comes before the first that has none.
pub open spec fn comparable(modes: Seq<LooperMode>, reported: Seq<LooperMode>) -> bool {
    modes.len() <= reported.len() || exists|i: int|
        0 <= i < reported.len() && i < modes.len() && #[trigger] modes[i] != reported[i]
}

/// The number of unchanged loopers in words: it is the place of the first that
/// has changed, or the number of all.
pub proof fn lemma_unchanged(modes: Seq<LooperMode>, reported: Seq<LooperMode>)
    requires
        comparable(modes, reported),
    ensures
        0 <= unchanged(modes, reported) <= modes.len(),
        unchanged(modes, reported) <= reported.len(),
        unchanged(modes, reported) < modes.len() ==> unchanged(modes, reported) < reported.len(),
        forall|i: int| 0 <= i < unchanged(modes, reported) ==> modes[i] == reported[i],
        unchanged(modes, reported) < modes.len() ==> modes[unchanged(modes, reported)]
            != reported[unchanged(modes, reported)],
    decreases modes.len(),
{
    if modes.len() > 0 && modes[0] == reported[0] {
        let ms = modes.drop_first();
        let rs = reported.drop_first();
        if modes.len() > reported.len() {
            let i = choose|i: int|
                0 <= i < reported.len() && i < modes.len() && #[trigger] modes[i] != reported[i];
            assert(ms[i - 1] != rs[i - 1]);
        }
        lemma_unchanged(ms, rs);
        assert forall|i: int| 0 <= i < unchanged(modes, reported) implies modes[i]
            == reported[i] by {
            if i > 0 {
                assert(ms[i - 1] == rs[i - 1]);
            }
        }
    }
}

fn count_unchanged(modes: &Vec<LooperMode>, reported: &Vec<LooperMode>) -> (r: usize)
    requires
        modes@.len() == reported@.len(),
    ensures
        r == unchanged(modes@, reported@),
{
    proof {
        lemma_unchanged(modes@, reported@);
    }
    let ghost same = unchanged(modes@, reported@);
    let mut i: usize = 0;
    while i < modes.len() && modes[i] == reported[i]
        invariant
            i <= same <= modes@.len(),
            modes@.len() == reported@.len(),
            same < modes@.len() ==> modes@[same] != reported@[same],
        decreases modes.len() - i,
    {
        i = i + 1;
    }
    proof {
        if i < same {
            assert(modes@[i as int] == reported@[i as int]);
        }
    }
    i
}

/// The messages about the modes of the loopers, and whether a mode has changed.
/// Once one has, those after it are reported as well.
pub fn update_loopers(
    modes: &Vec<LooperMode>,
    current_looper_modes: &Vec<LooperMode>,
    update_all_loopers: bool,
    mappings: &Vec<MidiOutMapping>,
) -> (r: (bool, Vec<[u8; 3]>))
    requires
        looper_mapping(mappings@) is Some ==> comparable(modes@, current_looper_modes@),
        looper_channels_ok(mappings@, modes@, current_looper_modes@, update_all_loopers),
    ensures
        r.0 == (looper_mapping(mappings@) is Some && unchanged(modes@, current_looper_modes@)
            < modes@.len()),
        bytes_of(r.1@) == all_looper_messages(
            mappings@,
            modes@,
            current_looper_modes@,
            update_all_loopers,
        ),
{
    let mut changed = false;
    let mut messages: Vec<[u8; 3]> = Vec::new();
    let mapping = find_looper_mapping(mappings);
    match mapping {
        Some(m) => {
            let ghost same = unchanged(modes@, current_looper_modes@);
            let ghost from = report_from(modes@, current_looper_modes@, update_all_loopers);
            proof {
                lemma_unchanged(modes@, current_looper_modes@);
            }
            let mut idx: usize = 0;
            while idx < modes.len()
                invariant
                    idx <= modes.len(),
                    looper_mapping(mappings@) == Some(m),
                    looper_channels_ok(
                        mappings@,
                        modes@,
                        current_looper_modes@,
                        update_all_loopers,
                    ),
                    same == unchanged(modes@, current_looper_modes@),
                    from == report_from(modes@, current_looper_modes@, update_all_loopers),
                    0 <= from <= same <= modes@.len(),
                    from == if update_all_loopers {
                        0
                    } else {
                        same
                    },
                    forall|i: int| 0 <= i < same ==> modes@[i] == current_looper_modes@[i],
                    same <= current_looper_modes@.len(),
                    same < modes@.len() ==> same < current_looper_modes@.len() && modes@[same]
                        != current_looper_modes@[same],
                    changed == (same < idx),
                    messages@.len() == if idx > from {
                        idx - from
                    } else {
                        0
                    },
                    forall|k: int|
                        0 <= k < messages@.len() ==> (#[trigger] messages@[k])@ == looper_messages(
                            m,
                            modes@,
                            from,
                        )[k],
                decreases modes.len() - idx,
            {
                let mode = modes[idx];
                if !changed {
                    changed = current_looper_modes[idx] != mode;
                }
                if update_all_loopers || changed {
                    let event = MidiEvent::ControllerChange {
                        channel: m.channel,
                        controller: m.controller + idx as u8,
                        data: data_for_mode(mode),
                    };
                    messages.push(MidiEvent::to_bytes(&event));
                }
                idx = idx + 1;
            }
            assert(bytes_of(messages@) =~= looper_messages(m, modes@, from));
        },
        None => {
            assert(bytes_of(messages@) =~= Seq::<Seq<u8>>::empty());
        },
    }
    (changed, messages)
}

/// What the MIDI output remembers between snapshots.
pub struct MidiOutput {
    /// The last snapshot, once there was one.
    pub current_state: Option<MidiEngineStateSnapshot>,
    /// Whether the engine has not been reported in full yet.
    pub first: bool,
    /// The looper modes that were last reported.
    pub looper_modes: Vec<LooperMode>,
}

impl MidiOutput {
    /// Whether this snapshot is reported in full: the first one, but for the
    /// very first, in which the engine is active.
    pub open spec fn in_full(self, state: MidiEngineStateSnapshot) -> bool {
        self.first && state.engine_state == EngineState::Active
    }

    /// The snapshot that this one is compared with.
    pub open spec fn compared_with(self, state: MidiEngineStateSnapshot) -> Option<
        MidiEngineStateSnapshot,
    > {
        if self.in_full(state) {
            None
        } else {
            self.current_state
        }
    }

    /// Whether the number of loopers is another than before.
    pub open spec fn recount(self, modes: Seq<LooperMode>) -> bool {
        self.looper_modes@.len() != modes.len()
    }

    /// The messages that a snapshot leads to. The very first leads to none.
    pub open spec fn messages(
        self,
        state: MidiEngineStateSnapshot,
        modes: Seq<LooperMode>,
        mappings: Seq<MidiOutMapping>,
    ) -> Seq<Seq<u8>> {
        if self.current_state is None {
            Seq::empty()
        } else {
            state_messages(mappings, state, self.compared_with(state)) + all_looper_messages(
                mappings,
                modes,
                self.looper_modes@,
                self.recount(modes),
            )
        }
    }

    /// Whether the mappings have room for what has to be reported.
    pub open spec fn mappings_ok(
        self,
        state: MidiEngineStateSnapshot,
        modes: Seq<LooperMode>,
        mappings: Seq<MidiOutMapping>,
    ) -> bool {
        self.current_state is Some ==> {
            &&& state_channels_ok(mappings, state, self.compared_with(state))
            &&& looper_channels_ok(mappings, modes, self.looper_modes@, self.recount(modes))
        }
    }

    /// The looper modes that are remembered after a snapshot.
    pub open spec fn next_modes(
        self,
        modes: Seq<LooperMode>,
        mappings: Seq<MidiOutMapping>,
    ) -> Seq<LooperMode> {
        if self.current_state is None || self.recount(modes) || looper_mapping(mappings) is Some {
            modes
        } else {
            self.looper_modes@
        }
    }

    /// Nothing is remembered yet.
    pub fn new() -> (r: Self)
        ensures
            r.current_state is None,
            r.first,
            r.looper_modes@ == Seq::<LooperMode>::empty(),
    {
        MidiOutput { current_state: None, first: true, looper_modes: Vec::new() }
    }

    /// Whether the mappings have room for what has to be reported.
    pub fn can_report(
        &self,
        state: &MidiEngineStateSnapshot,
        modes: &Vec<LooperMode>,
        mappings: &Vec<MidiOutMapping>,
    ) -> (r: bool)
        ensures
            r == self.mappings_ok(*state, modes@, mappings@),
    {
        if self.current_state.is_none() {
            return true;
        }
        let before = if self.first && state.engine_state == EngineState::Active {
            None
        } else {
            self.current_state
        };
        if !check_state_channels(mappings, state, before) {
            return false;
        }
        match find_looper_mapping(mappings) {
            Some(m) => {
                let some = if self.looper_modes.len() != modes.len() {
                    modes.len() > 0
                } else {
                    count_unchanged(modes, &self.looper_modes) < modes.len()
                };
                !some || (m.channel >= 1 && modes.len() <= 256 - (m.controller as usize))
            },
            None => true,
        }
    }

    /// Takes in a snapshot and the modes of the loopers, and returns the
    /// messages to send.
    pub fn on_snapshot(
        &mut self,
        state: MidiEngineStateSnapshot,
        modes: Vec<LooperMode>,
        mappings: &Vec<MidiOutMapping>,
    ) -> (r: Vec<[u8; 3]>)
        requires
            old(self).mappings_ok(state, modes@, mappings@),
        ensures
            bytes_of(r@) == old(self).messages(state, modes@, mappings@),
            final(self).current_state == Some(state),
            final(self).first == (old(self).first && !(old(self).current_state is Some && old(
                self,
            ).in_full(state))),
            final(self).looper_modes@ == old(self).next_modes(modes@, mappings@),
    {
        match self.current_state {
            None => {
                self.current_state = Some(state);
                self.looper_modes = modes;
                let r: Vec<[u8; 3]> = Vec::new();
                assert(bytes_of(r@) =~= Seq::<Seq<u8>>::empty());
                r
            },
            Some(current) => {
                let mut r = if self.first && state.engine_state == EngineState::Active {
                    self.first = false;
                    initialize(&state, mappings)
                } else {
                    update(&state, &current, mappings)
                };
                let ghost begun = r@;
                if self.looper_modes.len() != modes.len() {
                    let (_, mut more) = update_loopers(&modes, &modes, true, mappings);
                    let ghost rest = more@;
                    r.append(&mut more);
                    assert(bytes_of(r@) =~= bytes_of(begun) + bytes_of(rest));
                    self.looper_modes = modes;
                } else {
                    let (changed, mut more) = update_loopers(
                        &modes,
                        &self.looper_modes,
                        false,
                        mappings,
                    );
                    let ghost rest = more@;
                    r.append(&mut more);
                    assert(bytes_of(r@) =~= bytes_of(begun) + bytes_of(rest));
                    if changed {
                        self.looper_modes = modes;
                    } else {
                        proof {
                            lemma_unchanged(modes@, self.looper_modes@);
                            if looper_mapping(mappings@) is Some {
                                assert(modes@ =~= self.looper_modes@);
                            }
                        }
                    }
                }
                self.current_state = Some(state);
                r
            },
        }
    }

    /// Whether a snapshot makes the output look at the modes of the engine's
    /// loopers.
    pub open spec fn looks_at_loopers(
        self,
        state: MidiEngineStateSnapshot,
        mappings: Seq<MidiOutMapping>,
    ) -> bool {
        self.current_state is None || self.looper_modes@.len() != state.looper_count
            || looper_mapping(mappings) is Some
    }

    /// The looper modes that go with a snapshot: those of as many loopers as it
    /// counts.
    pub open spec fn modes_for(self, state: MidiEngineStateSnapshot, engine: EngineModel) -> Seq<
        LooperMode,
    > {
        if self.looks_at_loopers(state, engine.midi_out_mappings) {
            engine.looper_modes(state.looper_count as int)
        } else {
            self.looper_modes@
        }
    }

    /// Whether a command can be followed: the engine has as many live loopers as
    /// are looked at, and its mappings have room for what has to be reported.
    pub open spec fn follows(self, command: MidiOutCommand, engine: EngineModel) -> bool {
        match command {
            MidiOutCommand::StateSnapshot(state) => {
                &&& self.looks_at_loopers(state, engine.midi_out_mappings) ==> state.looper_count
                    <= positions(engine.loopers, Selector::Live).len()
                &&& self.mappings_ok(
                    state,
                    self.modes_for(state, engine),
                    engine.midi_out_mappings,
                )
            },
        }
    }

    fn has_to_look(&self, state: &MidiEngineStateSnapshot, mappings: &Vec<MidiOutMapping>) -> (r:
        bool)
        ensures
            r == self.looks_at_loopers(*state, mappings@),
    {
        self.current_state.is_none() || self.looper_modes.len() != state.looper_count as usize
            || find_looper_mapping(mappings).is_some()
    }

    fn find_modes(&self, state: &MidiEngineStateSnapshot, engine: &Engine) -> (r: Vec<LooperMode>)
        requires
            engine@.wf(),
            self.looks_at_loopers(*state, engine@.midi_out_mappings) ==> state.looper_count
                <= positions(engine@.loopers, Selector::Live).len(),
        ensures
            r@ == self.modes_for(*state, engine@),
    {
        if self.has_to_look(state, engine.midi_out_mappings()) {
            engine.looper_modes(state.looper_count as usize)
        } else {
            let r = self.looper_modes.clone();
            assert(r@ =~= self.looper_modes@);
            r
        }
    }

    /// Whether a command to the MIDI output can be followed.
    pub fn can_follow(&self, command: &MidiOutCommand, engine: &Engine) -> (r: bool)
        requires
            engine@.wf(),
        ensures
            r == self.follows(*command, engine@),
    {
        match command {
            MidiOutCommand::StateSnapshot(state) => {
                if self.has_to_look(state, engine.midi_out_mappings()) && (
                state.looper_count as usize) > engine.live_loopers() {
                    return false;
                }
                let modes = self.find_modes(state, engine);
                self.can_report(state, &modes, engine.midi_out_mappings())
            },
        }
    }

    /// Follows a command of the engine to the MIDI output, and returns the
    /// messages to send.
    pub fn follow(&mut self, command: MidiOutCommand, engine: &Engine) -> (r: Vec<[u8; 3]>)
        requires
            engine@.wf(),
            old(self).follows(command, engine@),
        ensures
            match command {
                MidiOutCommand::StateSnapshot(state) => {
                    let modes = old(self).modes_for(state, engine@);
                    let mappings = engine@.midi_out_mappings;
                    &&& bytes_of(r@) == old(self).messages(state, modes, mappings)
                    &&& final(self).current_state == Some(state)
                    &&& final(self).first == (old(self).first && !(old(self).current_state is Some
                        && old(self).in_full(state)))
                    &&& final(self).looper_modes@ == old(self).next_modes(modes, mappings)
                },
            },
    {
        match command {
            MidiOutCommand::StateSnapshot(state) => {
                let modes = self.find_modes(&state, engine);
                self.on_snapshot(state, modes, engine.midi_out_mappings())
            },
        }
    }
}

} // verus!
