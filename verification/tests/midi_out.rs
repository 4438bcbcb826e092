use loopers::api::{
    EngineMode, EngineState, FrameTime, LooperMode, MetricStructure, PartSet, QuantizationMode, Tempo,
    TimeSignature,
};
use loopers::config::MidiOutMapping;
use loopers::engine::Engine;
use loopers::looper::Looper;
use loopers::midi::{EngineSnapshotField, MidiEngineStateSnapshot, MidiOutCommand};
use loopers::midi_out::{data_for_field, initialize, update, update_loopers, MidiOutput};

fn state() -> MidiEngineStateSnapshot {
    MidiEngineStateSnapshot {
        engine_state: EngineState::Stopped,
        engine_mode: EngineMode::Record,
        sync_mode: QuantizationMode::Measure,
        metronome: 40,
        active_looper: 5,
        part: 1,
        looper_count: 2,
    }
}

fn mapping(channel: u8, controller: u8, field: EngineSnapshotField) -> MidiOutMapping {
    MidiOutMapping { channel, controller, field }
}

fn mappings() -> Vec<MidiOutMapping> {
    vec![
        mapping(1, 10, EngineSnapshotField::EngineState),
        mapping(2, 11, EngineSnapshotField::EngineMode),
        mapping(3, 12, EngineSnapshotField::QuantizationMode),
        mapping(4, 13, EngineSnapshotField::Metronome),
        mapping(5, 14, EngineSnapshotField::ActiveLooper),
        mapping(6, 15, EngineSnapshotField::LooperCount),
        mapping(7, 16, EngineSnapshotField::Part),
        mapping(8, 17, EngineSnapshotField::Unknown),
        mapping(9, 20, EngineSnapshotField::LooperMode),
    ]
}

#[test]
fn reports_in_full() {
    assert_eq!(
        initialize(&state(), &mappings()),
        vec![
            [0xb0, 10, 0],
            [0xb1, 11, 0],
            [0xb2, 12, 2],
            [0xb3, 13, 40],
            [0xb4, 14, 5],
            [0xb5, 15, 2],
        ]
    );
}

#[test]
fn data_of_fields() {
    let data = |s: MidiEngineStateSnapshot, f| data_for_field(&s, f);
    for (i, v) in [EngineState::Stopped, EngineState::Paused, EngineState::Active].into_iter().enumerate() {
        let s = MidiEngineStateSnapshot { engine_state: v, ..state() };
        assert_eq!(data(s, EngineSnapshotField::EngineState), Some(i as u8));
    }
    for (i, v) in [EngineMode::Record, EngineMode::Play].into_iter().enumerate() {
        let s = MidiEngineStateSnapshot { engine_mode: v, ..state() };
        assert_eq!(data(s, EngineSnapshotField::EngineMode), Some(i as u8));
    }
    for (i, v) in [QuantizationMode::Free, QuantizationMode::Beat, QuantizationMode::Measure]
        .into_iter()
        .enumerate()
    {
        let s = MidiEngineStateSnapshot { sync_mode: v, ..state() };
        assert_eq!(data(s, EngineSnapshotField::QuantizationMode), Some(i as u8));
    }
    assert_eq!(data(state(), EngineSnapshotField::Part), None);
    assert_eq!(data(state(), EngineSnapshotField::LooperMode), None);
    assert_eq!(data(state(), EngineSnapshotField::Unknown), None);
}

#[test]
fn reports_only_news() {
    let s = state();
    assert_eq!(update(&s, &s, &mappings()), Vec::<[u8; 3]>::new());
    let n = MidiEngineStateSnapshot { engine_mode: EngineMode::Play, active_looper: 6, ..s };
    assert_eq!(update(&n, &s, &mappings()), vec![[0xb1, 11, 1], [0xb4, 14, 6]]);
    let all = initialize(&n, &mappings());
    for m in update(&n, &s, &mappings()) {
        assert!(all.contains(&m));
    }
    let n = MidiEngineStateSnapshot { part: 3, ..s };
    assert_eq!(update(&n, &s, &mappings()), Vec::<[u8; 3]>::new());
    let n = MidiEngineStateSnapshot {
        engine_state: EngineState::Paused,
        sync_mode: QuantizationMode::Free,
        metronome: 41,
        looper_count: 3,
        ..s
    };
    assert_eq!(
        update(&n, &s, &mappings()),
        vec![[0xb0, 10, 1], [0xb2, 12, 0], [0xb3, 13, 41], [0xb5, 15, 3]]
    );
}

#[test]
fn reports_looper_modes() {
    let modes = vec![
        LooperMode::Recording,
        LooperMode::Overdubbing,
        LooperMode::Muted,
        LooperMode::Playing,
        LooperMode::Soloed,
        LooperMode::Armed,
    ];
    let (changed, messages) = update_loopers(&modes, &modes, true, &mappings());
    assert!(!changed);
    let expected: Vec<[u8; 3]> = (0..6).map(|i| [0xb8, 20 + i, i]).collect();
    assert_eq!(messages, expected);
    assert_eq!(update_loopers(&modes, &modes, false, &mappings()), (false, vec![]));

    let mut before = modes.clone();
    before[4] = LooperMode::Armed;
    assert_eq!(
        update_loopers(&modes, &before, false, &mappings()),
        (true, vec![[0xb8, 24, 4], [0xb8, 25, 5]])
    );
    assert_eq!(update_loopers(&modes, &before, false, &vec![]), (false, vec![]));
}

#[test]
fn follows_the_engine() {
    let mut out = MidiOutput::new();
    let modes = vec![LooperMode::Playing, LooperMode::Playing];
    assert_eq!(out.on_snapshot(state(), modes.clone(), &mappings()), Vec::<[u8; 3]>::new());
    // a stopped engine is reported by its news
    assert_eq!(out.on_snapshot(state(), modes.clone(), &mappings()), Vec::<[u8; 3]>::new());
    // the first time it is active, in full
    let active = MidiEngineStateSnapshot { engine_state: EngineState::Active, ..state() };
    assert_eq!(out.on_snapshot(active, modes.clone(), &mappings()).len(), 6);
    // and never again
    assert_eq!(out.on_snapshot(active, modes.clone(), &mappings()), Vec::<[u8; 3]>::new());
    assert_eq!(out.on_snapshot(state(), modes.clone(), &mappings()), vec![[0xb0, 10, 0]]);
    assert_eq!(out.on_snapshot(active, modes.clone(), &mappings()), vec![[0xb0, 10, 2]]);
    // a looper changes its mode
    let muted = vec![LooperMode::Playing, LooperMode::Muted];
    assert_eq!(out.on_snapshot(active, muted.clone(), &mappings()), vec![[0xb8, 21, 2]]);
    assert_eq!(out.on_snapshot(active, muted.clone(), &mappings()), Vec::<[u8; 3]>::new());
    // a looper is gone: all are reported
    let one = MidiEngineStateSnapshot { looper_count: 1, ..active };
    assert_eq!(
        out.on_snapshot(one, vec![LooperMode::Soloed], &mappings()),
        vec![[0xb5, 15, 1], [0xb8, 20, 4]]
    );
}

#[test]
fn knows_what_it_cannot_report() {
    let bad = vec![mapping(0, 1, EngineSnapshotField::Metronome)];
    let far = vec![mapping(1, 255, EngineSnapshotField::LooperMode)];
    let modes = vec![LooperMode::Playing, LooperMode::Playing];
    let mut out = MidiOutput::new();
    assert!(out.can_report(&state(), &modes, &bad));
    out.on_snapshot(state(), modes.clone(), &bad);
    assert!(out.can_report(&state(), &modes, &bad));
    let louder = MidiEngineStateSnapshot { metronome: 41, ..state() };
    assert!(!out.can_report(&louder, &modes, &bad));
    assert!(out.can_report(&louder, &modes, &mappings()));
    assert!(out.can_report(&louder, &modes, &far));
    let changed = vec![LooperMode::Playing, LooperMode::Armed];
    assert!(!out.can_report(&louder, &changed, &far));
    assert!(!out.can_report(&louder, &vec![LooperMode::Armed; 3], &far));
    assert!(out.can_report(&louder, &vec![LooperMode::Armed], &far));
}

#[test]
fn each_looper_on_its_own_controller() {
    let modes = vec![LooperMode::Playing; 5];
    let (_, messages) = update_loopers(&modes, &modes, true, &mappings());
    for w in messages.windows(2) {
        assert!(w[0][1] < w[1][1]);
    }
}

#[test]
fn looks_at_the_loopers_of_the_engine() {
    let fresh = Looper {
        id: 0,
        deleted: false,
        parts: PartSet { a: true, b: false, c: false, d: false },
        mode: LooperMode::Playing,
        local_mode: LooperMode::Playing,
        length: 0,
        offset: FrameTime(0),
    };
    let ms = MetricStructure { time_signature: TimeSignature { upper: 4, lower: 4 }, tempo: Tempo(0) };
    let (mut engine, _) = Engine::new(mappings(), ms, fresh);
    engine.add_looper(Looper { id: 1, deleted: true, mode: LooperMode::Armed, ..fresh });
    engine.add_looper(Looper { id: 2, mode: LooperMode::Muted, ..fresh });
    assert_eq!(engine.looper_modes(2), vec![LooperMode::Playing, LooperMode::Muted]);
    assert_eq!(engine.looper_modes(0), vec![]);

    let mut out = MidiOutput::new();
    let two = MidiOutCommand::StateSnapshot(state());
    let three = MidiOutCommand::StateSnapshot(MidiEngineStateSnapshot { looper_count: 3, ..state() });
    assert!(!out.can_follow(&three, &engine));
    assert!(out.can_follow(&two, &engine));
    assert_eq!(out.follow(two, &engine), Vec::<[u8; 3]>::new());
    engine.report_looper(2, Looper { id: 2, mode: LooperMode::Soloed, ..fresh });
    assert!(out.can_follow(&two, &engine));
    assert_eq!(out.follow(two, &engine), vec![[0xb8, 21, 4]]);
    assert_eq!(out.follow(two, &engine), Vec::<[u8; 3]>::new());
    assert!(!out.can_follow(&three, &engine));
    let one = MidiOutCommand::StateSnapshot(MidiEngineStateSnapshot { looper_count: 1, ..state() });
    assert!(out.can_follow(&one, &engine));
    assert_eq!(out.follow(one, &engine), vec![[0xb5, 15, 1], [0xb8, 20, 3]]);

    // without a mapping for the modes, a known number of loopers is not looked at
    let (mut bare, _) = Engine::new(vec![], ms, fresh);
    let mut out = MidiOutput::new();
    assert_eq!(out.follow(one, &bare), Vec::<[u8; 3]>::new());
    bare.report_looper(0, Looper { deleted: true, ..fresh });
    assert!(out.can_follow(&one, &bare));
    assert_eq!(out.follow(one, &bare), Vec::<[u8; 3]>::new());
    assert!(!out.can_follow(&two, &bare));
}

#[test]
fn news_are_part_of_full_report() {
    let s = state();
    let n = MidiEngineStateSnapshot {
        engine_state: EngineState::Active,
        metronome: 41,
        looper_count: 3,
        ..s
    };
    let all = initialize(&n, &mappings());
    // in the same order
    let mut rest = all.iter();
    for m in update(&n, &s, &mappings()) {
        assert!(rest.any(|a| *a == m));
    }
    // where every field is new, the news are the full report
    let n = MidiEngineStateSnapshot {
        engine_mode: EngineMode::Play,
        sync_mode: QuantizationMode::Free,
        active_looper: 6,
        ..n
    };
    assert_eq!(update(&n, &s, &mappings()), initialize(&n, &mappings()));
}

#[test]
fn a_changed_looper_ends_the_comparison() {
    // once a mode has changed, the remembered modes are not looked at any more
    let modes = vec![LooperMode::Playing, LooperMode::Muted, LooperMode::Soloed];
    let before = vec![LooperMode::Playing, LooperMode::Playing];
    assert_eq!(
        update_loopers(&modes, &before, false, &mappings()),
        (true, vec![[0xb8, 21, 2], [0xb8, 22, 4]])
    );
}
