use loopers::note_engine::{Engine, LoopState, PlayMode, RecordMode};

fn strike(note: u8) -> Vec<u8> {
    vec![144, note, 100]
}

#[test]
fn plays_what_was_recorded() {
    let mut e: Engine<f32> = Engine::new();
    e.update_states(&vec![strike(60)]);
    e.hear(false);
    let s = e.process(&vec![9.0], &vec![9.0]);
    assert_eq!(s.loops[0].record_mode, RecordMode::Ready);
    assert_eq!(s.loops[0].length, 0);
    e.hear(true);
    e.process(&vec![1.0, 2.0], &vec![-1.0, -2.0]);
    let s = e.process(&vec![3.0], &vec![-3.0]);
    assert_eq!(
        s.loops,
        vec![LoopState {
            id: 0,
            record_mode: RecordMode::Record,
            play_mode: PlayMode::Paused,
            time: 0,
            length: 3,
            active: true,
        }]
    );
    assert_eq!(e.audible(), 0);
    e.update_states(&vec![strike(62)]);
    assert_eq!(e.time(), 0);
    assert_eq!(e.audible(), 1);
    assert!(e.all_heard_filled());
    let heard: Vec<(f32, f32)> = (0..5).map(|i| e.heard(0, i)).collect();
    assert_eq!(heard, vec![(1.0, -1.0), (2.0, -2.0), (3.0, -3.0), (1.0, -1.0), (2.0, -2.0)]);
    let s = e.process(&vec![0.0; 4], &vec![0.0; 4]);
    assert_eq!((s.loops[0].time, s.loops[0].length), (1, 3));
    assert_eq!(s.loops[0].record_mode, RecordMode::Off);
    assert_eq!(e.heard(0, 0), (2.0, -2.0));
}

#[test]
fn overdubs_what_is_playing() {
    let mut e: Engine<u8> = Engine::new();
    e.update_states(&vec![strike(60)]);
    e.hear(true);
    e.process(&vec![1], &vec![1]);
    e.update_states(&vec![strike(62), strike(60)]);
    assert_eq!(e.audible(), 2);
    assert!(!e.all_heard_filled());
    let s = e.process(&vec![2], &vec![2]);
    assert_eq!(s.loops[0].record_mode, RecordMode::Overdub);
    assert_eq!(s.loops[0].length, 1);
    // pausing leaves the layers and stops recording
    e.update_states(&vec![strike(62)]);
    assert_eq!(e.audible(), 0);
    // a paused looper gets ready to start over
    e.update_states(&vec![strike(60)]);
    e.hear(true);
    let s = e.process(&vec![7, 8], &vec![7, 8]);
    assert_eq!(s.loops[0].length, 2);
}

#[test]
fn adds_loopers() {
    let mut e: Engine<u8> = Engine::new();
    assert_eq!(e.free_ids(), u32::MAX - 1);
    e.update_states(&vec![strike(64), strike(64)]);
    let s = e.process(&vec![], &vec![]);
    let ids: Vec<(u32, bool)> = s.loops.iter().map(|l| (l.id, l.active)).collect();
    assert_eq!(ids, vec![(0, false), (1, false), (2, true)]);
    assert_eq!(e.free_ids(), u32::MAX - 3);
}

#[test]
fn ignores_other_messages() {
    let mut e: Engine<u8> = Engine::new();
    e.update_states(&vec![vec![144, 60], vec![145, 60, 1], strike(61), vec![128, 62, 0], vec![]]);
    let s = e.process(&vec![], &vec![]);
    assert_eq!(s.loops.len(), 1);
    assert_eq!(s.loops[0].record_mode, RecordMode::Off);
    assert_eq!(s.loops[0].play_mode, PlayMode::Paused);
}
