use loopers::action::Action;
use loopers::api::{
    Command, FrameTime, LooperMode, MetricStructure, PartSet, QuantizationMode, Tempo,
    TimeSignature,
};
use loopers::engine::Engine;
use loopers::looper::Looper;
use loopers::session::{restore_order, SavedSession};
use loopers::trigger::TriggerTimes;

fn looper(id: u32) -> Looper {
    Looper {
        id,
        deleted: false,
        parts: PartSet { a: true, b: false, c: false, d: false },
        mode: LooperMode::Playing,
        local_mode: LooperMode::Playing,
        length: 0,
        offset: FrameTime(0),
    }
}

fn structure(tempo: u32) -> MetricStructure {
    MetricStructure { time_signature: TimeSignature { upper: 4, lower: 4 }, tempo: Tempo(tempo) }
}

fn session(metronome_volume: u8, ids: Vec<u32>) -> SavedSession {
    SavedSession {
        sample_rate: 48000,
        metric_structure: Ok(structure(2)),
        sync_mode: QuantizationMode::Loop,
        metronome_volume,
        looper_ids: ids,
    }
}

#[test]
fn restore_order_unique() {
    assert_eq!(restore_order(&vec![]), Vec::<usize>::new());
    assert_eq!(restore_order(&vec![5, 1, 9, 3]), vec![1, 3, 0, 2]);
    assert_eq!(restore_order(&vec![2, 1, 2, 1, 2]), vec![1, 3, 0, 2, 4]);
}

#[test]
fn loads_a_session() {
    let (mut e, _) = Engine::new(vec![], structure(1), looper(0));
    e.add_looper(looper(4));
    let start = e.load_session(session(60, vec![8, 3]), 48000);
    assert_eq!(
        start.actions,
        vec![Action::SetMetronomeLevel(60), Action::RemoveLooper(0), Action::RemoveLooper(4)]
    );
    assert_eq!(start.order, Ok(vec![1, 0]));
    assert!(e.loopers().is_empty());
    assert_eq!(e.metric_structure(), structure(2));
    e.add_looper(looper(3));
    e.add_looper(looper(8));
    assert_eq!(e.finish_session().len(), 4);
    let times = TriggerTimes { immediate: FrameTime(0), quantized: FrameTime(0) };
    assert_eq!(
        e.handle_command(&Command::AddLooper, false, times),
        vec![Action::CreateLooper { id: 9, part: e.current_part() }]
    );
}

#[test]
fn an_empty_session_numbers_from_one() {
    let (mut e, _) = Engine::new(vec![], structure(1), looper(0));
    assert_eq!(e.load_session(session(0, vec![]), 48000).order, Ok(vec![]));
    e.finish_session();
    let times = TriggerTimes { immediate: FrameTime(0), quantized: FrameTime(0) };
    assert_eq!(
        e.handle_command(&Command::AddLooper, false, times),
        vec![Action::CreateLooper { id: 1, part: e.current_part() }]
    );
}

#[test]
fn reports_another_sample_rate_and_caps_the_level() {
    let (mut e, _) = Engine::new(vec![], structure(1), looper(0));
    let start = e.load_session(session(150, vec![]), 44100);
    assert_eq!(
        start.actions,
        vec![
            Action::ReportSampleRate { saved: 48000, system: 44100 },
            Action::SetMetronomeLevel(100),
            Action::RemoveLooper(0),
        ]
    );
}

#[test]
fn a_broken_session_changes_nothing() {
    let (mut e, _) = Engine::new(vec![], structure(1), looper(0));
    let mut s = session(50, vec![1]);
    s.metric_structure = Err("no such signature".to_string());
    let start = e.load_session(s, 44100);
    assert_eq!(start.actions, vec![Action::ReportSampleRate { saved: 48000, system: 44100 }]);
    assert_eq!(start.order, Err("no such signature".to_string()));
    assert_eq!(e.loopers().len(), 1);
    assert_eq!(e.metric_structure(), structure(1));
}
