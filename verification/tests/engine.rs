use loopers::action::Action;
use loopers::api::{
    Command, EngineMode, EngineState, EngineSwitchingOrder, FrameTime, LooperCommand, LooperMode,
    LooperTarget, MetricStructure, Part, PartSet, QuantizationMode, Tempo, TimeSignature,
};
use loopers::engine::Engine;
use loopers::looper::Looper;
use loopers::period::Levels;
use loopers::schedule::Step;
use loopers::trigger::{Trigger, TriggerCondition, TriggerTimes};

const TIMES: TriggerTimes = TriggerTimes { immediate: FrameTime(0), quantized: FrameTime(1000) };

fn parts(a: bool, b: bool, c: bool, d: bool) -> PartSet {
    PartSet { a, b, c, d }
}

fn looper(id: u32) -> Looper {
    Looper {
        id,
        deleted: false,
        parts: parts(true, false, false, false),
        mode: LooperMode::Playing,
        local_mode: LooperMode::Playing,
        length: 0,
        offset: FrameTime(0),
    }
}

fn structure() -> MetricStructure {
    MetricStructure {
        time_signature: TimeSignature { upper: 4, lower: 4 },
        tempo: Tempo(120f32.to_bits()),
    }
}

fn engine() -> Engine {
    Engine::new(vec![], structure(), looper(7)).0
}

fn run(e: &mut Engine, c: Command) -> Vec<Action> {
    assert!(e.can_take(&c, false));
    e.handle_command(&c, false, TIMES)
}

fn play(position: usize) -> Action {
    Action::Looper { position, command: LooperCommand::Play, loop_sync: false }
}

fn with_loopers(more: &[Looper]) -> Engine {
    let mut e = engine();
    for l in more {
        assert_eq!(e.add_looper(*l), Action::AttachLooper(l.id));
    }
    e
}

fn levels() -> Levels {
    Levels { input: [1, 2], loopers: [[3, 4]; 64], metronome: 5, metronome_midi: 6 }
}

#[test]
fn begins_with_one_looper() {
    let (e, actions) = Engine::new(vec![], structure(), looper(7));
    assert_eq!(
        actions,
        vec![Action::ResetMetronome, Action::SetLooperTimes(FrameTime(0)), play(0), Action::AttachLooper(0)]
    );
    assert_eq!(e.state(), EngineState::Stopped);
    assert_eq!(e.mode(), EngineMode::Play);
    assert_eq!(e.time(), FrameTime(0));
    assert_eq!(e.active(), 0);
    assert_eq!(e.current_part(), Part::A);
    assert_eq!(e.loopers(), &vec![looper(0)]);
    assert!(e.midi_out_mappings().is_empty());
    assert_eq!(e.metric_structure(), structure());
}

#[test]
fn start_pause_stop() {
    let mut e = engine();
    assert_eq!(run(&mut e, Command::Start), vec![]);
    assert_eq!(e.state(), EngineState::Active);
    assert_eq!(run(&mut e, Command::Pause), vec![]);
    assert_eq!(e.state(), EngineState::Paused);
    assert_eq!(run(&mut e, Command::SetTime(FrameTime(44))), vec![Action::SetLooperTimes(FrameTime(44))]);
    assert_eq!(e.time(), FrameTime(44));
    let reset = vec![Action::ResetMetronome, Action::SetLooperTimes(FrameTime(0)), play(0)];
    assert_eq!(run(&mut e, Command::Stop), reset);
    assert_eq!(e.state(), EngineState::Stopped);
    assert_eq!(e.time(), FrameTime(0));
    assert_eq!(run(&mut e, Command::Reset), reset);
}

#[test]
fn start_stop_comes_back() {
    let mut e = engine();
    assert_eq!(run(&mut e, Command::StartStop), vec![]);
    assert_eq!(e.state(), EngineState::Active);
    assert_eq!(run(&mut e, Command::StartStop).len(), 3);
    assert_eq!(e.state(), EngineState::Stopped);
    run(&mut e, Command::Pause);
    run(&mut e, Command::StartStop);
    assert_eq!(e.state(), EngineState::Active);
}

#[test]
fn pause_and_play_on() {
    let mut e = engine();
    run(&mut e, Command::PlayPause);
    assert_eq!(e.state(), EngineState::Active);
    run(&mut e, Command::PlayPause);
    assert_eq!(e.state(), EngineState::Paused);
    run(&mut e, Command::PlayPause);
    assert_eq!(e.state(), EngineState::Active);
}

#[test]
fn recording_waits() {
    let mut e = engine();
    let c = Command::Looper(LooperCommand::Record, LooperTarget::Selected);
    let q = e.trigger_query(&c, false);
    assert!(!q.immediate);
    assert_eq!(q.quantized, Some(TriggerCondition::Measure));
    assert_eq!(
        run(&mut e, c),
        vec![Action::ShowLoopTrigger { looper: 0, at: FrameTime(1000), command: LooperCommand::Record }]
    );
}

#[test]
fn free_mode_does_not_wait() {
    let mut e = engine();
    run(&mut e, Command::SetQuantizationMode(QuantizationMode::Free));
    let c = Command::Looper(LooperCommand::Record, LooperTarget::Selected);
    let q = e.trigger_query(&c, false);
    assert!(q.immediate);
    assert_eq!(q.quantized, None);
    assert_eq!(
        run(&mut e, c),
        vec![Action::ShowLoopTrigger { looper: 0, at: FrameTime(0), command: LooperCommand::Record }]
    );
}

#[test]
fn level_and_pan_apply_at_once() {
    let mut recording = looper(5);
    recording.mode = LooperMode::Recording;
    let mut e = with_loopers(&[recording]);
    for c in [LooperCommand::SetLevel(0), LooperCommand::SetPan(1)] {
        let command = Command::Looper(c, LooperTarget::All);
        let q = e.trigger_query(&command, false);
        assert!(!q.immediate && q.quantized.is_none());
        assert_eq!(
            run(&mut e, command),
            vec![
                Action::Looper { position: 0, command: c, loop_sync: false },
                Action::Looper { position: 1, command: c, loop_sync: false },
            ]
        );
    }
}

#[test]
fn what_ends_a_recording_waits() {
    for mode in [LooperMode::Recording, LooperMode::Overdubbing] {
        let mut l = looper(5);
        l.mode = mode;
        let mut e = with_loopers(&[l]);
        assert_eq!(
            run(&mut e, Command::Looper(LooperCommand::Play, LooperTarget::Id(5))),
            vec![Action::ShowLoopTrigger { looper: 5, at: FrameTime(1000), command: LooperCommand::Play }]
        );
    }
    let mut e = with_loopers(&[looper(5)]);
    assert_eq!(run(&mut e, Command::Looper(LooperCommand::Play, LooperTarget::Id(5))), vec![play(1)]);
    assert_eq!(
        run(&mut e, Command::Looper(LooperCommand::Other(3), LooperTarget::Id(5))),
        vec![Action::Looper { position: 1, command: LooperCommand::Other(3), loop_sync: false }]
    );
}

#[test]
fn moving_on_a_full_looper_is_only_queued() {
    let mut full = looper(5);
    full.length = 10;
    let mut e = with_loopers(&[full, looper(6)]);
    for c in [LooperCommand::RecordOverdubPlay, LooperCommand::RecordPlayOverdub] {
        assert_eq!(
            run(&mut e, Command::Looper(c, LooperTarget::Id(5))),
            vec![Action::ShowLoopTrigger { looper: 5, at: FrameTime(0), command: c }]
        );
        assert_eq!(
            run(&mut e, Command::Looper(c, LooperTarget::Id(6))),
            vec![Action::ShowLoopTrigger { looper: 6, at: FrameTime(1000), command: c }]
        );
        let q = e.trigger_query(&Command::Looper(c, LooperTarget::All), false);
        assert!(q.immediate);
        assert_eq!(q.quantized, Some(TriggerCondition::Measure));
    }
}

#[test]
fn unasked_times_do_not_matter() {
    let c = Command::Looper(LooperCommand::Record, LooperTarget::All);
    let mut a = engine();
    let mut b = engine();
    assert!(!a.trigger_query(&c, false).immediate);
    let other = TriggerTimes { immediate: FrameTime(77), quantized: FrameTime(1000) };
    assert_eq!(a.handle_command(&c, false, TIMES), b.handle_command(&c, false, other));
}

#[test]
fn the_first_looper_sets_the_time() {
    let mut first = looper(0);
    first.length = 500;
    first.offset = FrameTime(20);
    let single = Command::Looper(LooperCommand::Record, LooperTarget::Selected);
    let all = Command::Looper(LooperCommand::Record, LooperTarget::AllSync);

    let mut e = engine();
    e.report_looper(0, first);
    let q = e.trigger_query(&single, false);
    assert_eq!((q.base_length, q.base_offset), (0, FrameTime(0)));
    let q = e.trigger_query(&Command::NextPart, false);
    assert_eq!((q.base_length, q.base_offset), (500, FrameTime(20)));

    e.add_looper(looper(1));
    let q = e.trigger_query(&single, false);
    assert_eq!((q.base_length, q.base_offset), (500, FrameTime(20)));
    let q = e.trigger_query(&all, false);
    assert_eq!((q.base_length, q.base_offset), (0, FrameTime(20)));
}

#[test]
fn targets() {
    let mut gone = looper(5);
    gone.deleted = true;
    let mut e = with_loopers(&[gone, looper(6)]);
    let mut hit = |t: LooperTarget| -> Vec<usize> {
        e.handle_command(&Command::Looper(LooperCommand::Play, t), true, TIMES)
            .iter()
            .map(|a| match a {
                Action::Looper { position, .. } => *position,
                _ => panic!("not carried out"),
            })
            .collect()
    };
    assert_eq!(hit(LooperTarget::Id(5)), vec![1]);
    assert_eq!(hit(LooperTarget::Id(9)), Vec::<usize>::new());
    assert_eq!(hit(LooperTarget::Selected), vec![0]);
    assert_eq!(hit(LooperTarget::All), vec![0, 1, 2]);
    assert_eq!(hit(LooperTarget::Index(1)), vec![2]);
    assert_eq!(hit(LooperTarget::Index(2)), Vec::<usize>::new());
    // naming a looper by its index has made it active
    assert_eq!(hit(LooperTarget::Selected), vec![2]);
    assert_eq!(e.active(), 6);
}

#[test]
fn only_the_first_leads() {
    let mut e = with_loopers(&[looper(1), looper(2)]);
    let c = Command::Looper(LooperCommand::Play, LooperTarget::AllSync);
    assert_eq!(
        e.handle_command(&c, true, TIMES),
        vec![
            Action::Looper { position: 0, command: LooperCommand::Play, loop_sync: false },
            Action::Looper { position: 1, command: LooperCommand::Play, loop_sync: true },
            Action::Looper { position: 2, command: LooperCommand::Play, loop_sync: true },
        ]
    );
}

#[test]
fn new_looper_has_a_new_id() {
    let mut e = engine();
    run(&mut e, Command::GoToPart(Part::C));
    assert_eq!(run(&mut e, Command::AddLooper), vec![Action::CreateLooper { id: 1, part: Part::C }]);
    assert_eq!(e.active(), 1);
    e.add_looper(looper(1));
    assert_eq!(run(&mut e, Command::AddLooper), vec![Action::CreateLooper { id: 2, part: Part::C }]);
}

#[test]
fn selects_by_id_and_index() {
    let mut gone = looper(5);
    gone.deleted = true;
    let mut e = with_loopers(&[gone, looper(6)]);
    run(&mut e, Command::SelectLooperById(5));
    assert_eq!(e.active(), 5);
    run(&mut e, Command::SelectLooperById(8));
    assert_eq!(e.active(), 5);
    run(&mut e, Command::SelectLooperByIndex(1));
    assert_eq!(e.active(), 6);
    run(&mut e, Command::SelectLooperByIndex(2));
    assert_eq!(e.active(), 6);
}

#[test]
fn previous_undoes_next() {
    let mut elsewhere = looper(2);
    elsewhere.parts = parts(false, true, false, false);
    let mut e = with_loopers(&[looper(1), elsewhere, looper(3)]);
    let mut seen = vec![];
    for _ in 0..4 {
        run(&mut e, Command::SelectNextLooper);
        seen.push(e.active());
    }
    assert_eq!(seen, vec![1, 3, 0, 1]);
    for _ in 0..4 {
        run(&mut e, Command::SelectPreviousLooper);
        seen.push(e.active());
    }
    assert_eq!(seen[4..], [0, 3, 1, 0]);
    // a looper outside the part gives way to the first one in it
    run(&mut e, Command::SelectLooperById(2));
    run(&mut e, Command::SelectPreviousLooper);
    assert_eq!(e.active(), 0);
}

#[test]
fn parts_go_around() {
    let mut in_c = looper(4);
    in_c.parts = parts(false, false, true, false);
    let mut e = with_loopers(&[in_c]);
    run(&mut e, Command::NextPart);
    assert_eq!((e.current_part(), e.active()), (Part::C, 4));
    run(&mut e, Command::PreviousPart);
    assert_eq!((e.current_part(), e.active()), (Part::A, 0));
    run(&mut e, Command::PreviousPart);
    assert_eq!((e.current_part(), e.active()), (Part::C, 4));
    run(&mut e, Command::NextPart);
    assert_eq!((e.current_part(), e.active()), (Part::A, 0));
    run(&mut e, Command::GoToPart(Part::B));
    assert_eq!((e.current_part(), e.active()), (Part::B, 0));

    let mut alone = engine();
    run(&mut alone, Command::NextPart);
    assert_eq!(alone.current_part(), Part::A);
    run(&mut alone, Command::PreviousPart);
    assert_eq!(alone.current_part(), Part::A);
}

#[test]
fn part_keeps_a_looper_that_is_in_it() {
    let mut both = looper(4);
    both.parts = parts(true, false, true, false);
    let mut in_c = looper(3);
    in_c.parts = parts(false, false, true, false);
    let mut e = with_loopers(&[in_c, both]);
    run(&mut e, Command::SelectLooperById(4));
    run(&mut e, Command::GoToPart(Part::C));
    assert_eq!(e.active(), 4);
    run(&mut e, Command::SelectLooperById(0));
    run(&mut e, Command::GoToPart(Part::C));
    assert_eq!(e.active(), 3);
}

#[test]
fn toggle_twice() {
    let mut list = vec![];
    for (i, mode) in [LooperMode::Recording, LooperMode::Overdubbing, LooperMode::Armed, LooperMode::Muted]
        .into_iter()
        .enumerate()
    {
        let mut l = looper(i as u32 + 1);
        l.mode = mode;
        list.push(l);
    }
    let mut gone = looper(9);
    gone.mode = LooperMode::Recording;
    gone.deleted = true;
    list.push(gone);
    let mut e = with_loopers(&list);
    assert_eq!(run(&mut e, Command::ToggleMode), vec![]);
    assert_eq!(e.mode(), EngineMode::Record);
    assert_eq!(run(&mut e, Command::ToggleMode), vec![play(1), play(2), play(3)]);
    assert_eq!(e.mode(), EngineMode::Play);
}

#[test]
fn a_running_engine_puts_parts_off() {
    let mut e = engine();
    run(&mut e, Command::Start);
    assert_eq!(
        run(&mut e, Command::GoToPart(Part::B)),
        vec![Action::ShowGlobalTrigger { at: FrameTime(1000), command: Command::GoToPart(Part::B) }]
    );
    assert_eq!(e.current_part(), Part::A);
    assert_eq!(
        run(&mut e, Command::ToggleMode),
        vec![Action::ShowGlobalTrigger { at: FrameTime(0), command: Command::ToggleMode }]
    );
    assert_eq!(e.mode(), EngineMode::Play);
    // once its trigger has come, or its time has passed, a command runs
    e.handle_command(&Command::GoToPart(Part::D), true, TIMES);
    assert_eq!(e.current_part(), Part::D);
    run(&mut e, Command::SetTime(FrameTime(1001)));
    assert_eq!(run(&mut e, Command::GoToPart(Part::B)), vec![]);
    assert_eq!(e.current_part(), Part::B);
}

#[test]
fn nothing_to_set_the_time_by() {
    let mut l = looper(0);
    l.deleted = true;
    let mut e = engine();
    run(&mut e, Command::Start);
    e.report_looper(0, l);
    e.process(0);
    assert!(!e.can_take(&Command::NextPart, false));
    assert!(e.can_take(&Command::NextPart, true));
    run(&mut e, Command::Stop);
    assert!(e.can_take(&Command::NextPart, false));
}

#[test]
fn settings() {
    let mut e = engine();
    assert_eq!(run(&mut e, Command::SetMetronomeLevel(100)), vec![Action::SetMetronomeLevel(100)]);
    assert_eq!(run(&mut e, Command::SetMetronomeLevel(101)), vec![]);
    assert_eq!(run(&mut e, Command::SetTempoBPM(5)), vec![Action::WorkOutTempo { bpm: 5 }]);
    assert_eq!(
        run(&mut e, Command::ChangeTempoBPM(6)),
        vec![Action::WorkOutTempoChange { tempo: structure().tempo, delta: 6 }]
    );
    assert_eq!(
        run(&mut e, Command::SetTimeSignature(3, 8)),
        vec![Action::WorkOutTimeSignature { upper: 3, lower: 8 }]
    );
    assert_eq!(
        run(&mut e, Command::SaveSession("here".to_string())),
        vec![Action::SaveSession {
            metric_structure: structure(),
            sync_mode: QuantizationMode::Measure,
            path: "here".to_string()
        }]
    );
    assert_eq!(
        run(&mut e, Command::LoadSession("there".to_string())),
        vec![Action::LoadSession { path: "there".to_string() }]
    );
}

#[test]
fn tempo_and_signature_reset_the_engine() {
    let mut e = engine();
    run(&mut e, Command::SetTime(FrameTime(9)));
    let ms = MetricStructure { tempo: Tempo(1), ..structure() };
    assert_eq!(
        e.set_tempo(Tempo(1)),
        vec![Action::SetMetronomeStructure(ms), Action::ResetMetronome, Action::SetLooperTimes(FrameTime(0)), play(0)]
    );
    assert_eq!(e.time(), FrameTime(0));
    run(&mut e, Command::SetTime(FrameTime(9)));
    assert_eq!(e.set_time_signature(None), vec![]);
    assert_eq!(e.time(), FrameTime(9));
    let ts = TimeSignature { upper: 3, lower: 8 };
    assert_eq!(e.set_time_signature(Some(ts)).len(), 4);
    assert_eq!(e.metric_structure(), MetricStructure { time_signature: ts, tempo: Tempo(1) });
    assert_eq!(e.time(), FrameTime(0));
}

#[test]
fn put_off_command_runs() {
    let mut e = engine();
    run(&mut e, Command::Start);
    run(&mut e, Command::SetTime(FrameTime(900)));
    let c = Command::Looper(LooperCommand::Record, LooperTarget::Id(0));
    run(&mut e, c.clone());
    let p = e.process(256);
    assert_eq!(
        p.steps,
        vec![
            Step::Io { time: 900, start: 0, end: 100 },
            Step::Run(Trigger { triggered_at: FrameTime(1000), command: c.clone() }),
            Step::Io { time: 1000, start: 100, end: 256 },
        ]
    );
    assert_eq!(
        e.handle_command(&c, true, TIMES),
        vec![Action::Looper { position: 0, command: LooperCommand::Record, loop_sync: false }]
    );
    e.finish_period(&p, 256, levels());
    assert_eq!(e.time(), FrameTime(1156));
    assert_eq!(e.process(10).steps, vec![Step::Io { time: 1156, start: 0, end: 10 }]);
}

#[test]
fn triggered_command_leaves_the_queue() {
    let mut e = engine();
    run(&mut e, Command::Start);
    run(&mut e, Command::GoToPart(Part::B));
    e.handle_command(&Command::Looper(LooperCommand::Record, LooperTarget::All), true, TIMES);
    e.handle_command(&Command::ToggleMode, true, TIMES);
    run(&mut e, Command::SetTime(FrameTime(995)));
    assert_eq!(e.process(10).steps.len(), 3);
}

#[test]
fn wakes_for_a_trigger_or_a_recording() {
    let mut e = engine();
    let p = e.process(64);
    assert!(!p.active && p.steps.is_empty());
    e.finish_period(&p, 64, levels());
    assert_eq!(e.time(), FrameTime(0));

    run(&mut e, Command::Looper(LooperCommand::Record, LooperTarget::All));
    assert!(e.process(64).active);
    assert_eq!(e.state(), EngineState::Active);

    for mode in [LooperMode::Recording, LooperMode::Overdubbing] {
        let mut e = engine();
        let mut l = looper(0);
        l.local_mode = mode;
        e.report_looper(0, l);
        assert!(e.process(64).active);
        run(&mut e, Command::Pause);
        assert!(!e.process(64).active);
    }
}

#[test]
fn period_begins_clean() {
    let mut a = looper(4);
    a.deleted = true;
    let mut b = looper(6);
    b.deleted = true;
    let mut e = with_loopers(&[a, looper(5), b]);
    assert_eq!(e.live_loopers(), 2);
    let p = e.process(1);
    assert_eq!(p.removed, vec![4, 6]);
    assert_eq!(e.loopers(), &vec![looper(0), looper(5)]);
}

#[test]
fn solo_in_the_part() {
    let mut l = looper(4);
    l.mode = LooperMode::Soloed;
    let mut e = with_loopers(&[l]);
    assert!(e.process(1).solo);
    assert_eq!(e.looper_mode_by_index(0), LooperMode::Playing);
    assert_eq!(e.looper_mode_by_index(1), LooperMode::Soloed);
    run(&mut e, Command::GoToPart(Part::B));
    assert!(!e.process(1).solo);
}

#[test]
fn live_loopers_take_part() {
    let mut gone = looper(4);
    gone.deleted = true;
    let mut list = vec![gone];
    for id in 10..80 {
        list.push(looper(id));
    }
    let e = with_loopers(&list);
    let io = e.perform_looper_io(FrameTime(0));
    assert_eq!(io.len(), 71);
    assert_eq!((io[0].position, io[0].id, io[0].meter), (0, 0, Some(0)));
    assert_eq!((io[1].position, io[1].id, io[1].meter), (2, 10, Some(1)));
    assert_eq!((io[63].position, io[63].meter), (64, Some(63)));
    assert_eq!((io[64].position, io[64].meter), (65, None));
    assert!(e.perform_looper_io(FrameTime(-1)).is_empty());
}

#[test]
fn sums_up() {
    let mut e = engine();
    run(&mut e, Command::Start);
    run(&mut e, Command::GoToPart(Part::B));
    e.handle_command(&Command::GoToPart(Part::C), true, TIMES);
    for id in 1..300 {
        e.add_looper(looper(id));
    }
    run(&mut e, Command::SelectLooperById(258));
    let p = e.process(32);
    let (midi, display) = e.finish_period(&p, 32, levels());
    assert_eq!(midi.engine_state, EngineState::Active);
    assert_eq!(midi.engine_mode, EngineMode::Play);
    assert_eq!(midi.sync_mode, QuantizationMode::Measure);
    assert_eq!((midi.metronome, midi.active_looper, midi.part, midi.looper_count), (6, 2, 2, 44));
    assert_eq!(display.time, FrameTime(32));
    assert_eq!(display.engine_switching_order, EngineSwitchingOrder::RecordPlayOverdub);
    assert_eq!((display.active_looper, display.looper_count, display.part), (258, 300, Part::C));
    assert_eq!((display.input_levels, display.looper_levels[63], display.metronome_volume), ([1, 2], [3, 4], 5));
    assert!(!display.solo);
    assert_eq!(display.metric_structure, structure());
    assert_eq!((display.engine_state, display.engine_mode), (EngineState::Active, EngineMode::Play));
    assert_eq!(display.sync_mode, QuantizationMode::Measure);
}

#[test]
fn put_off_change_runs() {
    let mut e = with_loopers(&[Looper { parts: parts(false, true, false, false), ..looper(1) }]);
    run(&mut e, Command::Start);
    let times = TriggerTimes { immediate: FrameTime(0), quantized: FrameTime(40) };
    assert_eq!(
        e.handle_command(&Command::NextPart, false, times),
        vec![Action::ShowGlobalTrigger { at: FrameTime(40), command: Command::NextPart }]
    );
    assert_eq!(e.current_part(), Part::A);
    let period = e.process(128);
    let due = Trigger { triggered_at: FrameTime(40), command: Command::NextPart };
    assert_eq!(
        period.steps,
        vec![
            Step::Io { time: 0, start: 0, end: 40 },
            Step::Run(due),
            Step::Io { time: 40, start: 40, end: 128 },
        ]
    );
    assert_eq!(e.handle_command(&Command::NextPart, true, times), vec![]);
    assert_eq!((e.current_part(), e.active()), (Part::B, 1));
}

#[test]
fn plan_foresees_the_period() {
    // what the first command does to the engine leaves the steps after it as planned
    let mut e = with_loopers(&[Looper { parts: parts(true, true, false, false), ..looper(1) }]);
    run(&mut e, Command::Start);
    let at = |t: i64| TriggerTimes { immediate: FrameTime(t), quantized: FrameTime(t) };
    e.handle_command(&Command::NextPart, false, at(10));
    e.handle_command(&Command::SelectNextLooper, false, at(20));
    let period = e.process(30);
    let mut cuts = vec![];
    for step in &period.steps {
        match step {
            Step::Io { time, start, end } => cuts.push((*time, *start, *end)),
            Step::Run(t) => {
                e.handle_command(&t.command, true, TIMES);
                e.report_looper(0, Looper { length: 99, ..looper(0) });
            }
        }
    }
    assert_eq!(cuts, vec![(0, 0, 10), (10, 10, 20), (20, 20, 30)]);
    assert_eq!((e.current_part(), e.active()), (Part::B, 1));
    assert_eq!(e.process(30).steps, vec![Step::Io { time: 0, start: 0, end: 30 }]);
}

#[test]
fn knows_when_time_runs_out() {
    let mut e = engine();
    assert!(e.can_process(512));
    assert!(!e.can_process(u64::MAX));
    run(&mut e, Command::SetTime(FrameTime(i64::MAX - 100)));
    // a standing engine does not move on
    assert!(e.can_process(101));
    run(&mut e, Command::Start);
    assert!(e.can_process(100));
    assert!(!e.can_process(101));
    run(&mut e, Command::Pause);
    assert!(e.can_process(101));
    // a recording would start it
    let mut e = engine();
    run(&mut e, Command::SetTime(FrameTime(i64::MAX)));
    e.report_looper(0, Looper { local_mode: LooperMode::Recording, ..looper(0) });
    assert!(!e.can_process(1));
    e.report_looper(0, Looper { local_mode: LooperMode::Recording, deleted: true, ..looper(0) });
    assert!(e.can_process(1));
}

#[test]
fn nexts_go_around() {
    let elsewhere = Looper { parts: parts(false, true, false, false), ..looper(5) };
    let mut e = with_loopers(&[looper(3), elsewhere, Looper { deleted: true, ..looper(6) }, looper(9)]);
    run(&mut e, Command::SelectLooperById(3));
    let mut seen = vec![];
    for _ in 0..3 {
        run(&mut e, Command::SelectNextLooper);
        seen.push(e.active());
    }
    assert_eq!(seen, vec![9, 0, 3]);
}

#[test]
fn ids_stay_distinct() {
    let mut e = with_loopers(&[]);
    for _ in 0..3 {
        match run(&mut e, Command::AddLooper)[..] {
            [Action::CreateLooper { id, .. }] => {
                e.add_looper(looper(id));
            }
            _ => panic!("a looper should be created"),
        }
    }
    e.report_looper(2, Looper { deleted: true, ..looper(2) });
    e.process(16);
    let ids: Vec<u32> = e.loopers().iter().map(|l| l.id).collect();
    assert_eq!(ids, vec![0, 1, 3]);
    match run(&mut e, Command::AddLooper)[..] {
        [Action::CreateLooper { id, .. }] => assert_eq!(id, 4),
        _ => panic!("a looper should be created"),
    }
}

#[test]
fn put_off_command_runs_for_each_target() {
    let times = TriggerTimes { immediate: FrameTime(0), quantized: FrameTime(40) };
    for (target, position, active) in [
        (LooperTarget::Id(1), 1, 0),
        (LooperTarget::Index(1), 1, 1),
        (LooperTarget::Selected, 0, 0),
    ] {
        let mut e = with_loopers(&[looper(1)]);
        run(&mut e, Command::Start);
        let command = Command::Looper(LooperCommand::Record, target);
        e.handle_command(&command, false, times);
        assert_eq!(e.active(), active);
        let due = Trigger { triggered_at: FrameTime(40), command: command.clone() };
        assert_eq!(
            e.process(64).steps,
            vec![
                Step::Io { time: 0, start: 0, end: 40 },
                Step::Run(due),
                Step::Io { time: 40, start: 40, end: 64 },
            ]
        );
        assert_eq!(
            e.handle_command(&command, true, times),
            vec![Action::Looper { position, command: LooperCommand::Record, loop_sync: false }]
        );
        assert_eq!(e.active(), active);
    }
}
