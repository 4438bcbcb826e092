use loopers::api::{Command, FrameTime, LooperCommand, LooperTarget, Part, PartSet};

#[test]
fn parts_turn_over() {
    let all = [Part::A, Part::B, Part::C, Part::D];
    for (i, p) in all.into_iter().enumerate() {
        assert_eq!(p.index() as usize, i);
        assert_eq!(p.next(), all[(i + 1) % 4]);
        assert_eq!(p.previous(), all[(i + 3) % 4]);
        assert_eq!(p.next().previous(), p);
    }
}

#[test]
fn part_sets() {
    let s = PartSet { a: true, b: false, c: true, d: false };
    assert!(s.contains(Part::A) && s.contains(Part::C));
    assert!(!s.contains(Part::B) && !s.contains(Part::D));
}

#[test]
fn commands_copy_exactly() {
    let commands = vec![
        Command::Looper(LooperCommand::SetPan(3), LooperTarget::Index(2)),
        Command::SetTime(FrameTime(-4)),
        Command::SaveSession("a path".to_string()),
        Command::LoadSession("another".to_string()),
        Command::SetTimeSignature(7, 8),
        Command::GoToPart(Part::D),
        Command::ToggleMode,
    ];
    for c in &commands {
        assert_eq!(&c.clone(), c);
    }
}
