use loopers::api::{EngineMode, EngineState, QuantizationMode};
use loopers::channel::SendFailure;
use loopers::midi::{
    log_result, EngineSnapshotField, LogMessage, MidiEngineStateSnapshot, MidiEvent,
    MidiOutCommand, MidiOutSender, SendLogError,
};

fn snapshot(active_looper: u8) -> MidiEngineStateSnapshot {
    MidiEngineStateSnapshot {
        engine_state: EngineState::Active,
        engine_mode: EngineMode::Play,
        sync_mode: QuantizationMode::Beat,
        metronome: 7,
        active_looper,
        part: 1,
        looper_count: 2,
    }
}

#[test]
fn field_names() {
    let names = [
        ("EngineState", EngineSnapshotField::EngineState),
        ("EngineMode", EngineSnapshotField::EngineMode),
        ("QuantizationMode", EngineSnapshotField::QuantizationMode),
        ("Metronome", EngineSnapshotField::Metronome),
        ("ActiveLooper", EngineSnapshotField::ActiveLooper),
        ("Part", EngineSnapshotField::Part),
        ("LooperCount", EngineSnapshotField::LooperCount),
        ("LooperMode", EngineSnapshotField::LooperMode),
        ("enginestate", EngineSnapshotField::Unknown),
        ("", EngineSnapshotField::Unknown),
    ];
    for (name, field) in names {
        assert_eq!(EngineSnapshotField::from_str(name), Ok(field));
    }
}

#[test]
fn reads_controller_changes() {
    assert_eq!(
        MidiEvent::from_bytes(&[0xb5, 22, 127]),
        Some(MidiEvent::ControllerChange { channel: 5, controller: 22, data: 127 })
    );
    assert_eq!(MidiEvent::from_bytes(&[0xb5, 22]), None);
    assert_eq!(MidiEvent::from_bytes(&[0xb5, 22, 127, 0]), None);
    assert_eq!(MidiEvent::from_bytes(&[0x95, 22, 127]), None);
    assert_eq!(MidiEvent::from_bytes(&[]), None);
}

#[test]
fn writes_controller_changes() {
    let bytes = |channel| MidiEvent::to_bytes(&MidiEvent::ControllerChange { channel, controller: 22, data: 127 });
    assert_eq!(bytes(1), [0xb0, 22, 127]);
    assert_eq!(bytes(16), [0xbf, 22, 127]);
    assert_eq!(bytes(17), [0xb0, 22, 127]);
}

#[test]
fn controller_change_reads_back() {
    for channel in 1..=16u8 {
        let bytes = MidiEvent::to_bytes(&MidiEvent::ControllerChange { channel, controller: 3, data: 4 });
        assert_eq!(
            MidiEvent::from_bytes(&bytes),
            Some(MidiEvent::ControllerChange { channel: channel - 1, controller: 3, data: 4 })
        );
    }
}

#[test]
fn event_writes_back() {
    let bytes = [0xb7, 1, 2];
    match MidiEvent::from_bytes(&bytes) {
        Some(MidiEvent::ControllerChange { channel, controller, data }) => {
            let e = MidiEvent::ControllerChange { channel: channel + 1, controller, data };
            assert_eq!(MidiEvent::to_bytes(&e), bytes);
        }
        None => panic!("not an event"),
    }
}

#[test]
fn message_holds_what_was_written() {
    let mut m = LogMessage::new();
    assert_eq!(m.as_str(), "");
    assert_eq!(m.write(b"hello ").unwrap(), 6);
    assert_eq!(m.write("w\u{f6}rld".as_bytes()).unwrap(), 6);
    assert_eq!(m.as_str(), "hello w\u{f6}rld");
    m.flush().unwrap();
    assert_eq!(m.as_str(), "hello w\u{f6}rld");
}

#[test]
fn message_takes_what_fits() {
    let mut m = LogMessage::error();
    assert_eq!(m.write(&[b'a'; 250]).unwrap(), 250);
    assert_eq!(m.write(&[b'b'; 6]).unwrap(), 6);
    let copy = m.clone();
    assert_eq!(m.write(&[b'c'; 10]).unwrap(), 0);
    assert_eq!(copy.as_str().len(), 256);
    assert!(copy.as_str().ends_with("abbbbbb"));

    let mut m = LogMessage::new();
    assert_eq!(m.write(&[b'a'; 300]).unwrap(), 256);
}

#[test]
fn broken_text_is_replaced() {
    let mut m = LogMessage::new();
    m.write(&[b'a', 0xff, b'b']).unwrap();
    assert_eq!(m.as_str(), "a\u{fffd}b");
}

#[test]
fn sends_updates_until_the_queue_is_full() {
    let (mut tx, rx) = MidiOutSender::new();
    for i in 0..100 {
        assert!(matches!(tx.send_update(MidiOutCommand::StateSnapshot(snapshot(i))), Ok(())));
    }
    match tx.send_update(MidiOutCommand::StateSnapshot(snapshot(100))) {
        Err(SendFailure::Full(c)) => assert_eq!(c, MidiOutCommand::StateSnapshot(snapshot(100))),
        _ => panic!("the queue should be full"),
    }
    for i in 0..100 {
        assert_eq!(rx.cmd_channel.try_recv(), Ok(MidiOutCommand::StateSnapshot(snapshot(i))));
    }
    assert!(rx.cmd_channel.try_recv().is_err());
}

#[test]
fn a_dropped_receiver_disconnects() {
    let (mut tx, rx) = MidiOutSender::new();
    drop(rx);
    match tx.send_update(MidiOutCommand::StateSnapshot(snapshot(1))) {
        Err(SendFailure::Disconnected(c)) => {
            assert_eq!(c, MidiOutCommand::StateSnapshot(snapshot(1)))
        }
        _ => panic!("the queue should be disconnected"),
    }
    let mut m = LogMessage::new();
    m.write(b"lost").unwrap();
    match tx.send_log(m) {
        Err(e) => {
            assert_eq!(e.message(), "queue disconnected");
            match e {
                SendLogError::BrokenPipe(m) => assert_eq!(m.as_str(), "lost"),
                _ => panic!("the pipe should be broken"),
            }
        }
        Ok(_) => panic!("the queue should be disconnected"),
    }
}

#[test]
fn a_disconnected_sender_is_content() {
    let mut tx = MidiOutSender::disconnected();
    assert!(matches!(tx.send_update(MidiOutCommand::StateSnapshot(snapshot(1))), Ok(())));
    assert!(matches!(tx.send_log(LogMessage::new()), Ok(())));
    assert_eq!(tx.write(b"abc").unwrap(), 3);
    assert!(tx.flush().is_ok());
}

#[test]
fn logs_are_written_and_flushed() {
    let (mut tx, rx) = MidiOutSender::new();
    assert_eq!(tx.write(b"one ").unwrap(), 4);
    assert_eq!(tx.write(b"two").unwrap(), 3);
    assert!(tx.flush().is_ok());
    assert_eq!(tx.write(b"three").unwrap(), 5);
    assert!(tx.flush().is_ok());
    assert_eq!(rx.log_channel.try_recv().unwrap().as_str(), "one two");
    assert_eq!(rx.log_channel.try_recv().unwrap().as_str(), "three");
    assert!(rx.log_channel.try_recv().is_err());
}

#[test]
fn the_log_queue_is_shorter() {
    let (mut tx, rx) = MidiOutSender::new();
    for _ in 0..10 {
        assert!(matches!(tx.send_log(LogMessage::new()), Ok(())));
    }
    tx.write(b"too much").unwrap();
    match tx.flush() {
        Err(e) => {
            assert_eq!(e.message(), "queue full");
            match e {
                SendLogError::WouldBlock(m) => assert_eq!(m.as_str(), "too much"),
                _ => panic!("the queue should be full"),
            }
        }
        Ok(_) => panic!("the queue should be full"),
    }
    assert_eq!(rx.log_channel.len(), 10);
}

#[test]
fn a_clone_reaches_the_same_receiver() {
    let (mut tx, rx) = MidiOutSender::new();
    tx.write(b"pending").unwrap();
    let mut other = tx.clone();
    assert!(other.send_update(MidiOutCommand::StateSnapshot(snapshot(9))).is_ok());
    assert!(other.flush().is_ok());
    assert_eq!(rx.cmd_channel.try_recv(), Ok(MidiOutCommand::StateSnapshot(snapshot(9))));
    assert_eq!(rx.log_channel.try_recv().unwrap().as_str(), "pending");
}

#[test]
fn outcomes_of_a_send() {
    assert!(log_result(Ok(())).is_ok());
    assert!(matches!(log_result(Err(SendFailure::Full(LogMessage::new()))), Err(SendLogError::WouldBlock(_))));
    assert!(matches!(
        log_result(Err(SendFailure::Disconnected(LogMessage::new()))),
        Err(SendLogError::BrokenPipe(_))
    ));
}

#[test]
fn each_send_goes_out_once() {
    let (mut tx, rx) = MidiOutSender::new();
    assert!(tx.send_update(MidiOutCommand::StateSnapshot(snapshot(1))).is_ok());
    assert!(tx.send_log(LogMessage::new()).is_ok());
    assert_eq!((rx.cmd_channel.len(), rx.log_channel.len()), (1, 1));
    assert!(tx.flush().is_ok());
    assert_eq!((rx.cmd_channel.len(), rx.log_channel.len()), (1, 2));
}

#[test]
fn message_reads_back() {
    let text = "a t\u{e4}st \u{1f3b8}";
    let mut m = LogMessage::new();
    for b in text.as_bytes() {
        assert_eq!(m.write(&[*b]).unwrap(), 1);
    }
    assert!(m.is_complete());
    assert_eq!(m.as_str(), text);
    assert!(m.can_count(usize::MAX - text.len()));
    assert!(!m.can_count(usize::MAX));
    // what does not fit is cut off
    assert_eq!(m.write(&[b'x'; 256]).unwrap(), 256 - text.len());
    assert!(!m.is_complete());
    let mut sender = MidiOutSender::disconnected();
    assert!(sender.can_count(usize::MAX));
    sender.write(b"abc").unwrap();
    assert!(!sender.can_count(usize::MAX - 2));
    assert!(sender.flush().is_ok());
    assert!(sender.can_count(usize::MAX));
}
