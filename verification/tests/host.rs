use crossbeam_channel::bounded;
use loopers::channel::SendFailure;
use loopers::host::{ClientChangeResponse, JackHost};
use loopers::ports::ClientChange;

#[test]
fn asks_for_ports_once() {
    let (tx, requests) = bounded(10);
    let (answers, rx) = bounded(10);
    let mut host: JackHost<u8> = JackHost::new(tx, rx);
    assert!(matches!(host.add_looper(3), Ok(())));
    assert_eq!(requests.try_recv(), Ok(ClientChange::AddPort(3)));
    assert!(requests.is_empty());

    answers.send(ClientChangeResponse::PortAdded(3, 10, 20)).unwrap();
    assert_eq!(host.output_for_looper(3, true), Some(&mut (10, 20)));
    assert!(matches!(host.add_looper(3), Ok(())));
    assert!(requests.is_empty());

    assert!(matches!(host.remove_looper(3), Ok(())));
    assert_eq!(requests.try_recv(), Ok(ClientChange::RemovePort(3, 10, 20)));
    assert!(matches!(host.remove_looper(3), Ok(())));
    assert!(requests.is_empty());
    assert_eq!(host.output_for_looper(3, true), None);
}

#[test]
fn takes_in_one_answer_at_a_time() {
    let (tx, _requests) = bounded::<ClientChange<u8>>(10);
    let (answers, rx) = bounded(10);
    let mut host: JackHost<u8> = JackHost::new(tx, rx);
    answers.send(ClientChangeResponse::PortAdded(1, 10, 11)).unwrap();
    answers.send(ClientChangeResponse::PortAdded(2, 20, 21)).unwrap();
    // the first answer is about another looper
    assert_eq!(host.output_for_looper(2, true), None);
    // outside of a period the answer is taken in, but there is nothing to write to
    assert_eq!(host.output_for_looper(2, false), None);
    assert_eq!(host.output_for_looper(2, true), Some(&mut (20, 21)));
    host.output_for_looper(1, true).unwrap().0 = 99;
    assert_eq!(host.output_for_looper(1, true), Some(&mut (99, 11)));
}

#[test]
fn an_answer_given_by_hand() {
    let (tx, _requests) = bounded::<ClientChange<u8>>(1);
    let (_answers, rx) = bounded(1);
    let mut host: JackHost<u8> = JackHost::new(tx, rx);
    host.take_response(None);
    assert!(host.looper_ports.ids().is_empty());
    host.take_response(Some(ClientChangeResponse::PortAdded(5, 1, 2)));
    assert_eq!(host.looper_ports.ids(), vec![5]);
}

#[test]
fn a_request_that_is_not_taken_comes_back() {
    let (tx, requests) = bounded(1);
    let (_answers, rx) = bounded(1);
    let mut host: JackHost<u8> = JackHost::new(tx, rx);
    assert!(host.add_looper(1).is_ok());
    match host.add_looper(2) {
        Err(SendFailure::Full(c)) => assert_eq!(c, ClientChange::AddPort(2)),
        _ => panic!("the channel should be full"),
    }
    drop(requests);
    match host.add_looper(3) {
        Err(SendFailure::Disconnected(c)) => assert_eq!(c, ClientChange::AddPort(3)),
        _ => panic!("the channel should be disconnected"),
    }
    host.take_response(Some(ClientChangeResponse::PortAdded(4, 7, 8)));
    match host.remove_looper(4) {
        Err(SendFailure::Disconnected(c)) => {
            assert_eq!(c, ClientChange::RemovePort(4, 7, 8))
        }
        _ => panic!("the channel should be disconnected"),
    }
    assert!(host.looper_ports.ids().is_empty());
}
