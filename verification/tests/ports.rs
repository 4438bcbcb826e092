use loopers::ports::{port_name, ClientChange, LooperPorts};

#[test]
fn opens_ports_once() {
    let mut p: LooperPorts<&str> = LooperPorts::new();
    assert_eq!(p.add_looper(3), Some(ClientChange::AddPort(3)));
    p.port_added(3, "l", "r");
    assert_eq!(p.add_looper(3), None);
    assert_eq!(p.add_looper(4), Some(ClientChange::AddPort(4)));
}

#[test]
fn closing_undoes_opening() {
    let mut p: LooperPorts<&str> = LooperPorts::new();
    p.port_added(3, "l", "r");
    p.port_added(4, "a", "b");
    assert_eq!(p.remove_looper(3), Some(ClientChange::RemovePort(3, "l", "r")));
    assert_eq!(p.remove_looper(3), None);
    assert_eq!(p.add_looper(3), Some(ClientChange::AddPort(3)));
    assert_eq!(p.ids(), vec![4]);
    assert_eq!(p.output_for_looper(4), Some(&mut ("a", "b")));
    assert_eq!(p.output_for_looper(3), None);
}

#[test]
fn ports_can_be_written_to() {
    let mut p: LooperPorts<u8> = LooperPorts::new();
    p.port_added(1, 10, 20);
    p.port_added(2, 30, 40);
    p.output_for_looper(1).unwrap().1 = 99;
    assert_eq!(p.remove_looper(1), Some(ClientChange::RemovePort(1, 10, 99)));
    assert_eq!(p.remove_looper(2), Some(ClientChange::RemovePort(2, 30, 40)));
    let mut ids = p.ids();
    ids.sort();
    assert!(ids.is_empty());
}

#[test]
fn port_names_differ() {
    assert_eq!(port_name(0, false), "loop0_out_l");
    assert_eq!(port_name(7, true), "loop7_out_r");
    assert_eq!(port_name(10, true), "loop10_out_r");
    assert_eq!(port_name(4294967295, false), "loop4294967295_out_l");
    for id in [0, 9, 10, 99, 100, 12345678] {
        assert_eq!(port_name(id, false), format!("loop{}_out_l", id));
    }
}
