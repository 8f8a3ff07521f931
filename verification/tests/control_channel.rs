use klangraum::codec::FrameDecoder;
use klangraum::control::{drain_ingress, ClientUpdate, MsgToClient};
use klangraum::jitter::JitterBuffer;
use klangraum::registry::BusRegistry;

fn decoder() -> FrameDecoder {
    minimp3::Decoder::new(std::io::Cursor::new(Vec::new()))
}

fn buffer(id: u32) -> JitterBuffer {
    JitterBuffer::new(id, vec![1; 8], 4, decoder())
}

#[test]
fn drain_handles_closed_events() {
    let (tx_in, rx_in) = crossbeam_channel::bounded::<ClientUpdate>(100);
    let (tx_out, _rx_out) = crossbeam_channel::bounded::<MsgToClient>(100);
    let mut reg = BusRegistry::new(2, 4);
    reg.assign(buffer(1));
    reg.assign(buffer(2));

    tx_in.send(ClientUpdate::Closed { connection_id: 1 }).unwrap();
    let alive = drain_ingress(&mut reg, &rx_in, &tx_out, 100);
    assert!(alive);
    assert_eq!(reg.find_buffer_position(1), None);
    assert_eq!(reg.number_of_listeners(), 1);
}

#[test]
fn drain_drops_undecodable_frames_without_assigning() {
    let (tx_in, rx_in) = crossbeam_channel::bounded::<ClientUpdate>(100);
    let (tx_out, rx_out) = crossbeam_channel::bounded::<MsgToClient>(100);
    let mut reg = BusRegistry::new(2, 4);

    tx_in
        .send(ClientUpdate::NewBuffer { connection_id: 5, buffer: vec![9, 9, 9, 9] })
        .unwrap();
    let alive = drain_ingress(&mut reg, &rx_in, &tx_out, 100);
    assert!(alive);
    assert_eq!(reg.number_of_listeners(), 0);
    assert!(rx_out.try_recv().is_err());
}

#[test]
fn drain_reports_a_disconnected_ingress() {
    let (tx_in, rx_in) = crossbeam_channel::bounded::<ClientUpdate>(100);
    let (tx_out, _rx_out) = crossbeam_channel::bounded::<MsgToClient>(100);
    let mut reg = BusRegistry::new(1, 4);
    drop(tx_in);
    let alive = drain_ingress(&mut reg, &rx_in, &tx_out, 100);
    assert!(!alive);
}

#[test]
fn drain_stops_at_its_event_budget() {
    let (tx_in, rx_in) = crossbeam_channel::bounded::<ClientUpdate>(100);
    let (tx_out, _rx_out) = crossbeam_channel::bounded::<MsgToClient>(100);
    let mut reg = BusRegistry::new(2, 4);
    reg.assign(buffer(1));
    reg.assign(buffer(2));

    tx_in.send(ClientUpdate::Closed { connection_id: 1 }).unwrap();
    tx_in.send(ClientUpdate::Closed { connection_id: 2 }).unwrap();
    let alive = drain_ingress(&mut reg, &rx_in, &tx_out, 1);
    assert!(alive);
    // only the first event fit in the budget; the second waits for the
    // next callback period
    assert_eq!(reg.number_of_listeners(), 1);
    let alive = drain_ingress(&mut reg, &rx_in, &tx_out, 1);
    assert!(alive);
    assert_eq!(reg.number_of_listeners(), 0);
}
