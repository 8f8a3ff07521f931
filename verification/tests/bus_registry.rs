use klangraum::codec::FrameDecoder;
use klangraum::jitter::JitterBuffer;
use klangraum::registry::BusRegistry;

fn decoder() -> FrameDecoder {
    minimp3::Decoder::new(std::io::Cursor::new(Vec::new()))
}

fn block(value: i16, len: usize) -> Vec<i16> {
    vec![value; len]
}

fn buffer(id: u32) -> JitterBuffer {
    JitterBuffer::new(id, block(1, 8), 4, decoder())
}

fn sizes(reg: &BusRegistry) -> Vec<usize> {
    reg.buses.iter().map(|bus| bus.len()).collect()
}

#[test]
fn new_registry_has_empty_buses() {
    let reg = BusRegistry::new(3, 4);
    assert_eq!(sizes(&reg), vec![0, 0, 0]);
    assert_eq!(reg.number_of_listeners(), 0);
}

#[test]
fn next_free_index_breaks_ties_by_lowest_index() {
    let mut reg = BusRegistry::new(3, 4);
    assert_eq!(reg.next_free_index(), 0);
    reg.assign(buffer(1));
    // buses now [1, 0, 0]: the tie between the two empty buses goes to 1
    assert_eq!(reg.next_free_index(), 1);
}

#[test]
fn assign_fills_least_loaded_bus() {
    let mut reg = BusRegistry::new(2, 4);
    assert_eq!(reg.assign(buffer(1)), 0);
    assert_eq!(reg.assign(buffer(2)), 1);
    assert_eq!(reg.assign(buffer(3)), 0);
    assert_eq!(sizes(&reg), vec![2, 1]);
}

#[test]
fn seven_connections_over_three_buses_stay_balanced() {
    // no closures: after every assignment the largest and smallest bus
    // differ by at most one
    let mut reg = BusRegistry::new(3, 4);
    for id in 0..7u32 {
        reg.assign(buffer(id));
        let s = sizes(&reg);
        let max = *s.iter().max().unwrap();
        let min = *s.iter().min().unwrap();
        assert!(max - min <= 1);
    }
    assert_eq!(sizes(&reg), vec![3, 2, 2]);
    assert_eq!(reg.number_of_listeners(), 7);
}

#[test]
fn find_buffer_position_locates_each_connection() {
    let mut reg = BusRegistry::new(2, 4);
    reg.assign(buffer(10));
    reg.assign(buffer(11));
    reg.assign(buffer(12));
    assert_eq!(reg.find_buffer_position(10), Some((0, 0)));
    assert_eq!(reg.find_buffer_position(11), Some((1, 0)));
    assert_eq!(reg.find_buffer_position(12), Some((0, 1)));
    assert_eq!(reg.find_buffer_position(99), None);
}

#[test]
fn remove_reclaims_exactly_one_slot() {
    let mut reg = BusRegistry::new(2, 4);
    reg.assign(buffer(1));
    reg.assign(buffer(2));
    reg.assign(buffer(3));
    assert_eq!(sizes(&reg), vec![2, 1]);
    reg.remove_conn(1);
    // bus 0 shrank by exactly one and connection 1 is gone
    assert_eq!(sizes(&reg), vec![1, 1]);
    assert_eq!(reg.find_buffer_position(1), None);
    assert_eq!(reg.number_of_listeners(), 2);
    // the others are untouched
    assert_eq!(reg.find_buffer_position(3), Some((0, 0)));
    assert_eq!(reg.find_buffer_position(2), Some((1, 0)));
}

#[test]
fn remove_of_unknown_connection_is_a_no_op() {
    let mut reg = BusRegistry::new(2, 4);
    reg.assign(buffer(1));
    reg.remove_conn(77);
    assert_eq!(sizes(&reg), vec![1, 0]);
    assert_eq!(reg.find_buffer_position(1), Some((0, 0)));
}

#[test]
fn route_of_garbage_for_unknown_connection_changes_nothing() {
    // an undecodable first frame never allocates buffer state
    let mut reg = BusRegistry::new(2, 4);
    reg.assign(buffer(1));
    let assigned = reg.route_payload(50, vec![1, 2, 3, 4, 5, 6, 7, 8]);
    assert_eq!(assigned, None);
    assert_eq!(reg.find_buffer_position(50), None);
    assert_eq!(reg.number_of_listeners(), 1);
}

#[test]
fn decode_failure_is_isolated_to_its_connection() {
    let mut reg = BusRegistry::new(2, 4);
    reg.assign(buffer(1));
    reg.assign(buffer(2));
    reg.buses[0][0].enqueue(block(9, 4));

    // connection 1 sends an undecodable frame
    let assigned = reg.route_payload(1, vec![255, 254, 0, 0, 1, 2, 3]);
    assert_eq!(assigned, None);

    // connection 2's buffer is untouched
    assert_eq!(reg.buses[1][0].current_block, block(1, 8));
    assert!(reg.buses[1][0].pending_blocks.is_empty());

    // connection 1's own playback state is unchanged too
    assert_eq!(reg.buses[0][0].current_block, block(1, 8));
    assert_eq!(reg.buses[0][0].pending_blocks.len(), 1);

    // and connection 1's next valid block is processed normally
    reg.buses[0][0].enqueue(block(8, 4));
    assert_eq!(reg.buses[0][0].pending_blocks.len(), 2);
}

#[test]
fn routed_payload_for_assigned_connection_never_reassigns() {
    // the AssignedBus notification is produced only by the call that
    // creates the buffer; every later frame routes without one
    let mut reg = BusRegistry::new(2, 4);
    reg.assign(buffer(7));
    for _ in 0..3 {
        let assigned = reg.route_payload(7, vec![0, 0, 0, 0]);
        assert_eq!(assigned, None);
        assert_eq!(reg.find_buffer_position(7), Some((0, 0)));
    }
}
