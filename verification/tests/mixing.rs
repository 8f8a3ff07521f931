use std::collections::VecDeque;

use klangraum::codec::FrameDecoder;
use klangraum::jitter::{JbState, JitterBuffer};
use klangraum::mixer::mix_bus;
use klangraum::registry::BusRegistry;

fn decoder() -> FrameDecoder {
    minimp3::Decoder::new(std::io::Cursor::new(Vec::new()))
}

fn block(value: i16, len: usize) -> Vec<i16> {
    vec![value; len]
}

fn playing(id: u32, current: Vec<i16>) -> JitterBuffer {
    JitterBuffer {
        connection_id: id,
        current_block: current,
        pending_blocks: VecDeque::new(),
        cursor: 0,
        state: JbState::Playing,
        warmup_depth: 4,
        decoder: decoder(),
    }
}

#[test]
fn mix_bus_sums_every_playing_buffer() {
    let mut bus = vec![playing(1, vec![10, 20]), playing(2, vec![5, 5])];
    assert_eq!(mix_bus(&mut bus), 15);
    assert_eq!(mix_bus(&mut bus), 25);
    // both underrun and loop
    assert_eq!(mix_bus(&mut bus), 15);
}

#[test]
fn mix_bus_of_empty_bus_is_silence() {
    let mut bus: Vec<JitterBuffer> = Vec::new();
    assert_eq!(mix_bus(&mut bus), 0);
}

#[test]
fn warming_buffers_add_nothing_to_the_sum() {
    let mut bus = vec![playing(1, vec![100, 100]), JitterBuffer::new(2, block(50, 4), 4, decoder())];
    assert_eq!(mix_bus(&mut bus), 100);
}

#[test]
fn negative_samples_sum() {
    let mut bus = vec![playing(1, vec![-32768]), playing(2, vec![-32768]), playing(3, vec![7])];
    assert_eq!(mix_bus(&mut bus), -65529);
}

#[test]
fn fill_bus_output_produces_one_period() {
    let mut reg = BusRegistry::new(2, 4);
    reg.assign(playing(1, vec![3, 4]));
    let out = reg.fill_bus_output(0, 5);
    assert_eq!(out, vec![3, 4, 3, 4, 3]);
    // the other bus was not advanced or touched
    let silent = reg.fill_bus_output(1, 3);
    assert_eq!(silent, vec![0, 0, 0]);
}

#[test]
fn end_to_end_two_buses_three_connections() {
    // two output buses; connections 1 and 2 each send one valid frame
    // decoding to a 128-sample constant block; connection 3 only ever sends
    // garbage and never allocates buffer state
    let mut reg = BusRegistry::new(2, 4);
    let one = JitterBuffer::new(1, block(3277, 128), 4, decoder());
    let two = JitterBuffer::new(2, block(6554, 128), 4, decoder());
    assert_eq!(reg.assign(one), 0);
    assert_eq!(reg.assign(two), 1);
    assert_eq!(reg.route_payload(3, vec![0, 1, 2, 3]), None);
    assert_eq!(reg.number_of_listeners(), 2);

    // both connections are still warming: pending depth is 0, since the
    // first block became the current block directly
    assert_eq!(reg.buses[0][0].state, JbState::Warming);
    assert_eq!(reg.buses[1][0].state, JbState::Warming);
    assert_eq!(reg.fill_bus_output(0, 4), vec![0, 0, 0, 0]);

    // connection 1 sends five more frames; its pending depth passes the
    // warm-up threshold and it starts playing on the next sample step
    for _ in 0..5 {
        reg.buses[0][0].enqueue(block(3277, 128));
    }
    let out = reg.fill_bus_output(0, 132);
    // the transition step still contributes silence...
    assert_eq!(out[0], 0);
    // ...then every step emits the constant block value, across the block
    // boundary where the next queued block is popped
    for k in 1..132 {
        assert_eq!(out[k], 3277);
    }
    assert_eq!(reg.buses[0][0].pending_blocks.len(), 4);

    // connection 2 never passed warm-up: its bus stays silent
    assert_eq!(reg.fill_bus_output(1, 3), vec![0, 0, 0]);

    // disconnecting connection 1 reclaims its slot and silences its bus
    reg.remove_conn(1);
    assert_eq!(reg.number_of_listeners(), 1);
    assert_eq!(reg.fill_bus_output(0, 3), vec![0, 0, 0]);
}
