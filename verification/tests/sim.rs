use byte_oracle::probe_buffer::ProbeBuffer;
use byte_oracle::scan::SecretRange;
use byte_oracle::sim::{SimulatedMachine, HIT_CYCLES, MISS_CYCLES};

const BASE: usize = 0x5000_0000;
const ORIGIN: usize = 0x40_1000;
const PAPA: &[u8] = b"papa, can you hear me?";

fn buffer() -> ProbeBuffer {
    ProbeBuffer::new(BASE).unwrap()
}

#[test]
fn hit_is_faster_than_miss() {
    assert!(HIT_CYCLES < MISS_CYCLES);
    assert!(HIT_CYCLES < 100);
    assert!(MISS_CYCLES >= 100);
}

#[test]
fn calibration_of_every_slot() {
    let buffer = buffer();
    let mut machine = SimulatedMachine::new(ORIGIN, PAPA.to_vec());
    for value in 0u8..=255 {
        let address = buffer.slot(value);
        machine.flush(address);
        assert!(!machine.is_cached(address));
        assert_eq!(machine.probe(address), MISS_CYCLES);
        assert!(machine.is_cached(address));
        assert_eq!(machine.probe(address), HIT_CYCLES);
        assert_eq!(machine.probe(address), HIT_CYCLES);
        machine.flush(address);
        assert_eq!(machine.probe(address), MISS_CYCLES);
    }
}

#[test]
fn cache_works_by_lines() {
    let mut machine = SimulatedMachine::new(ORIGIN, Vec::new());
    assert_eq!(machine.probe(0x1000), MISS_CYCLES);
    assert_eq!(machine.probe(0x103F), HIT_CYCLES);
    assert_eq!(machine.probe(0x1040), MISS_CYCLES);
    machine.flush(0x1001);
    assert!(!machine.is_cached(0x1000));
    assert!(machine.is_cached(0x1040));
}

#[test]
fn machine_reads_its_memory_only() {
    let machine = SimulatedMachine::new(ORIGIN, PAPA.to_vec());
    assert_eq!(machine.read(ORIGIN), Some(b'p'));
    assert_eq!(machine.read(ORIGIN + 21), Some(b'?'));
    assert_eq!(machine.read(ORIGIN + 22), None);
    assert_eq!(machine.read(ORIGIN - 1), None);
    assert_eq!(machine.read(0), None);
    let high = SimulatedMachine::new(usize::MAX - 1, vec![1, 2, 3, 4]);
    assert_eq!(high.read(usize::MAX - 1), Some(1));
    assert_eq!(high.read(usize::MAX), Some(2));
}

#[test]
fn speculative_read_brings_in_the_slot_of_the_byte() {
    let buffer = buffer();
    let mut machine = SimulatedMachine::new(ORIGIN, PAPA.to_vec());
    machine.speculate(ORIGIN + 4, BASE);
    assert!(machine.is_cached(buffer.slot(b',')));
    assert!(!machine.is_cached(buffer.slot(b'p')));
    machine.speculate(ORIGIN + 100, BASE);
    assert!(!machine.is_cached(buffer.slot(0)));
}

#[test]
fn one_round_recovers_every_byte_value() {
    let buffer = buffer();
    let memory: Vec<u8> = (0u8..=255).collect();
    let mut machine = SimulatedMachine::new(ORIGIN, memory);
    for value in 0u8..=255 {
        assert_eq!(machine.guess_byte_once(&buffer, ORIGIN + value as usize), value);
    }
    for value in (0u8..=255).rev() {
        assert_eq!(machine.guess_byte_once(&buffer, ORIGIN + value as usize), value);
    }
}

#[test]
fn one_round_on_unmapped_memory_guesses_zero() {
    let buffer = buffer();
    let mut machine = SimulatedMachine::new(ORIGIN, PAPA.to_vec());
    assert_eq!(machine.guess_byte_once(&buffer, ORIGIN + 22), 0);
    assert_eq!(machine.guess_byte_once(&buffer, 0), 0);
}

#[test]
fn vote_recovers_the_byte() {
    let buffer = buffer();
    let mut machine = SimulatedMachine::new(ORIGIN, PAPA.to_vec());
    assert_eq!(machine.guess_byte(&buffer, ORIGIN, 5), b'p');
    assert_eq!(machine.guess_byte(&buffer, ORIGIN + 1, 1), b'a');
    assert_eq!(machine.guess_byte(&buffer, ORIGIN + 21, 9), b'?');
    assert_eq!(machine.guess_byte(&buffer, ORIGIN + 21, 0), 0);
}

#[test]
fn scan_renders_the_demonstration_string() {
    let buffer = buffer();
    let mut machine = SimulatedMachine::new(ORIGIN, PAPA.to_vec());
    let range = SecretRange::new(ORIGIN, PAPA.len()).unwrap();
    let lines = machine.scan(&buffer, &range, 5);
    assert_eq!(
        lines,
        vec![
            "0x0000000000401000 | 706170612C206361 6E20796F75206865 6172206D653F                      | papa, can you hear me?"
        ]
    );
    assert_eq!(Some(lines), range.dump(PAPA));
}

#[test]
fn scan_is_idempotent() {
    let buffer = buffer();
    let memory: Vec<u8> = (0u16..100).map(|i| (i * 37 % 256) as u8).collect();
    let mut machine = SimulatedMachine::new(ORIGIN, memory.clone());
    let range = SecretRange::new(ORIGIN, memory.len()).unwrap();
    let first = machine.scan(&buffer, &range, 3);
    let second = machine.scan(&buffer, &range, 3);
    let third = machine.scan(&buffer, &range, 1);
    assert_eq!(first.len(), 4);
    assert_eq!(first, second);
    assert_eq!(first, third);
    assert_eq!(Some(first), range.dump(&memory));
    let mut fresh = SimulatedMachine::new(ORIGIN, memory.clone());
    fresh.probe(buffer.slot(0));
    fresh.probe(buffer.slot(200));
    assert_eq!(fresh.scan(&buffer, &range, 3), second);
}

#[test]
fn scan_past_the_memory_recovers_zeros() {
    let buffer = buffer();
    let mut machine = SimulatedMachine::new(ORIGIN, b"ab".to_vec());
    let range = SecretRange::new(ORIGIN, 4).unwrap();
    let lines = machine.scan(&buffer, &range, 5);
    assert_eq!(Some(lines), range.dump(&[b'a', b'b', 0, 0]));
}

#[test]
fn scan_without_rounds_recovers_zeros() {
    let buffer = buffer();
    let mut machine = SimulatedMachine::new(ORIGIN, b"ab".to_vec());
    let range = SecretRange::new(ORIGIN, 2).unwrap();
    let lines = machine.scan(&buffer, &range, 0);
    assert_eq!(Some(lines), range.dump(&[0, 0]));
}
