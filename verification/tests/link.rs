use pixel_walker::crc::{crc8, crc8_update};
use pixel_walker::frame::{encode_frame, Receiver, RxEvent, RxState, END_BYTE, START_BYTE};
use pixel_walker::uart_buffer::UartBuffer;

fn feed(rx: &mut Receiver, bytes: &[u8]) -> Vec<RxEvent> {
    let mut out = Vec::new();
    for &b in bytes {
        assert!(rx.accepts(b));
        out.push(rx.step(b));
    }
    out
}

#[test]
fn crc8_check_value() {
    assert_eq!(crc8(b"123456789"), 0xF4);
}

#[test]
fn crc8_of_empty_is_zero() {
    assert_eq!(crc8(&[]), 0);
}

#[test]
fn crc8_update_single_bytes() {
    assert_eq!(crc8_update(0, 0x01), 0x07);
    assert_eq!(crc8_update(0, 0x80), 0x89);
    assert_eq!(crc8_update(0x07, 0x07), 0x00);
}

#[test]
fn crc8_is_running_update() {
    let data = [3u8, 0, 1, 9, 0xAB];
    let mut c = 0u8;
    for &b in &data {
        c = crc8_update(c, b);
    }
    assert_eq!(c, crc8(&data));
}

#[test]
fn crc8_detects_each_single_byte_change() {
    let data = [2u8, 0, 1];
    let good = crc8(&data);
    for i in 0..data.len() {
        for b in 0..=255u8 {
            if b != data[i] {
                let mut bad = data;
                bad[i] = b;
                assert_ne!(crc8(&bad), good);
            }
        }
    }
}

#[test]
fn encode_frame_layout() {
    let payload = [0u8, 1, 3];
    let frame = encode_frame(&payload);
    let crc = crc8(&[3, 0, 1, 3]);
    assert_eq!(frame, vec![START_BYTE, 3, 0, 1, 3, crc, END_BYTE]);
}

#[test]
fn frame_roundtrip() {
    let payload = [0u8, 1, 2];
    let frame = encode_frame(&payload);
    let mut rx = Receiver::new();
    let events = feed(&mut rx, &frame);
    let n = events.len();
    for e in &events[..n - 1] {
        assert_eq!(*e, RxEvent::Idle);
    }
    assert_eq!(events[n - 1], RxEvent::Frame(payload.to_vec()));
    assert_eq!(rx.state(), RxState::WaitStart);
}

#[test]
fn frame_after_noise_and_interrupted_frame() {
    let payload = [1u8, 0];
    let frame = encode_frame(&payload);
    let mut rx = Receiver::new();
    feed(&mut rx, &[0x10, 0x20, START_BYTE, 5, 9, 9]);
    assert_eq!(rx.state(), RxState::ReadPayload);
    let events = feed(&mut rx, &frame);
    assert_eq!(*events.last().unwrap(), RxEvent::Frame(payload.to_vec()));
}

#[test]
fn corrupted_byte_is_reported() {
    let payload = [1u8, 0];
    let mut frame = encode_frame(&payload);
    frame[3] = 7;
    let mut rx = Receiver::new();
    let events = feed(&mut rx, &frame);
    assert_eq!(*events.last().unwrap(), RxEvent::CrcMismatch);
    assert_eq!(rx.state(), RxState::WaitStart);
}

#[test]
fn dropped_byte_is_reported() {
    let payload = [1u8, 0];
    let mut frame = encode_frame(&payload);
    frame.remove(2);
    let mut rx = Receiver::new();
    let events = feed(&mut rx, &frame);
    assert_eq!(*events.last().unwrap(), RxEvent::MissingByte);
    assert_eq!(rx.state(), RxState::WaitStart);
}

#[test]
fn too_long_length_is_ignored() {
    let mut rx = Receiver::new();
    feed(&mut rx, &[START_BYTE, 33]);
    assert_eq!(rx.state(), RxState::WaitStart);
}

#[test]
fn start_byte_as_length_drops_frame() {
    let mut rx = Receiver::new();
    feed(&mut rx, &[START_BYTE]);
    assert_eq!(rx.state(), RxState::WaitLen);
    feed(&mut rx, &[START_BYTE]);
    assert_eq!(rx.state(), RxState::WaitStart);
}

#[test]
fn wrong_end_byte_drops_frame_silently() {
    let payload = [4u8];
    let mut frame = encode_frame(&payload);
    let last = frame.len() - 1;
    frame[last] = 0x00;
    let mut rx = Receiver::new();
    let events = feed(&mut rx, &frame);
    assert!(events.iter().all(|e| *e == RxEvent::Idle));
    assert_eq!(rx.state(), RxState::WaitStart);
}

#[test]
fn zero_length_frame_reads_until_buffer_full() {
    let mut rx = Receiver::new();
    feed(&mut rx, &[START_BYTE, 0]);
    for _ in 0..32 {
        assert!(rx.accepts(1));
        assert_eq!(rx.step(1), RxEvent::Idle);
    }
    assert!(!rx.accepts(1));
    assert!(rx.accepts(START_BYTE));
}

#[test]
fn uart_buffer_fifo() {
    let mut b = UartBuffer::new();
    assert_eq!(b.pop(), None);
    assert_eq!(b.push(1), Ok(()));
    assert_eq!(b.push(2), Ok(()));
    assert_eq!(b.pop(), Some(1));
    assert_eq!(b.push(3), Ok(()));
    assert_eq!(b.pop(), Some(2));
    assert_eq!(b.pop(), Some(3));
    assert_eq!(b.pop(), None);
}

#[test]
fn uart_buffer_holds_127_bytes() {
    let mut b = UartBuffer::new();
    for i in 0..127u8 {
        assert_eq!(b.push(i), Ok(()));
    }
    assert_eq!(b.push(200), Err(()));
    for i in 0..127u8 {
        assert_eq!(b.pop(), Some(i));
    }
    assert_eq!(b.pop(), None);
}

#[test]
fn uart_buffer_wraps_around() {
    let mut b = UartBuffer::new();
    for round in 0..5u8 {
        for i in 0..100u8 {
            assert_eq!(b.push(i.wrapping_add(round)), Ok(()));
        }
        for i in 0..100u8 {
            assert_eq!(b.pop(), Some(i.wrapping_add(round)));
        }
    }
    assert_eq!(b.pop(), None);
}

#[test]
fn frame_whose_crc_is_the_end_byte_reads_as_missing_byte() {
    let payload = [0xC2u8];
    let frame = encode_frame(&payload);
    assert_eq!(frame[3], END_BYTE);
    let mut rx = Receiver::new();
    let events = feed(&mut rx, &frame);
    assert_eq!(events[3], RxEvent::MissingByte);
    assert_eq!(events[4], RxEvent::Idle);
}

#[test]
fn payload_holding_start_byte_restarts_frame() {
    let payload = [0u8, 1, START_BYTE];
    let frame = encode_frame(&payload);
    let mut rx = Receiver::new();
    let events = feed(&mut rx, &frame);
    assert!(events.iter().all(|e| *e == RxEvent::Idle));
}
