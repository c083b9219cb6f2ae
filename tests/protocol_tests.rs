use atmega128_firmware::packet::{build_frame, calculate_checksum, Command, Packet, ProtocolError};
use atmega128_firmware::protocol::Protocol;
use atmega128_firmware::transport::Transport;
use atmega128_firmware::uart::{Buffer, Uart, BUFFER_SIZE};

#[test]
fn checksum_is_complement_of_sum() {
    assert_eq!(calculate_checksum(&[1, 2, 3]), 249);
    assert_eq!(calculate_checksum(&[]), 255);
    assert_eq!(calculate_checksum(&[0xFF, 0x01]), 255);
    assert_eq!(calculate_checksum(&[0x80, 0x81]), !0x01u8);
}

#[test]
fn create_builds_ping_frame() {
    let mut p = Packet::new();
    let frame = p.create(Command::Ping, &[]).unwrap();
    assert_eq!(frame, vec![0x55, 0xAA, 0x01, 0x00, 0xFF, 0x0A]);
}

#[test]
fn create_rejects_oversized_payload() {
    let mut p = Packet::new();
    let data = vec![0u8; 251];
    assert_eq!(p.create(Command::GetData, &data), Err(ProtocolError::BufferOverflow));
    let ok = vec![7u8; 250];
    assert_eq!(p.create(Command::GetData, &ok).unwrap().len(), 256);
}

#[test]
fn parse_round_trip() {
    let frame = build_frame(Command::SetConfig.code(), &[9, 8, 7]);
    let mut p = Packet::new();
    assert_eq!(p.parse(&frame), Ok(Command::SetConfig));
    assert_eq!(p.get_data(), vec![9, 8, 7]);
}

#[test]
fn parse_errors() {
    let mut p = Packet::new();
    assert_eq!(p.get_data(), Vec::<u8>::new());
    assert_eq!(p.parse(&[0x55, 0xAA, 1, 0, 0xFF]), Err(ProtocolError::InvalidPacket));
    assert_eq!(p.parse(&[0x54, 0xAA, 1, 0, 0xFF, 0x0A]), Err(ProtocolError::InvalidPacket));
    assert_eq!(p.parse(&[0x55, 0xAA, 1, 1, 0xFF, 0x0A]), Err(ProtocolError::InvalidPacket));
    assert_eq!(p.parse(&[0x55, 0xAA, 1, 0, 0xFF, 0x0B]), Err(ProtocolError::InvalidPacket));
    assert_eq!(p.parse(&[0x55, 0xAA, 1, 0, 0xFE, 0x0A]), Err(ProtocolError::InvalidChecksum));
    let unknown = build_frame(0x09, &[1]);
    assert_eq!(p.parse(&unknown), Err(ProtocolError::InvalidCommand));
    assert_eq!(p.get_data(), vec![1]);
    assert_eq!(p.parse(&[0x55, 0xAA, 1, 0, 0xFF, 0x0A]), Ok(Command::Ping));
    assert_eq!(p.get_data(), Vec::<u8>::new());
}

#[test]
fn command_codes() {
    assert_eq!(Command::Ping.code(), 0x01);
    assert_eq!(Command::Debug.code(), 0x07);
    assert_eq!(Command::from_code(0x05), Some(Command::Reset));
    assert_eq!(Command::from_code(0x00), None);
}

#[test]
fn ring_buffer_holds_one_less_than_its_slots() {
    let mut b = Buffer::new();
    for i in 0..(BUFFER_SIZE - 1) {
        assert!(b.write(i as u8));
    }
    assert!(!b.write(200));
    assert_eq!(b.len(), BUFFER_SIZE - 1);
    for i in 0..(BUFFER_SIZE - 1) {
        assert_eq!(b.read(), Some(i as u8));
    }
    assert_eq!(b.read(), None);
    assert!(b.write(5));
    assert_eq!(b.read(), Some(5));
}

#[test]
fn uart_write_str_queues_bytes() {
    let mut u = Uart::new();
    assert!(u.is_tx_ready());
    assert!(!u.is_rx_ready());
    u.write_str("hi");
    assert_eq!(u.next_tx_byte(), Some(b'h'));
    assert_eq!(u.next_tx_byte(), Some(b'i'));
    assert_eq!(u.next_tx_byte(), None);
    assert!(u.receive(0x42));
    assert!(u.is_rx_ready());
    assert_eq!(u.read_byte(), Some(0x42));
    assert_eq!(u.read_byte(), None);
}

#[test]
fn protocol_process_returns_line() {
    let mut p = Protocol::new(Uart::new());
    for b in [0x55u8, 0xAA, 0x01, 0x00] {
        assert!(p.receive(b));
    }
    assert_eq!(p.process(), Ok(None));
    assert!(p.receive(0xFF));
    assert!(p.receive(0x0A));
    assert!(p.receive(0x33));
    assert_eq!(p.process(), Ok(Some(vec![0x55, 0xAA, 0x01, 0x00, 0xFF, 0x0A])));
    assert_eq!(p.process(), Ok(None));
    assert!(p.receive(0x0A));
    assert_eq!(p.process(), Ok(Some(vec![0x33, 0x0A])));
}

#[test]
fn protocol_process_overflow() {
    let mut p = Protocol::new(Uart::new());
    let mut fed = 0;
    while fed < 256 {
        let mut n = 0;
        while n < 16 && fed < 256 {
            assert!(p.receive(1));
            n += 1;
            fed += 1;
        }
        assert_eq!(p.process(), Ok(None));
    }
    assert!(p.receive(2));
    assert!(p.receive(0x0A));
    assert_eq!(p.process(), Err(ProtocolError::BufferOverflow));
    assert_eq!(p.process(), Ok(Some(vec![0x0A])));
}

#[test]
fn protocol_send_ping_and_status() {
    let mut p = Protocol::new(Uart::new());
    assert_eq!(p.send_ping(), Ok(()));
    let mut sent = Vec::new();
    while let Some(b) = p.next_tx_byte() {
        sent.push(b);
    }
    assert_eq!(sent, vec![0x55, 0xAA, 0x01, 0x00, 0xFF, 0x0A]);
    assert_eq!(p.send_status(3), Ok(()));
    let mut sent = Vec::new();
    while let Some(b) = p.next_tx_byte() {
        sent.push(b);
    }
    assert_eq!(sent, build_frame(0x02, &[3]));
    assert_eq!(p.send_data(&vec![0u8; 251]), Err(ProtocolError::BufferOverflow));
    assert_eq!(p.next_tx_byte(), None);
    assert_eq!(p.send_data(&[1, 2]), Ok(()));
    assert_eq!(p.next_tx_byte(), Some(0x55));
    assert_eq!(p.calculate_checksum(&[1, 2, 3]), 249);
    assert!(p.verify_checksum(&[1, 2, 3], 249));
    assert!(!p.verify_checksum(&[1, 2, 3], 248));
}

#[test]
fn transport_write_flushes_to_port() {
    let mut t = Transport::new(Uart::new());
    assert_eq!(t.space_available(), 511);
    assert_eq!(t.write(&[1, 2, 3]), Ok(3));
    assert_eq!(t.space_available(), 511);
    assert_eq!(t.next_tx_byte(), Some(1));
    assert_eq!(t.next_tx_byte(), Some(2));
    assert_eq!(t.next_tx_byte(), Some(3));
    assert_eq!(t.next_tx_byte(), None);
    let big = vec![9u8; 100];
    assert_eq!(t.write(&big), Ok(100));
    assert_eq!(t.space_available(), 511 - (100 - (BUFFER_SIZE - 1)));
    assert_eq!(t.process(), Ok(()));
    assert_eq!(t.space_available(), 511 - (100 - (BUFFER_SIZE - 1)));
}

#[test]
fn transport_write_overflow() {
    let mut t = Transport::new(Uart::new());
    let big = vec![1u8; 600];
    assert_eq!(t.write(&big), Err(ProtocolError::BufferOverflow));
    assert_eq!(t.space_available(), 0);
}

#[test]
fn transport_read_received_bytes() {
    let mut t = Transport::new(Uart::new());
    assert!(t.receive(10));
    assert!(t.receive(11));
    assert!(t.receive(12));
    assert_eq!(t.bytes_available(), 0);
    assert_eq!(t.process(), Ok(()));
    assert_eq!(t.bytes_available(), 3);
    let mut buf = [0u8; 2];
    assert_eq!(t.read(&mut buf), Ok(2));
    assert_eq!(buf, [10, 11]);
    let mut buf = [0u8; 4];
    assert_eq!(t.read(&mut buf), Ok(1));
    assert_eq!(buf, [12, 0, 0, 0]);
    assert_eq!(t.bytes_available(), 0);
}

fn long_frame(valid_checksum: bool) -> Vec<u8> {
    let mut f = vec![0x55u8, 0xAA, 0x01, 251];
    f.extend(std::iter::repeat(3u8).take(251));
    let cs = calculate_checksum(&f);
    f.push(if valid_checksum { cs } else { cs.wrapping_add(1) });
    f.push(0x0A);
    f
}

#[test]
fn parse_long_frame_with_bad_checksum() {
    let mut p = Packet::new();
    let f = long_frame(false);
    assert_eq!(f.len(), 257);
    assert_eq!(p.parse(&f), Err(ProtocolError::InvalidChecksum));
}

#[test]
fn parse_long_frame_with_good_checksum() {
    let mut p = Packet::new();
    assert_eq!(p.parse(&long_frame(true)), Err(ProtocolError::InvalidPacket));
    assert_eq!(p.get_data(), Vec::<u8>::new());
}
