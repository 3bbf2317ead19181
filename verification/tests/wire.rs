use waypoint::connection::{BadFrame, Connection, IoError, Step};
use waypoint::endian::ByteOrder;
use waypoint::message::Message;
use waypoint::wire::{encode_frame, message_fits, Arg, Family, Fixed};

fn le_conn(family: Family) -> Connection<i32> {
    Connection::with_order(family, ByteOrder::Little)
}

fn pending_bytes(conn: &Connection<i32>) -> Vec<u8> {
    let (a, b) = conn.pending();
    let mut out = a.to_vec();
    out.extend_from_slice(b);
    out
}

#[test]
fn narrow_frame_layout() {
    let args = [Arg::Uint32(7), Arg::String(Some("hi")), Arg::Array(&[1, 2, 3, 4, 5])];
    assert!(message_fits(Family::Narrow, &args));
    let frame = encode_frame(Family::Narrow, ByteOrder::Little, 3, 2, &args);
    let expected: Vec<u8> = vec![
        3, 0, 0, 0, // object
        2, 0, 32, 0, // opcode 2, size 32
        7, 0, 0, 0, // uint
        3, 0, 0, 0, b'h', b'i', 0, 0, // string
        5, 0, 0, 0, 1, 2, 3, 4, 5, 0, 0, 0, // array
    ];
    assert_eq!(frame, expected);
}

#[test]
fn wide_frame_layout_big_endian() {
    let args = [Arg::Int32(-2), Arg::Uint64(0x0102030405060708), Arg::String(None)];
    let frame = encode_frame(Family::Wide, ByteOrder::Big, 0x1122334455667788, 9, &args);
    let expected: Vec<u8> = vec![
        0x11, 0x22, 0x33, 0x44, 0x55, 0x66, 0x77, 0x88, // object
        0, 0, 0, 32, // size
        0, 0, 0, 9, // opcode
        0xff, 0xff, 0xff, 0xfe, // -2
        1, 2, 3, 4, 5, 6, 7, 8, // u64
        0, 0, 0, 0, // null string
    ];
    assert_eq!(frame, expected);
}

#[test]
fn padding_of_strings_and_arrays() {
    for n in 0..20usize {
        let text = "x".repeat(n);
        let frame = encode_frame(Family::Narrow, ByteOrder::Little, 1, 0, &[Arg::String(Some(&text))]);
        assert_eq!(frame.len(), 8 + 4 + (n + 1 + 3) / 4 * 4);
        let bytes = vec![9u8; n];
        let frame = encode_frame(Family::Narrow, ByteOrder::Little, 1, 0, &[Arg::Array(&bytes)]);
        assert_eq!(frame.len(), 8 + 4 + (n + 3) / 4 * 4);
        let mut message = Message::new(1, 0, ByteOrder::Little, frame[8..].to_vec());
        assert_eq!(message.read_array(), Some(bytes));
        assert_eq!(message.unread(), 0);
    }
}

#[test]
fn every_kind_reads_back() {
    for order in [ByteOrder::Little, ByteOrder::Big] {
        let args = [
            Arg::Int32(i32::MIN),
            Arg::Uint32(u32::MAX),
            Arg::Int64(-1),
            Arg::Uint64(u64::MAX),
            Arg::Float(1.5f32.to_bits()),
            Arg::Fixed(Fixed(-384)),
            Arg::String(Some("")),
            Arg::String(None),
            Arg::String(Some("T\u{14d}hoku")),
            Arg::Array(&[]),
            Arg::Array(&[0xde, 0xad, 0xbe]),
        ];
        let frame = encode_frame(Family::Wide, order, 77, 5, &args);
        let mut message = Message::new(77, 5, order, frame[16..].to_vec());
        assert_eq!(message.object(), 77);
        assert_eq!(message.opcode(), 5);
        assert_eq!(message.read_int32(), Some(i32::MIN));
        assert_eq!(message.read_uint32(), Some(u32::MAX));
        assert_eq!(message.read_int64(), Some(-1));
        assert_eq!(message.read_uint64(), Some(u64::MAX));
        assert_eq!(message.read_float().map(f32::from_bits), Some(1.5f32));
        assert_eq!(message.read_fixed(), Some(Fixed(-384)));
        assert_eq!(message.read_string(), Some(Some(String::new())));
        assert_eq!(message.read_string(), Some(None));
        assert_eq!(message.read_string(), Some(Some("T\u{14d}hoku".to_string())));
        assert_eq!(message.read_array(), Some(vec![]));
        assert_eq!(message.read_array(), Some(vec![0xde, 0xad, 0xbe]));
        assert_eq!(message.unread(), 0);
        assert_eq!(message.read_uint32(), None);
        assert_eq!(message.read_uint64(), None);
        assert_eq!(message.read_string(), None);
        assert_eq!(message.read_array(), None);
    }
}

#[test]
fn narrow_names_read_the_same() {
    let frame = encode_frame(Family::Narrow, ByteOrder::Little, 1, 0, &[Arg::Int32(-5), Arg::Uint32(6)]);
    let mut message = Message::new(1, 0, ByteOrder::Little, frame[8..].to_vec());
    assert_eq!(message.read_int(), Some(-5));
    assert_eq!(message.read_uint(), Some(6));
}

#[test]
fn short_or_bad_strings_are_not_read() {
    // declares 9 bytes but only 4 follow
    let mut message = Message::new(1, 0, ByteOrder::Little, vec![9, 0, 0, 0, b'a', b'b', b'c', 0]);
    assert_eq!(message.read_string(), None);
    assert_eq!(message.unread(), 8);
    // not UTF-8
    let mut message = Message::new(1, 0, ByteOrder::Little, vec![3, 0, 0, 0, 0xff, 0xfe, 0, 0]);
    assert_eq!(message.read_string(), None);
    // array longer than the message
    let mut message = Message::new(1, 0, ByteOrder::Little, vec![5, 0, 0, 0, 1, 2, 3, 4]);
    assert_eq!(message.read_array(), None);
}

#[test]
fn fixed_from_int() {
    assert_eq!(Fixed::from_int(2), Fixed(512));
    assert_eq!(Fixed::from_int(-1), Fixed(-256));
    assert_eq!(Fixed::from_int(8388607), Fixed(i32::MAX - 255));
    assert_eq!(Fixed(512).floor(), 2);
    assert_eq!(Fixed(511).floor(), 1);
    assert_eq!(Fixed(-1).floor(), -1);
    assert_eq!(Fixed(-256).floor(), -1);
    assert_eq!(Fixed(-257).floor(), -2);
    assert_eq!(Fixed(i32::MIN).floor(), -8388608);
}

#[test]
fn limits_of_a_message() {
    let big = vec![0u8; 0xffff - 8 - 4 - 4];
    assert!(message_fits(Family::Narrow, &[Arg::Array(&big)]));
    let too_big = vec![0u8; 0xffff - 8 - 4];
    assert!(!message_fits(Family::Narrow, &[Arg::Array(&too_big)]));
    assert!(message_fits(Family::Wide, &[Arg::Array(&too_big)]));
}

#[test]
fn partial_frame() {
    let mut sender = le_conn(Family::Narrow);
    assert!(sender.write_message(5, 1, &[Arg::Uint32(42), Arg::String(Some("abc"))], vec![]));
    let bytes = pending_bytes(&sender);
    let n = bytes.len();
    assert_eq!(n, 8 + 4 + 8);
    let mut receiver = le_conn(Family::Narrow);
    let got = receiver.read_nonblocking::<()>(Ok(&bytes[..n - 1]), vec![]);
    assert!(matches!(got, Ok(true)));
    assert!(matches!(receiver.read_message(), Ok(None)));
    assert_eq!(receiver.unread(), n - 1);
    let got = receiver.read_nonblocking::<()>(Ok(&bytes[n - 1..]), vec![]);
    assert!(matches!(got, Ok(true)));
    let mut message = receiver.read_message().unwrap().unwrap();
    assert_eq!(message.object(), 5);
    assert_eq!(message.opcode(), 1);
    assert_eq!(message.read_uint32(), Some(42));
    assert_eq!(message.read_string(), Some(Some("abc".to_string())));
    assert_eq!(receiver.unread(), 0);
    assert!(matches!(receiver.read_message(), Ok(None)));
}

#[test]
fn every_prefix_is_incomplete() {
    let mut sender = le_conn(Family::Wide);
    assert!(sender.write_message(1 << 40, 70000, &[Arg::Array(&[1, 2, 3])], vec![]));
    let bytes = pending_bytes(&sender);
    for k in 0..bytes.len() {
        let mut receiver = le_conn(Family::Wide);
        let _ = receiver.read_nonblocking::<()>(Ok(&bytes[..k]), vec![]);
        assert!(matches!(receiver.read_message(), Ok(None)));
        assert_eq!(receiver.unread(), k);
    }
}

#[test]
fn fd_association() {
    let mut sender = le_conn(Family::Narrow);
    assert!(sender.write_message(1, 0, &[], vec![10]));
    assert!(sender.write_message(1, 1, &[], vec![20, 30]));
    let bytes = pending_bytes(&sender);
    let fds: Vec<i32> = sender.pending_fds().iter().copied().collect();
    assert_eq!(fds, vec![10, 20, 30]);
    assert!(matches!(sender.flush_nonblocking::<()>(Ok(bytes.len())), Ok(true)));
    assert!(!sender.wants_flush());
    assert_eq!(sender.pending_fds().len(), 0);

    let mut receiver = le_conn(Family::Narrow);
    assert!(matches!(receiver.read_nonblocking::<()>(Ok(&bytes), fds), Ok(true)));
    let mut first = receiver.read_message().unwrap().unwrap();
    assert_eq!(first.opcode(), 0);
    assert_eq!(first.read_fd(&mut receiver), Some(10));
    let second = receiver.read_message().unwrap().unwrap();
    assert_eq!(second.opcode(), 1);
    assert_eq!(receiver.claim_fd(), Some(20));
    assert_eq!(receiver.claim_fd(), Some(30));
    assert_eq!(receiver.claim_fd(), None);
}

#[test]
fn flushing_in_pieces() {
    let mut conn = le_conn(Family::Narrow);
    assert!(matches!(conn.flush_nonblocking::<()>(Ok(0)), Ok(true)));
    assert!(matches!(conn.flush_blocking::<()>(Err(IoError::WouldBlock)), Step::Done(true)));
    assert!(conn.write_message(2, 3, &[Arg::Uint32(1)], vec![4]));
    assert_eq!(conn.unsent(), 12);
    assert!(matches!(conn.flush_nonblocking::<()>(Err(IoError::WouldBlock)), Err(IoError::WouldBlock)));
    assert_eq!(conn.pending_fds().len(), 1);
    assert!(matches!(conn.flush_blocking(Err(IoError::Failed(32))), Step::Failed(32)));
    assert!(matches!(conn.flush_blocking::<()>(Err(IoError::WouldBlock)), Step::Wait));
    assert!(matches!(conn.flush_blocking::<()>(Ok(0)), Step::Wait));
    assert!(matches!(conn.flush_blocking::<()>(Ok(5)), Step::Retry));
    assert_eq!(conn.unsent(), 7);
    assert_eq!(conn.pending_fds().len(), 0);
    assert_eq!(pending_bytes(&conn), vec![0, 12, 0, 1, 0, 0, 0]);
    assert!(matches!(conn.flush_blocking::<()>(Ok(100)), Step::Done(true)));
    assert_eq!(conn.unsent(), 0);
}

#[test]
fn receiving_step_by_step() {
    let mut conn = le_conn(Family::Narrow);
    assert!(matches!(conn.read_blocking::<()>(Err(IoError::WouldBlock), vec![]), Ok(Step::Wait)));
    assert!(matches!(conn.read_blocking(Err(IoError::Failed(104)), vec![]), Err(IoError::Failed(104))));
    assert!(matches!(conn.read_blocking::<()>(Ok(&[]), vec![]), Ok(Step::Done(false))));
    assert!(matches!(conn.read_blocking::<()>(Ok(&[1, 2]), vec![7]), Ok(Step::Done(true))));
    assert_eq!(conn.unread(), 2);
    assert_eq!(conn.claim_fd(), Some(7));
}

#[test]
fn malformed_header() {
    let mut conn = le_conn(Family::Narrow);
    let _ = conn.read_nonblocking::<()>(Ok(&[1, 0, 0, 0, 0, 0, 4, 0]), vec![]);
    assert_eq!(conn.read_message().err(), Some(BadFrame { declared: 4 }));
    assert_eq!(conn.unread(), 8);
}

#[test]
fn buffers_grow_and_wrap() {
    let mut sender = le_conn(Family::Wide);
    let mut receiver = le_conn(Family::Wide);
    let payload: Vec<u8> = (0..3000u32).map(|i| (i % 251) as u8).collect();
    for round in 0..20u32 {
        assert!(sender.write_message(round as u64, round, &[Arg::Array(&payload)], vec![]));
        assert!(sender.write_message(round as u64, round + 100, &[Arg::Array(&payload)], vec![]));
        let bytes = pending_bytes(&sender);
        assert_eq!(bytes.len(), 2 * (16 + 4 + 3000));
        assert!(matches!(sender.flush_nonblocking::<()>(Ok(bytes.len())), Ok(true)));
        assert!(matches!(receiver.read_nonblocking::<()>(Ok(&bytes), vec![]), Ok(true)));
        for extra in [0, 100] {
            let mut message = receiver.read_message().unwrap().unwrap();
            assert_eq!(message.object(), round as u64);
            assert_eq!(message.opcode(), round + extra);
            assert_eq!(message.read_array(), Some(payload.clone()));
        }
        assert_eq!(receiver.unread(), 0);
    }
}

#[test]
fn native_order_connection_round_trip() {
    let mut sender: Connection<u8> = Connection::new(Family::Narrow);
    let mut receiver: Connection<u8> = Connection::new(Family::Narrow);
    assert!(sender.write_message(9, 4, &[Arg::Fixed(Fixed(256))], vec![]));
    let (a, b) = sender.pending();
    let mut bytes = a.to_vec();
    bytes.extend_from_slice(b);
    assert_eq!(&bytes[..4], &9u32.to_ne_bytes());
    assert_eq!(&bytes[4..8], &((12u32 << 16) | 4).to_ne_bytes());
    let _ = receiver.read_nonblocking::<()>(Ok(&bytes), vec![]);
    let mut message = receiver.read_message().unwrap().unwrap();
    assert_eq!(message.read_fixed(), Some(Fixed(256)));
}

#[test]
fn the_order_that_stores_one_so() {
    assert_eq!(ByteOrder::storing_one_as([1, 0]), ByteOrder::Little);
    assert_eq!(ByteOrder::storing_one_as([0, 1]), ByteOrder::Big);
    assert_eq!(ByteOrder::storing_one_as(1u16.to_le_bytes()), ByteOrder::Little);
    assert_eq!(ByteOrder::storing_one_as(1u16.to_be_bytes()), ByteOrder::Big);
    assert_eq!(ByteOrder::native(), ByteOrder::storing_one_as(1u16.to_ne_bytes()));
}
