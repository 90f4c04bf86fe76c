use protohackers::means::{Message, ProtocolError, Session, MESSAGE_LEN};

#[test]
fn avg() {
    let mut s = Session::default();
    s.insert(1, 10).unwrap();
    s.insert(2, 123).unwrap();
    s.insert(3, 4).unwrap();
    s.insert(4, 3455).unwrap();
    s.insert(5, 3).unwrap();
    s.insert(6, -9).unwrap();
    assert_eq!(s.calculate_avg(1, 6), 597);
}

#[test]
fn manual() {
    let bytes = [0x49, 0, 0, 0, 0xffu8, 0, 0, 0x10, 0x00];
    let msg = Message::from_bytes(&bytes).unwrap();
    assert!(matches!(msg, Message::Insert { timestamp: 255, price: 4096 }));
}

fn frame(kind: u8, first: i32, second: i32) -> [u8; 9] {
    let mut bytes = [0u8; 9];
    bytes[0] = kind;
    bytes[1..5].copy_from_slice(&first.to_be_bytes());
    bytes[5..9].copy_from_slice(&second.to_be_bytes());
    bytes
}

#[test]
fn from_bytes_reads_both_kinds() {
    assert_eq!(MESSAGE_LEN, 9);
    assert_eq!(
        Message::from_bytes(&[0x51, 0, 0, 0x03, 0xe8, 0, 0x01, 0x86, 0xa0]),
        Ok(Message::Query { mintime: 1000, maxtime: 100000 })
    );
    assert_eq!(
        Message::from_bytes(&[0x49, 0, 0, 0x30, 0x39, 0, 0, 0, 0x65]),
        Ok(Message::Insert { timestamp: 12345, price: 101 })
    );
    assert_eq!(
        Message::from_bytes(&[0x49, 0xff, 0xff, 0xff, 0xff, 0x80, 0, 0, 0]),
        Ok(Message::Insert { timestamp: -1, price: i32::MIN })
    );
    assert_eq!(
        Message::from_bytes(&[0x51, 0x7f, 0xff, 0xff, 0xff, 0xff, 0xff, 0xff, 0xfe]),
        Ok(Message::Query { mintime: i32::MAX, maxtime: -2 })
    );
    for (a, b) in [(0, 0), (1, -1), (i32::MIN, i32::MAX), (-123456789, 987654321), (256, 65536)] {
        assert_eq!(
            Message::from_bytes(&frame(b'I', a, b)),
            Ok(Message::Insert { timestamp: a, price: b })
        );
        assert_eq!(
            Message::from_bytes(&frame(b'Q', a, b)),
            Ok(Message::Query { mintime: a, maxtime: b })
        );
    }
}

#[test]
fn from_bytes_refuses_other_kinds() {
    for kind in [0u8, b'i', b'q', b'J', b'R', 0xff] {
        assert_eq!(Message::from_bytes(&frame(kind, 1, 2)), Err(ProtocolError::UndefinedBehavior));
    }
}

#[test]
fn a_second_price_is_an_error_and_is_kept() {
    let mut s = Session::new();
    assert_eq!(s.insert(10, 100), Ok(()));
    assert_eq!(s.insert(10, 300), Err(ProtocolError::UndefinedBehavior));
    assert_eq!(s.calculate_avg(10, 10), 300);
    assert_eq!(s.insert(11, 100), Ok(()));
    assert_eq!(s.calculate_avg(10, 11), 200);
}

#[test]
fn mean_of_nothing_is_zero() {
    let mut s = Session::new();
    assert_eq!(s.calculate_avg(i32::MIN, i32::MAX), 0);
    s.insert(5, 50).unwrap();
    assert_eq!(s.calculate_avg(6, 100), 0);
    assert_eq!(s.calculate_avg(-100, 4), 0);
    assert_eq!(s.calculate_avg(5, 4), 0);
    assert_eq!(s.calculate_avg(i32::MAX, i32::MIN), 0);
    assert_eq!(s.calculate_avg(5, 5), 50);
}

#[test]
fn mean_is_rounded_toward_zero() {
    let mut s = Session::new();
    s.insert(1, -3).unwrap();
    s.insert(2, -4).unwrap();
    assert_eq!(s.calculate_avg(1, 2), -3);
    s.insert(3, 8).unwrap();
    assert_eq!(s.calculate_avg(1, 3), 0);
    assert_eq!(s.calculate_avg(2, 3), 2);
    s.insert(4, -2).unwrap();
    assert_eq!(s.calculate_avg(1, 4), 0);
    assert_eq!(s.calculate_avg(4, 4), -2);
}

#[test]
fn mean_of_extreme_prices() {
    let mut s = Session::new();
    s.insert(i32::MIN, i32::MIN).unwrap();
    s.insert(-1, i32::MIN).unwrap();
    s.insert(0, i32::MIN).unwrap();
    assert_eq!(s.calculate_avg(i32::MIN, 0), i32::MIN);
    s.insert(1, i32::MAX).unwrap();
    s.insert(i32::MAX, i32::MAX).unwrap();
    assert_eq!(s.calculate_avg(1, i32::MAX), i32::MAX);
    assert_eq!(s.calculate_avg(0, 1), 0);
    assert_eq!(s.calculate_avg(i32::MIN, i32::MAX), -429496730);
}

#[test]
fn handle_answers_queries_only() {
    let mut s = Session::new();
    assert_eq!(s.handle(&frame(b'I', 12345, 101)), Ok(None));
    assert_eq!(s.handle(&frame(b'I', 12346, 102)), Ok(None));
    assert_eq!(s.handle(&frame(b'I', 12347, 100)), Ok(None));
    assert_eq!(s.handle(&frame(b'I', 40960, 5)), Ok(None));
    assert_eq!(s.handle(&frame(b'Q', 12288, 16384)), Ok(Some(101)));
    assert_eq!(s.handle(&frame(b'Q', 16384, 12288)), Ok(Some(0)));
    assert_eq!(s.handle(&frame(b'X', 0, 0)), Err(ProtocolError::UndefinedBehavior));
    assert_eq!(s.handle(&frame(b'I', 12345, 7)), Err(ProtocolError::UndefinedBehavior));
    assert_eq!(s.handle(&frame(b'Q', 12345, 12345)), Ok(Some(7)));
}
