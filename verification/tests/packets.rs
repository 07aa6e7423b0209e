use game_client::wire::{build_connect_command, build_create_command, build_move_command, read_u64_be};

#[test]
fn create_packet_layout() {
    let mut buf = [0xAAu8; 64];
    let n = build_create_command(&mut buf, 0x0102030405060708, 0x1112131415161718);
    assert_eq!(n, 17);
    assert_eq!(
        &buf[..17],
        &[1, 0x11, 0x12, 0x13, 0x14, 0x15, 0x16, 0x17, 0x18, 1, 2, 3, 4, 5, 6, 7, 8]
    );
    assert!(buf[17..].iter().all(|b| *b == 0));
}

#[test]
fn connect_packet_layout() {
    let mut buf = [7u8; 17];
    let n = build_connect_command(&mut buf, 2, 100001);
    assert_eq!(n, 17);
    let mut expected = vec![2u8];
    expected.extend_from_slice(&100001u64.to_be_bytes());
    expected.extend_from_slice(&2u64.to_be_bytes());
    assert_eq!(&buf[..], &expected[..]);
}

#[test]
fn move_packet_layout() {
    let mut buf = [9u8; 64];
    let n = build_move_command(&mut buf, 5, 6, 1, 2);
    assert_eq!(n, 19);
    let mut expected = vec![4u8];
    expected.extend_from_slice(&6u64.to_be_bytes());
    expected.extend_from_slice(&5u64.to_be_bytes());
    expected.extend_from_slice(&[1, 2]);
    assert_eq!(&buf[..19], &expected[..]);
    assert!(buf[19..].iter().all(|b| *b == 0));
}

/// The server-side test harness writes a board id of bytes
/// [1,0,0,0,0,0,0,0] and player codes [1,0,...] and [2,0,...].
#[test]
fn harness_packets() {
    let board = u64::from_be_bytes([1, 0, 0, 0, 0, 0, 0, 0]);
    let p0 = u64::from_be_bytes([1, 0, 0, 0, 0, 0, 0, 0]);
    let mut buf = [0u8; 17];
    build_create_command(&mut buf, p0, board);
    assert_eq!(buf, [1, 1, 0, 0, 0, 0, 0, 0, 0, 1, 0, 0, 0, 0, 0, 0, 0]);
    let mut buf = [0u8; 20];
    let n = build_move_command(&mut buf, p0, board, 1, 2);
    assert_eq!(&buf[..n], &[4, 1, 0, 0, 0, 0, 0, 0, 0, 1, 0, 0, 0, 0, 0, 0, 0, 1, 2]);
}

#[test]
fn be_numbers_read_back() {
    for v in [0u64, 1, 255, 256, 0x0102030405060708, u64::MAX] {
        let mut buf = [0u8; 17];
        build_create_command(&mut buf, v, v.wrapping_add(1));
        assert_eq!(read_u64_be(&buf, 9), v);
        assert_eq!(read_u64_be(&buf, 1), v.wrapping_add(1));
        assert_eq!(read_u64_be(&v.to_be_bytes(), 0), v);
    }
}
