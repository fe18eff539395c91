use tsvoi::errors::ErrorKind;
use tsvoi::msg::SignalMessage;
use tsvoi::msg::encode_message;
use tsvoi::msg::parse_message;
use tsvoi::wire::be_to_u64;
use tsvoi::wire::make_frame;
use tsvoi::wire::parse_frame;
use tsvoi::wire::u64_to_be;

#[test]
fn sequence_counter_is_big_endian() {
    let bytes = u64_to_be(0x0102030405060708);
    assert_eq!(bytes, vec![1u8, 2, 3, 4, 5, 6, 7, 8]);
    assert_eq!(u64_to_be(258), vec![0u8, 0, 0, 0, 0, 0, 1, 2]);
}

#[test]
fn sequence_counter_round_trips() {
    for x in [0u64, 1, 255, 256, 0xDEAD_BEEF, u64::MAX] {
        let bytes = u64_to_be(x);
        assert_eq!(be_to_u64(&bytes, 0), x);
    }
}

#[test]
fn frame_appends_trailer() {
    let opus: Vec<u8> = vec![9, 8, 7];
    let frame = make_frame(&opus, 513);
    assert_eq!(frame, vec![9u8, 8, 7, 0, 0, 0, 0, 0, 0, 2, 1]);
    let (payload, seq_no) = parse_frame(&frame);
    assert_eq!(payload, opus);
    assert_eq!(seq_no, 513);
}

#[test]
fn welcome_round_trip() {
    let m = SignalMessage::Welcome { id: 7 };
    let bytes = encode_message(&m);
    assert_eq!(bytes, vec![0u8, 7]);
    match parse_message(&bytes) {
        Ok(SignalMessage::Welcome { id }) => assert_eq!(id, 7),
        _ => panic!("welcome did not parse"),
    }
}

#[test]
fn announce_round_trip() {
    let m = SignalMessage::Announce {
        from: 2,
        to: 0,
        addr: b"[::1]:55001".to_vec(),
        username: b"A".to_vec(),
    };
    let bytes = encode_message(&m);
    assert_eq!(bytes[0], 1);
    assert_eq!(bytes[1], 2);
    assert_eq!(bytes[2], 0);
    assert_eq!(bytes[3] as usize, b"[::1]:55001".len());
    match parse_message(&bytes) {
        Ok(SignalMessage::Announce { from, to, addr, username }) => {
            assert_eq!(from, 2);
            assert_eq!(to, 0);
            assert_eq!(addr, b"[::1]:55001".to_vec());
            assert_eq!(username, b"A".to_vec());
        }
        _ => panic!("announce did not parse"),
    }
}

#[test]
fn accept_round_trip_with_empty_username() {
    let m = SignalMessage::Accept {
        from: 0,
        to: 3,
        addr: b"[::1]:1".to_vec(),
        username: Vec::new(),
    };
    let bytes = encode_message(&m);
    assert_eq!(bytes[0], 2);
    match parse_message(&bytes) {
        Ok(SignalMessage::Accept { from, to, addr, username }) => {
            assert_eq!((from, to), (0, 3));
            assert_eq!(addr, b"[::1]:1".to_vec());
            assert!(username.is_empty());
        }
        _ => panic!("accept did not parse"),
    }
}

#[test]
fn peer_lost_round_trip() {
    let m = SignalMessage::PeerLost { to: 1, lost: 2 };
    let bytes = encode_message(&m);
    assert_eq!(bytes, vec![4u8, 0, 1, 2]);
    match parse_message(&bytes) {
        Ok(SignalMessage::PeerLost { to, lost }) => assert_eq!((to, lost), (1, 2)),
        _ => panic!("peer-lost did not parse"),
    }
}

#[test]
fn short_plaintext_is_protocol_error() {
    assert_eq!(parse_message(&vec![1u8]).err(), Some(ErrorKind::Protocol));
    assert_eq!(parse_message(&Vec::new()).err(), Some(ErrorKind::Protocol));
}

#[test]
fn reserved_and_unknown_ops_rejected() {
    // Op 3 is reserved for a future bitrate change; nothing emits it.
    assert_eq!(parse_message(&vec![3u8, 1, 2, 0]).err(), Some(ErrorKind::Protocol));
    assert_eq!(parse_message(&vec![9u8, 1, 2]).err(), Some(ErrorKind::Protocol));
}

#[test]
fn announce_with_overlong_addr_len_rejected() {
    // addr_len byte says 200, but only 2 payload bytes follow.
    assert_eq!(parse_message(&vec![1u8, 1, 0, 200, 65, 66]).err(), Some(ErrorKind::Protocol));
}

#[test]
fn oversized_welcome_rejected() {
    assert_eq!(parse_message(&vec![0u8, 7, 7]).err(), Some(ErrorKind::Protocol));
}

#[test]
fn peer_lost_requires_zero_origin() {
    assert_eq!(parse_message(&vec![4u8, 5, 1, 2]).err(), Some(ErrorKind::Protocol));
}
