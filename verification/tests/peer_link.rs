use tsvoi::aes::AES;
use tsvoi::errors::ErrorKind;
use tsvoi::jitter::JitterBuffer;
use tsvoi::peer::AudioPeer;
use tsvoi::peer::DatagramOutcome;
use tsvoi::wire::parse_frame;

fn linked_pair() -> (AudioPeer, AudioPeer) {
    let cipher = AES::new(None).unwrap();
    let mut a = AudioPeer::new(cipher.duplicate());
    let mut b = AudioPeer::new(cipher);
    // The one-byte handshake ping in each direction arms both links.
    assert!(matches!(a.handle_datagram(&vec![1u8]), DatagramOutcome::Handshake));
    assert!(matches!(b.handle_datagram(&vec![1u8]), DatagramOutcome::Handshake));
    assert!(a.is_ready() && b.is_ready());
    (a, b)
}

#[test]
fn send_before_handshake_is_not_ready() {
    let cipher = AES::new(None).unwrap();
    let mut a = AudioPeer::new(cipher);
    assert!(!a.is_ready());
    assert_eq!(a.send(&vec![1, 2, 3]), Err(ErrorKind::NotReady));
}

#[test]
fn second_ping_while_ready_is_dropped() {
    let (mut a, _) = linked_pair();
    assert!(matches!(a.handle_datagram(&vec![1u8]), DatagramOutcome::Dropped));
}

#[test]
fn sent_sequence_numbers_start_at_zero_without_gaps() {
    let cipher = AES::new(None).unwrap();
    let mut a = AudioPeer::new(cipher.duplicate());
    assert!(matches!(a.handle_datagram(&vec![1u8]), DatagramOutcome::Handshake));
    let mut seqs: Vec<u64> = Vec::new();
    for i in 0..5u8 {
        let datagram = a.send(&vec![i]).unwrap();
        assert_eq!(datagram.len(), 1 + 36);
        let plain = cipher.decrypt(&datagram).unwrap();
        let (payload, seq_no) = parse_frame(&plain);
        assert_eq!(payload, vec![i]);
        seqs.push(seq_no);
    }
    assert_eq!(seqs, vec![0, 1, 2, 3, 4]);
}

#[test]
fn frames_flush_in_sequence_order() {
    let cipher = AES::new(None).unwrap();
    let mut sender = AudioPeer::new(cipher.duplicate());
    let mut receiver = AudioPeer::new(cipher.duplicate());
    assert!(matches!(sender.handle_datagram(&vec![1u8]), DatagramOutcome::Handshake));
    assert!(matches!(receiver.handle_datagram(&vec![1u8]), DatagramOutcome::Handshake));

    let mut datagrams: Vec<Vec<u8>> = Vec::new();
    for i in 0..100u8 {
        datagrams.push(sender.send(&vec![i, i]).unwrap());
    }
    // One adjacent reorder: frames 4 and 5 swap on the wire.
    datagrams.swap(4, 5);

    let mut played: Vec<Vec<u8>> = Vec::new();
    for d in &datagrams {
        match receiver.handle_datagram(d) {
            DatagramOutcome::Flushed(list) => played.extend(list),
            DatagramOutcome::Buffered => {}
            other => panic!("good frame not accepted: {:?}", matches!(other, DatagramOutcome::Dropped)),
        }
    }
    assert_eq!(played.len(), 100);
    for (i, frame) in played.iter().enumerate() {
        // Payload plus the receiver's volume byte (100 on a fresh link).
        assert_eq!(frame, &vec![i as u8, i as u8, 100]);
    }
}

#[test]
fn tampered_datagram_dropped_and_sequence_resumes() {
    let cipher = AES::new(None).unwrap();
    let mut sender = AudioPeer::new(cipher.duplicate());
    let mut receiver = AudioPeer::new(cipher);
    assert!(matches!(sender.handle_datagram(&vec![1u8]), DatagramOutcome::Handshake));
    assert!(matches!(receiver.handle_datagram(&vec![1u8]), DatagramOutcome::Handshake));

    let d0 = sender.send(&vec![10]).unwrap();
    let mut d1 = sender.send(&vec![11]).unwrap();
    let d2 = sender.send(&vec![12]).unwrap();
    let d3 = sender.send(&vec![13]).unwrap();
    d1[20] ^= 0x40;

    assert!(matches!(receiver.handle_datagram(&d0), DatagramOutcome::Buffered));
    assert!(matches!(receiver.handle_datagram(&d1), DatagramOutcome::Dropped));
    match receiver.handle_datagram(&d2) {
        DatagramOutcome::Flushed(list) => {
            assert_eq!(list, vec![vec![10u8, 100], vec![12u8, 100]]);
        }
        _ => panic!("window did not flush"),
    }
    assert!(matches!(receiver.handle_datagram(&d3), DatagramOutcome::Buffered));
}

#[test]
fn short_datagrams_dropped() {
    let (mut a, _) = linked_pair();
    assert!(matches!(a.handle_datagram(&Vec::new()), DatagramOutcome::Dropped));
    assert!(matches!(a.handle_datagram(&vec![1u8, 2, 3]), DatagramOutcome::Dropped));
}

#[test]
fn volume_byte_follows_change_volume() {
    let cipher = AES::new(None).unwrap();
    let mut sender = AudioPeer::new(cipher.duplicate());
    let mut receiver = AudioPeer::new(cipher);
    assert!(matches!(sender.handle_datagram(&vec![1u8]), DatagramOutcome::Handshake));
    assert!(matches!(receiver.handle_datagram(&vec![1u8]), DatagramOutcome::Handshake));
    receiver.change_volume(50);

    let d0 = sender.send(&vec![7]).unwrap();
    let d1 = sender.send(&vec![8]).unwrap();
    assert!(matches!(receiver.handle_datagram(&d0), DatagramOutcome::Buffered));
    match receiver.handle_datagram(&d1) {
        DatagramOutcome::Flushed(list) => {
            assert_eq!(list, vec![vec![7u8, 50], vec![8u8, 50]]);
        }
        _ => panic!("window did not flush"),
    }
}

#[test]
fn jitter_buffer_orders_by_key() {
    let mut jb = JitterBuffer::new();
    jb.push(5, vec![5]);
    jb.push(4, vec![4]);
    jb.push(6, vec![6]);
    assert_eq!(jb.len(), 3);
    assert_eq!(jb.drain(), vec![vec![4u8], vec![5u8], vec![6u8]]);
    assert_eq!(jb.len(), 0);
}

#[test]
fn parse_frame_reads_sender_trailer() {
    let cipher = AES::new(None).unwrap();
    let mut sender = AudioPeer::new(cipher.duplicate());
    assert!(matches!(sender.handle_datagram(&vec![1u8]), DatagramOutcome::Handshake));
    let d0 = sender.send(&vec![1, 2, 3]).unwrap();
    let d1 = sender.send(&vec![1, 2, 3]).unwrap();
    let p0 = cipher.decrypt(&d0).unwrap();
    let p1 = cipher.decrypt(&d1).unwrap();
    let (payload0, s0) = parse_frame(&p0);
    let (payload1, s1) = parse_frame(&p1);
    assert_eq!(payload0, vec![1u8, 2, 3]);
    assert_eq!(payload1, vec![1u8, 2, 3]);
    assert_eq!((s0, s1), (0, 1));
}
