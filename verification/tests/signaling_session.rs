use tsvoi::aes::AES;
use tsvoi::client::ClientAction;
use tsvoi::client::SignalingClient;
use tsvoi::server::HostRouting;
use tsvoi::server::SignalingServer;

const HOST_ADDR: &[u8] = b"[::1]:55001";

fn new_host() -> SignalingServer {
    SignalingServer::new(b"H".to_vec(), AES::new(None).unwrap())
}

fn client_cipher(host: &SignalingServer) -> AES {
    AES::new(Some(&host.get_cipher_key())).unwrap()
}

/// Welcome a client and build its side of the session.
fn join(host: &mut SignalingServer, username: &[u8]) -> SignalingClient {
    let cipher = client_cipher(host);
    let (id, welcome_env) = host.accept_client();
    let welcome_plain = cipher.decrypt(&welcome_env).unwrap();
    let my_id = SignalingClient::parse_welcome(&welcome_plain).unwrap();
    assert_eq!(my_id, id);
    SignalingClient::new(my_id, username.to_vec(), cipher)
}

#[test]
fn session_bootstrap_two_clients() {
    let mut host = new_host();
    assert_eq!(host.get_cipher_key().len(), 43);

    // Client A joins and announces itself to the host (id 0).
    let mut a = join(&mut host, b"A");
    assert_eq!(a.get_peers().len(), 0);
    let announce_env = a.prepare_announce(0, b"[::1]:60001".to_vec()).unwrap();
    assert_eq!(a.get_peers(), vec![(0u8, b"tbd".to_vec())]);

    let announce_plain = host.open_message(&announce_env).unwrap();
    match host.route(&announce_plain) {
        HostRouting::Announce { from, addr, username } => {
            assert_eq!(from, 1);
            assert_eq!(addr, b"[::1]:60001".to_vec());
            assert_eq!(username, b"A".to_vec());
        }
        _ => panic!("announce not routed to host"),
    }
    let accept_env = host.complete_announce(1, HOST_ADDR.to_vec()).unwrap();

    // A reads the accept: the placeholder username becomes the host's.
    let accept_plain = a.open_message(&accept_env).unwrap();
    match a.handle_plain(&accept_plain) {
        ClientAction::Accepted { from, addr } => {
            assert_eq!(from, 0);
            assert_eq!(addr, HOST_ADDR.to_vec());
        }
        _ => panic!("accept not handled"),
    }
    assert_eq!(a.get_peers(), vec![(0u8, b"H".to_vec())]);

    // Client B joins: a fresh id, and an announce relayed to A through the
    // host without the host reading it.
    let mut b = join(&mut host, b"B");
    let to_host_env = b.prepare_announce(0, b"[::1]:60002".to_vec()).unwrap();
    let to_a_env = b.prepare_announce(1, b"[::1]:60003".to_vec()).unwrap();

    let to_host_plain = host.open_message(&to_host_env).unwrap();
    assert!(matches!(host.route(&to_host_plain), HostRouting::Announce { from: 2, .. }));
    let _host_accept = host.complete_announce(2, HOST_ADDR.to_vec()).unwrap();

    let to_a_plain = host.open_message(&to_a_env).unwrap();
    match host.route(&to_a_plain) {
        HostRouting::Relay { to } => assert_eq!(to, 1),
        _ => panic!("client-to-client announce not relayed"),
    }

    // A receives the relayed envelope untouched and answers with an accept.
    let relayed_plain = a.open_message(&to_a_env).unwrap();
    match a.handle_plain(&relayed_plain) {
        ClientAction::Announced { from, addr, username } => {
            assert_eq!(from, 2);
            assert_eq!(addr, b"[::1]:60003".to_vec());
            assert_eq!(username, b"B".to_vec());
        }
        _ => panic!("relayed announce not handled"),
    }
    let a_accept_env = a.make_accept(2, b"[::1]:60004".to_vec()).unwrap();
    let a_accept_plain = b.open_message(&a_accept_env).unwrap();
    match b.handle_plain(&a_accept_plain) {
        ClientAction::Accepted { from, addr } => {
            assert_eq!(from, 1);
            assert_eq!(addr, b"[::1]:60004".to_vec());
        }
        _ => panic!("accept round-trip failed"),
    }
    assert_eq!(b.get_peers(), vec![(0u8, b"tbd".to_vec()), (1u8, b"A".to_vec())]);
    assert_eq!(a.get_peers(), vec![(0u8, b"H".to_vec()), (2u8, b"B".to_vec())]);
}

#[test]
fn issued_ids_are_unique_and_monotone() {
    let mut host = new_host();
    let (id1, _) = host.accept_client();
    let (id2, _) = host.accept_client();
    let (id3, _) = host.accept_client();
    assert_eq!((id1, id2, id3), (1, 2, 3));
}

#[test]
fn host_reports_id_exhaustion() {
    let mut host = new_host();
    assert!(!host.at_capacity());
    for expected in 1..=254u8 {
        assert!(!host.at_capacity());
        let (id, _) = host.accept_client();
        assert_eq!(id, expected);
    }
    assert!(host.at_capacity());
}

#[test]
fn disconnect_broadcasts_peer_lost_to_every_remaining_stream() {
    let mut host = new_host();
    let mut a = join(&mut host, b"A");
    let b = join(&mut host, b"B");
    let _ = &b;

    // Both clients announced; the host tracks a link per client.
    let a_env = a.prepare_announce(0, b"[::1]:60001".to_vec()).unwrap();
    let a_plain = host.open_message(&a_env).unwrap();
    assert!(matches!(host.route(&a_plain), HostRouting::Announce { .. }));
    host.complete_announce(1, HOST_ADDR.to_vec()).unwrap();

    // B's stream closes: the host tells everyone who is left.
    let msgs = host.handle_disconnect(2);
    assert_eq!(msgs.len(), 1);
    let (sid, env) = &msgs[0];
    assert_eq!(*sid, 1);
    let plain = a.open_message(env).unwrap();
    assert_eq!(plain, vec![4u8, 0, 1, 2]);

    // A removes the lost peer from its table.
    let lost_b_env = {
        // First give A an entry for id 2 the way the protocol would.
        let announce = vec![1u8, 2, 1, 3, 65, 66, 67, 66];
        match a.handle_plain(&announce) {
            ClientAction::Announced { from, .. } => assert_eq!(from, 2),
            _ => panic!("announce not handled"),
        }
        env
    };
    let lost_plain = a.open_message(lost_b_env).unwrap();
    match a.handle_plain(&lost_plain) {
        ClientAction::Lost { lost } => assert_eq!(lost, 2),
        _ => panic!("peer-lost not handled"),
    }
    assert!(a.get_peers().iter().all(|(id, _)| *id != 2));
}

#[test]
fn relay_to_unknown_stream_is_rejected() {
    let mut host = new_host();
    let _a = join(&mut host, b"A");
    // to = 9: no such stream.
    let plain = vec![1u8, 1, 9, 1, 65, 66];
    assert!(matches!(host.route(&plain), HostRouting::Reject));
    // to = 1 exists: relayed.
    let plain2 = vec![1u8, 2, 1, 1, 65, 66];
    assert!(matches!(host.route(&plain2), HostRouting::Relay { to: 1 }));
}

#[test]
fn host_rejects_unexpected_accepts_and_short_messages() {
    let mut host = new_host();
    let _a = join(&mut host, b"A");
    // An accept addressed to the host: the host never expects one.
    let accept = vec![2u8, 1, 0, 1, 65, 66];
    assert!(matches!(host.route(&accept), HostRouting::Reject));
    assert!(matches!(host.route(&vec![1u8, 2]), HostRouting::Reject));
}

#[test]
fn client_ignores_messages_for_other_ids() {
    let mut host = new_host();
    let mut a = join(&mut host, b"A");
    // An announce addressed to id 9, not A's id 1.
    let stray = vec![1u8, 2, 9, 1, 65, 66];
    assert!(matches!(a.handle_plain(&stray), ClientAction::Ignored));
    assert_eq!(a.get_peers().len(), 0);
}

#[test]
fn opus_fanout_skips_links_before_handshake() {
    let mut host = new_host();
    host.complete_announce(1, HOST_ADDR.to_vec()).unwrap();
    // The link never completed its UDP handshake: nothing may leave.
    let sent = host.send_opus(&vec![1, 2, 3]);
    assert_eq!(sent.len(), 1);
    assert_eq!(sent[0].0, 1);
    assert!(sent[0].1.is_none());
}

#[test]
fn opus_fanout_seals_for_ready_links() {
    let mut host = new_host();
    host.complete_announce(1, HOST_ADDR.to_vec()).unwrap();
    // The peer's handshake ping arms the host-side link.
    let outcome = host.handle_peer_datagram(1, &vec![1u8]);
    assert!(outcome.is_some());
    let sent = host.send_opus(&vec![9, 9]);
    assert_eq!(sent.len(), 1);
    let datagram = sent[0].1.as_ref().expect("ready link must send");
    assert_eq!(datagram.len(), 2 + 36);
    // The envelope opens under the session key back to payload + trailer.
    let reader = client_cipher(&host);
    let plain = reader.decrypt(datagram).unwrap();
    assert_eq!(plain, vec![9u8, 9, 0, 0, 0, 0, 0, 0, 0, 0]);
}

#[test]
fn change_peer_volume_reaches_inbound_frames() {
    let mut host = new_host();
    host.complete_announce(1, HOST_ADDR.to_vec()).unwrap();
    host.handle_peer_datagram(1, &vec![1u8]);
    host.change_peer_volume(1, 50);

    // A remote sender with the same key feeds two frames through the link.
    let cipher = client_cipher(&host);
    let mut sender = tsvoi::peer::AudioPeer::new(cipher);
    assert!(matches!(
        sender.handle_datagram(&vec![1u8]),
        tsvoi::peer::DatagramOutcome::Handshake
    ));
    let d0 = sender.send(&vec![5]).unwrap();
    let d1 = sender.send(&vec![6]).unwrap();
    assert!(matches!(
        host.handle_peer_datagram(1, &d0),
        Some(tsvoi::peer::DatagramOutcome::Buffered)
    ));
    match host.handle_peer_datagram(1, &d1) {
        Some(tsvoi::peer::DatagramOutcome::Flushed(list)) => {
            assert_eq!(list, vec![vec![5u8, 50], vec![6u8, 50]]);
        }
        _ => panic!("window did not flush"),
    }
}
