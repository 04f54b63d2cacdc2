use grpc_http3::conn::{
    client_path_action, conn_id_seed, derive_conn_id, generate_cid_and_reset_token, lookup_connection,
    random_connection_id, reset_token_from_bytes, server_initial_action, server_path_action,
    stream_initial_action, reconnect_after_close, ConnectionPoll, ConnectionStream, InitialAction, InitialPacket, PathAction,
    PathEvent, CONN_ID_SEED_LEN,
};
use grpc_http3::conn_ids::{ClientTable, ConnIdMap};
use grpc_http3::grpc::{ends_response, is_request_end, is_settings_ack};
use grpc_http3::io_plan::{
    ack_eliciting_due, ack_eliciting_paths, client_addresses, compatible_addrs, duplicate_amount,
    fallback_bind_addr, probing_order, segment_bounds,
};
use grpc_http3::net::{IpAddr, SockAddr};
use grpc_http3::tcp::{use_backup, TcpStats};
use grpc_http3::token::mint_token;
use grpc_http3::AddrMap;

fn addr(port: u16) -> SockAddr {
    SockAddr { ip: IpAddr::V4(0x7f00_0001), port }
}

#[test]
fn grpc_markers() {
    assert!(is_request_end(&[0, 0, 0, 0, 0, 1, 0, 0, 0, 9]));
    assert!(is_request_end(&[0, 0, 0, 0, 1, 0, 0, 0, 0]));
    assert!(!is_request_end(&[0, 0, 0, 0, 1, 0, 0, 0]));
    assert!(!is_request_end(&[0, 0, 0, 0, 1, 0, 0, 1, 0]));
    assert!(is_settings_ack(&[0, 0, 0, 4, 1, 0, 0, 0, 0]));
    assert!(!is_settings_ack(&[0, 0, 0, 4, 1, 0, 0, 0, 0, 0]));
    assert!(ends_response(&[1, 218, 143, 129, 7, 5], 5));
    assert!(!ends_response(&[1, 218, 143, 129, 7, 5], 6));
    assert!(!ends_response(&[143, 129, 7], 3));
}

#[test]
fn segments_cover_buffer() {
    assert_eq!(segment_bounds(10, 4), vec![(0, 4), (4, 8), (8, 10)]);
    assert_eq!(segment_bounds(8, 4), vec![(0, 4), (4, 8)]);
    assert_eq!(segment_bounds(0, 4), vec![]);
    assert_eq!(segment_bounds(0, 0), vec![]);
    assert_eq!(segment_bounds(3, 1500), vec![(0, 3)]);
}

#[test]
fn socket_address_choices() {
    let v6 = SockAddr { ip: IpAddr::V6(1), port: 1 };
    let given = vec![addr(1), v6, addr(2)];
    assert_eq!(compatible_addrs(&given, &addr(9)), vec![addr(1), addr(2)]);
    assert_eq!(compatible_addrs(&given, &v6), vec![v6]);
    assert_eq!(fallback_bind_addr(&addr(9)), SockAddr { ip: IpAddr::V4(0), port: 0 });
    assert_eq!(fallback_bind_addr(&v6), SockAddr { ip: IpAddr::V6(0), port: 0 });
    assert_eq!(client_addresses(vec![]), vec![addr(8080), addr(3355)]);
    assert_eq!(client_addresses(vec![addr(5)]), vec![addr(5)]);
    assert_eq!(probing_order(addr(2), &vec![addr(1), addr(2), addr(3)]), vec![addr(2), addr(1), addr(3)]);
}

#[test]
fn ack_eliciting_timers() {
    let ms = 1_000_000u128;
    assert!(ack_eliciting_due(0, 26 * ms, 25));
    assert!(!ack_eliciting_due(0, 25 * ms, 25));
    let mut sent = AddrMap::new();
    sent.insert(addr(1), 0);
    sent.insert(addr(2), 90 * ms);
    sent.insert(addr(3), 10 * ms);
    let mut due = ack_eliciting_paths(&sent, 100 * ms, 25);
    due.sort_by_key(|a| a.port);
    assert_eq!(due, vec![addr(1), addr(3)]);
}

#[test]
fn duplicates() {
    assert_eq!(duplicate_amount(10, 25, 2), Some(15));
    assert_eq!(duplicate_amount(10, 25, 1), None);
    assert_eq!(duplicate_amount(10, 10, 2), None);
}

#[test]
fn tcp_backup_choice() {
    let a = TcpStats { rtt_us: 900, rtt_var_us: 1, retransmits: 0 };
    let b = TcpStats { rtt_us: 500, rtt_var_us: 1, retransmits: 0 };
    assert!(use_backup(&a, &b));
    assert!(!use_backup(&b, &a));
    assert!(!use_backup(&a, &a));
}

fn packet(initial: bool, supported: bool, dcid: &[u8], token: Option<Vec<u8>>) -> InitialPacket {
    InitialPacket { is_initial: initial, version_supported: supported, dcid: dcid.to_vec(), token }
}

fn expected_conn_id(seed: &[u8], dcid: &[u8]) -> Vec<u8> {
    let key = ring::hmac::Key::new(ring::hmac::HMAC_SHA256, seed);
    ring::hmac::sign(&key, dcid).as_ref()[..20].to_vec()
}

#[test]
fn derived_connection_ids() {
    let seed = [5u8; 32];
    let dcid = [1u8; 20];
    let id = derive_conn_id(&seed, &dcid);
    assert_eq!(id.len(), 20);
    assert_eq!(id, expected_conn_id(&seed, &dcid));
    assert_ne!(id, dcid.to_vec());
    assert_ne!(derive_conn_id(&[6u8; 32], &dcid), id);
    let rng = ring::rand::SystemRandom::new();
    assert_eq!(conn_id_seed(&rng).unwrap().len(), CONN_ID_SEED_LEN);
}

#[test]
fn connection_routing() {
    let seed = [5u8; 32];
    let dcid = [1u8; 20];
    let derived = expected_conn_id(&seed, &dcid);
    let mut ids = ConnIdMap::new();
    let (id, known) = lookup_connection(&ids, &seed, &dcid);
    assert_eq!(id, derived);
    assert_eq!(known, None);
    ids.insert(derived.clone(), 3);
    assert_eq!(lookup_connection(&ids, &seed, &dcid).1, Some(3));
    ids.insert(dcid.to_vec(), 4);
    assert_eq!(lookup_connection(&ids, &seed, &dcid).1, Some(4));
    assert_eq!(ids.route(&[9], &derived), Some(3));
    ids.remove(&dcid);
    assert!(!ids.contains(&dcid));
    assert_eq!(ids.get(&derived), Some(3));
    ids.insert(derived.clone(), 7);
    assert_eq!(ids.get(&derived), Some(7));
    ids.remove(&derived);
    assert_eq!(ids.route(&dcid, &derived), None);
}

#[test]
fn bridging_server_initial_packets() {
    let from = addr(5000);
    let seed = [7u8; 32];
    let dcid = [1u8; 20];
    let conn_id = expected_conn_id(&seed, &dcid);
    assert!(matches!(server_initial_action(&packet(false, true, &dcid, None), &from, &seed, false), InitialAction::Drop));
    assert!(matches!(
        server_initial_action(&packet(true, false, &dcid, None), &from, &seed, false),
        InitialAction::NegotiateVersion
    ));
    match server_initial_action(&packet(true, true, &dcid, None), &from, &seed, false) {
        InitialAction::Accept { scid, odcid } => {
            assert_eq!(scid, conn_id);
            assert_eq!(odcid, None);
        },
        _ => panic!("expected accept"),
    }
    match server_initial_action(&packet(true, true, &dcid, Some(vec![])), &from, &seed, true) {
        InitialAction::Retry { token, scid } => {
            assert_eq!(token, mint_token(&dcid, &from));
            assert_eq!(scid, conn_id);
        },
        _ => panic!("expected retry"),
    }
    let token = mint_token(&dcid, &from);
    match server_initial_action(&packet(true, true, &conn_id, Some(token.clone())), &from, &seed, true) {
        InitialAction::Accept { scid, odcid } => {
            assert_eq!(scid, conn_id);
            assert_eq!(odcid, Some(dcid.to_vec()));
        },
        _ => panic!("expected accept"),
    }
    assert!(matches!(
        server_initial_action(
            &packet(true, true, &dcid, Some(token.clone())),
            &SockAddr { ip: IpAddr::V4(0x0a00_0001), port: 5000 },
            &seed,
            true
        ),
        InitialAction::Drop
    ));
    assert!(matches!(
        server_initial_action(&packet(true, true, &dcid, Some(token)), &addr(5001), &seed, true),
        InitialAction::Accept { .. }
    ));
    let short = [1u8; 8];
    let token = mint_token(&short, &from);
    assert!(matches!(
        server_initial_action(&packet(true, true, &short, Some(token)), &from, &seed, true),
        InitialAction::Drop
    ));
}

#[test]
fn stream_server_initial_packets() {
    let from = addr(5000);
    let seed = [7u8; 32];
    let dcid = [3u8; 20];
    let conn_id = expected_conn_id(&seed, &dcid);
    match stream_initial_action(&packet(true, true, &dcid, Some(vec![])), &from, &seed) {
        InitialAction::Retry { token, scid } => {
            assert_eq!(token, mint_token(&dcid, &from));
            assert_eq!(scid, conn_id);
        },
        _ => panic!("expected retry"),
    }
    let token = mint_token(&dcid, &from);
    match stream_initial_action(&packet(true, true, &conn_id, Some(token)), &from, &seed) {
        InitialAction::Accept { scid, odcid } => {
            assert_eq!(scid, conn_id);
            assert_eq!(odcid, Some(dcid.to_vec()));
        },
        _ => panic!("expected accept"),
    }
    let token = mint_token(&[9, 9], &from);
    match stream_initial_action(&packet(true, true, &dcid, Some(token)), &from, &seed) {
        InitialAction::Accept { scid, odcid } => {
            assert_eq!(scid, dcid.to_vec());
            assert_eq!(odcid, Some(vec![9, 9]));
        },
        _ => panic!("expected accept"),
    }
    assert!(matches!(
        stream_initial_action(&packet(true, true, &dcid, Some(b"garbage".to_vec())), &from, &seed),
        InitialAction::Drop
    ));
    let short = [3u8; 8];
    assert!(matches!(
        stream_initial_action(&packet(true, true, &short, Some(mint_token(&short, &from))), &from, &seed),
        InitialAction::Drop
    ));
}

#[test]
fn path_events() {
    let (l, p) = (addr(1), addr(2));
    assert_eq!(server_path_action(&PathEvent::New(l, p), true), PathAction::Probe(l, p));
    assert_eq!(server_path_action(&PathEvent::Validated(l, p), true), PathAction::SetActive(l, p));
    assert_eq!(server_path_action(&PathEvent::Validated(l, p), false), PathAction::Nothing);
    assert_eq!(server_path_action(&PathEvent::PeerPathStatus((l, p), false), true), PathAction::SetStatus(l, p, false));
    assert_eq!(server_path_action(&PathEvent::Closed(l, p, 3), true), PathAction::Nothing);
    assert_eq!(client_path_action(&PathEvent::Validated(l, p), true), PathAction::SetActive(l, p));
    assert_eq!(client_path_action(&PathEvent::PeerPathStatus((l, p), true), true), PathAction::Nothing);
    assert_eq!(client_path_action(&PathEvent::FailedValidation(l, p), true), PathAction::Nothing);
}

#[test]
fn reset_tokens_and_ids() {
    let mut b = [0u8; 16];
    b[15] = 1;
    b[0] = 0x80;
    assert_eq!(reset_token_from_bytes(&b), u128::from_be_bytes(b));
    let bytes: Vec<u8> = (1..=16).collect();
    assert_eq!(reset_token_from_bytes(&bytes), 0x0102030405060708090a0b0c0d0e0f10);
    let rng = ring::rand::SystemRandom::new();
    let (cid, _) = generate_cid_and_reset_token(&rng).unwrap();
    assert_eq!(cid.len(), 20);
    assert_eq!(random_connection_id(&rng).unwrap().len(), 20);
}

#[test]
fn connection_stream_yields_once() {
    let mut s = ConnectionStream::new();
    assert_eq!(s.poll_next(), ConnectionPoll::Connection);
    assert_eq!(s.poll_next(), ConnectionPoll::Pending);
    assert_eq!(s.poll_next(), ConnectionPoll::Pending);
}

#[test]
fn client_table_numbers_and_collects() {
    let seed = [5u8; 32];
    let dcid = [1u8; 20];
    let mut t = ClientTable::new();
    assert_eq!(t.next_id(), 0);
    let (conn_id, known) = t.lookup(&seed, &dcid);
    assert_eq!(known, None);
    assert_eq!(t.register(conn_id.clone()), 0);
    assert_eq!(t.next_id(), 1);
    assert_eq!(t.lookup(&seed, &dcid).1, Some(0));
    t.add_id(vec![9; 20], 0);
    assert_eq!(t.lookup(&seed, &[9; 20]).1, Some(0));
    assert_eq!(t.register(vec![8; 20]), 1);
    t.retire(&[9; 20]);
    assert_eq!(t.lookup(&seed, &[9; 20]).1, None);
    t.add_id(vec![7; 20], 0);
    t.collect(&vec![conn_id.clone(), vec![7; 20]]);
    assert_eq!(t.lookup(&seed, &dcid).1, None);
    assert_eq!(t.lookup(&seed, &[7; 20]).1, None);
    assert_eq!(t.lookup(&seed, &[8; 20]).1, Some(1));
    assert_eq!(t.next_id(), 2);
}

#[test]
fn resumption_decision() {
    assert!(reconnect_after_close(false, true));
    assert!(!reconnect_after_close(true, true));
    assert!(!reconnect_after_close(false, false));
}
