use futures::sync::mpsc::{channel, Receiver};
use futures::Stream;
use mu_proto::config::{gs_entry, parse_u16, ConfigError, GsEntry};
use mu_proto::handler::{Event, GSInstance, Handler, LIVENESS_WINDOW_MS};
use mu_proto::packet::MuPacket;
use mu_proto::protocol::{Protocol, ServerInfo, ServerList};
use mu_proto::reconnect::{LinkAction, LinkEvent, LinkState, Reconnector, RECONNECT_DELAY_MS};
use mu_proto::session::{NetworkError, OriginKind, SessionIds, SessionRef, SessionRegistry};

fn instance(usr_cnt: u16, mx_usr_cnt: u16, last_seen: Option<u64>) -> GSInstance {
    GSInstance {
        svr_code: 1,
        ip: [0; 16],
        port: 0,
        perc: 0,
        usr_cnt,
        acc_cnt: 0,
        mx_usr_cnt,
        last_seen,
    }
}

fn report(svr_code: u16, usr_cnt: u16, mx_usr_cnt: u16) -> MuPacket {
    ServerInfo {
        svr_code,
        ip: [0; 16],
        port: 55901,
        perc: 0,
        usr_cnt,
        acc_cnt: 0,
        mx_usr_cnt,
    }
    .to_packet()
}

fn session(reg: &mut SessionRegistry, id: u32, kind: OriginKind, cap: usize) -> Receiver<MuPacket> {
    let (tx, rx) = channel(cap);
    assert!(reg.insert(SessionRef::new(id, kind, tx)));
    rx
}

/// Everything a session's queue holds, once the registry is gone.
fn drain(rx: Receiver<MuPacket>) -> Vec<MuPacket> {
    rx.wait().map(|r| r.unwrap()).collect()
}

fn list_entries(p: &MuPacket) -> Vec<(u16, u8)> {
    assert_eq!(p.code(), 0xF4);
    assert_eq!(p.sub_code(), Some(0x06));
    ServerList::parse(p.data()).unwrap().entries().clone()
}

#[test]
fn load_is_a_whole_percentage() {
    assert_eq!(instance(0, 100, None).load(), 0);
    assert_eq!(instance(50, 100, None).load(), 50);
    assert_eq!(instance(33, 100, None).load(), 33);
    assert_eq!(instance(80, 100, None).load(), 80);
    assert_eq!(instance(1, 3, None).load(), 33);
    assert_eq!(instance(100, 100, None).load(), 100);
    assert_eq!(instance(300, 100, None).load(), 255);
}

#[test]
fn load_with_zero_capacity_is_zero() {
    assert_eq!(instance(0, 0, None).load(), 0);
    assert_eq!(instance(65535, 0, None).load(), 0);
}

#[test]
fn liveness_window() {
    assert!(!instance(0, 0, None).alive(0));
    assert!(instance(0, 0, Some(1000)).alive(1000 + LIVENESS_WINDOW_MS - 1));
    assert!(!instance(0, 0, Some(1000)).alive(1000 + LIVENESS_WINDOW_MS));
    assert!(instance(0, 0, Some(5000)).alive(4000));
}

#[test]
fn stale_server_leaves_list_not_table() {
    let mut reg = SessionRegistry::new();
    let mut h = Handler::new();
    h.handle(Event::ClientPacket(9, OriginKind::GameServer, report(1, 10, 100)), 0, &mut reg);
    h.handle(Event::ClientPacket(10, OriginKind::GameServer, report(2, 20, 100)), 5_000, &mut reg);
    let pkt = h.new_server_list_pkt(12_000).unwrap();
    assert_eq!(list_entries(&pkt), vec![(2, 20)]);
    assert_eq!(h.gs_count(), 2);
    assert!(h.new_server_list_pkt(15_000).is_none());
    assert_eq!(h.gs_count(), 2);
}

#[test]
fn no_list_when_no_server_alive() {
    let mut reg = SessionRegistry::new();
    let rx = session(&mut reg, 1, OriginKind::Client, 10);
    let mut h = Handler::new();
    assert!(h.register_gs(3, [0; 16], 55901));
    assert!(h.new_server_list_pkt(100_000).is_none());
    let closed = h.handle(Event::ClientConnected(1, OriginKind::Client), 100_000, &mut reg);
    assert!(closed.is_empty());
    assert_eq!(h.client_ids(), &vec![1]);
    drop(reg);
    let got = drain(rx);
    assert_eq!(got.len(), 1);
    assert_eq!(got[0].to_bytes(), vec![0xC1, 0x04, 0x00, 0x01]);
}

#[test]
fn client_onboarding() {
    let mut reg = SessionRegistry::new();
    let rx = session(&mut reg, 1, OriginKind::Client, 10);
    let mut h = Handler::new();
    h.handle(Event::ClientPacket(7, OriginKind::GameServer, report(4, 25, 50)), 1_000, &mut reg);
    h.handle(Event::ClientPacket(8, OriginKind::GameServer, report(6, 0, 0)), 1_000, &mut reg);
    let closed = h.handle(Event::ClientConnected(1, OriginKind::Client), 2_000, &mut reg);
    assert!(closed.is_empty());
    assert_eq!(h.client_ids(), &vec![1]);
    drop(reg);
    let got = drain(rx);
    assert_eq!(got.len(), 2);
    assert_eq!(got[0].to_bytes(), vec![0xC1, 0x04, 0x00, 0x01]);
    let mut entries = list_entries(&got[1]);
    entries.sort();
    assert_eq!(entries, vec![(4, 50), (6, 0)]);
}

#[test]
fn onboarding_fails_without_session() {
    let mut reg = SessionRegistry::new();
    let mut h = Handler::new();
    let closed = h.handle(Event::ClientConnected(5, OriginKind::Client), 0, &mut reg);
    assert_eq!(closed, vec![5]);
    assert!(h.client_ids().is_empty());
}

#[test]
fn server_update_fans_out() {
    let mut reg = SessionRegistry::new();
    let rx1 = session(&mut reg, 1, OriginKind::Client, 10);
    let rx2 = session(&mut reg, 2, OriginKind::Client, 10);
    let _gs = session(&mut reg, 3, OriginKind::GameServer, 10);
    let mut h = Handler::new();
    h.handle(Event::ClientConnected(1, OriginKind::Client), 0, &mut reg);
    h.handle(Event::ClientConnected(2, OriginKind::Client), 0, &mut reg);
    h.handle(Event::ClientConnected(3, OriginKind::GameServer), 0, &mut reg);
    let closed = h.handle(Event::ClientPacket(3, OriginKind::GameServer, report(1, 80, 100)), 10, &mut reg);
    assert!(closed.is_empty());
    drop(reg);
    for rx in vec![rx1, rx2] {
        let got = drain(rx);
        assert_eq!(got.len(), 2);
        assert_eq!(list_entries(&got[1]), vec![(1, 80)]);
    }
}

#[test]
fn broadcast_partial_failure() {
    let mut reg = SessionRegistry::new();
    let rx1 = session(&mut reg, 1, OriginKind::Client, 10);
    let rx2 = session(&mut reg, 2, OriginKind::Client, 10);
    // room for one packet only: the connect answer fills it
    let rx3 = session(&mut reg, 3, OriginKind::Client, 0);
    let mut h = Handler::new();
    for id in 1..4 {
        assert!(h.handle(Event::ClientConnected(id, OriginKind::Client), 0, &mut reg).is_empty());
    }
    let closed = h.handle(Event::ClientPacket(9, OriginKind::GameServer, report(1, 80, 100)), 10, &mut reg);
    assert_eq!(closed, vec![3]);
    assert_eq!(reg.send(3, report(1, 0, 0)), Err(NetworkError::SessionSendError));
    // the handler goes on with later events
    h.handle(Event::ClientDisconnected(3, OriginKind::Client), 20, &mut reg);
    assert_eq!(h.client_ids(), &vec![1, 2]);
    assert!(h.handle(Event::ClientPacket(9, OriginKind::GameServer, report(1, 90, 100)), 30, &mut reg).is_empty());
    drop(reg);
    for rx in vec![rx1, rx2] {
        let got = drain(rx);
        assert_eq!(got.len(), 3);
        assert_eq!(list_entries(&got[1]), vec![(1, 80)]);
        assert_eq!(list_entries(&got[2]), vec![(1, 90)]);
    }
    assert_eq!(drain(rx3).len(), 1);
}

#[test]
fn server_reconnect_keeps_entry() {
    let mut ids = SessionIds::new();
    let mut reg = SessionRegistry::new();
    let mut h = Handler::new();
    let mut link = Reconnector::new("127.0.0.1".to_string(), 55557, OriginKind::GameServer);
    let first = ids.allocate().unwrap();
    assert_eq!(link.on_event(LinkEvent::ConnectSucceeded(first)), LinkAction::Nothing);
    h.handle(Event::ClientConnected(first, OriginKind::GameServer), 0, &mut reg);
    h.handle(Event::ClientPacket(first, OriginKind::GameServer, report(1, 40, 100)), 0, &mut reg);
    let before = h.get_gs(0);
    assert_eq!(link.on_event(LinkEvent::Dropped), LinkAction::Sleep(RECONNECT_DELAY_MS));
    h.handle(Event::ClientDisconnected(first, OriginKind::GameServer), 100, &mut reg);
    assert_eq!(link.on_event(LinkEvent::DelayElapsed), LinkAction::Connect);
    assert_eq!(link.on_event(LinkEvent::ConnectFailed), LinkAction::Sleep(RECONNECT_DELAY_MS));
    assert_eq!(link.on_event(LinkEvent::DelayElapsed), LinkAction::Connect);
    let second = ids.allocate().unwrap();
    assert_ne!(second, first);
    assert_eq!(link.on_event(LinkEvent::ConnectSucceeded(second)), LinkAction::Nothing);
    assert_eq!(link.state(), LinkState::Connected(second));
    h.handle(Event::ClientConnected(second, OriginKind::GameServer), 2_000, &mut reg);
    assert_eq!(h.gs_count(), 1);
    let after = h.get_gs(0);
    assert_eq!((after.svr_code, after.usr_cnt, after.last_seen), (before.svr_code, before.usr_cnt, before.last_seen));
    h.handle(Event::ClientPacket(second, OriginKind::GameServer, report(1, 60, 100)), 2_500, &mut reg);
    assert_eq!(h.get_gs(0).usr_cnt, 60);
    assert_eq!(h.get_gs(0).last_seen, Some(2_500));
}

#[test]
fn unmatched_link_events_change_nothing() {
    let mut link = Reconnector::new("10.0.0.1".to_string(), 1, OriginKind::GameServer);
    assert_eq!(link.on_event(LinkEvent::Dropped), LinkAction::Nothing);
    assert_eq!(link.state(), LinkState::Connecting);
    assert_eq!(link.on_event(LinkEvent::DelayElapsed), LinkAction::Nothing);
    assert_eq!(link.state(), LinkState::Connecting);
}

#[test]
fn client_packets_and_unknown_codes_are_ignored() {
    let mut reg = SessionRegistry::new();
    let rx = session(&mut reg, 1, OriginKind::Client, 10);
    let mut h = Handler::new();
    h.handle(Event::ClientConnected(1, OriginKind::Client), 0, &mut reg);
    // a client cannot register a game server
    h.handle(Event::ClientPacket(1, OriginKind::Client, report(1, 1, 2)), 0, &mut reg);
    assert_eq!(h.gs_count(), 0);
    let unknown = MuPacket::new(&[0xC1, 0x04, 0x33, 0x00]).unwrap();
    assert!(h.handle(Event::ClientPacket(2, OriginKind::GameServer, unknown), 0, &mut reg).is_empty());
    let short = MuPacket::new(&[0xC1, 0x05, 0x01, 0x00, 0x01]).unwrap();
    assert!(h.handle(Event::ClientPacket(2, OriginKind::GameServer, short), 0, &mut reg).is_empty());
    assert_eq!(h.gs_count(), 0);
    drop(reg);
    assert_eq!(drain(rx).len(), 1);
}

#[test]
fn registry_routing() {
    let mut reg = SessionRegistry::new();
    assert_eq!(reg.send(4, MuPacket::empty()), Err(NetworkError::SessionNotFound));
    let rx = session(&mut reg, 4, OriginKind::Client, 10);
    let (tx, _rx_dup) = channel(1);
    assert!(!reg.insert(SessionRef::new(4, OriginKind::Client, tx)));
    assert!(reg.contains(4));
    assert_eq!(reg.len(), 1);
    assert_eq!(reg.send(4, report(1, 1, 1)), Ok(()));
    assert_eq!(reg.close(4), Ok(()));
    let removed = reg.remove(4).unwrap();
    assert_eq!(removed.id, 4);
    assert!(reg.remove(4).is_none());
    assert!(!reg.contains(4));
    drop(removed);
    let got = drain(rx);
    assert_eq!(got.len(), 2);
    assert!(got[1].is_empty());
}

#[test]
fn registry_broadcast_reports_failures() {
    let mut reg = SessionRegistry::new();
    let rx1 = session(&mut reg, 1, OriginKind::Client, 10);
    let rx2 = session(&mut reg, 2, OriginKind::GameServer, 10);
    drop(rx2);
    assert_eq!(reg.id_list(), vec![1, 2]);
    let failed = reg.broadcast(&report(1, 1, 1));
    assert_eq!(failed, vec![2]);
    assert!(reg.contains(2));
    let mut s = reg.remove(2).unwrap();
    assert_eq!(s.send(MuPacket::empty()), Err(NetworkError::SessionDisconnected));
    drop(reg);
    assert_eq!(drain(rx1).len(), 1);
}

#[test]
fn session_ids_count_up() {
    let mut ids = SessionIds::new();
    assert_eq!(ids.allocate(), Some(1));
    assert_eq!(ids.allocate(), Some(2));
    assert_eq!(ids.allocate(), Some(3));
}

#[test]
fn decimal_fields() {
    assert_eq!(parse_u16(b"55901"), Some(55901));
    assert_eq!(parse_u16(b"+7"), Some(7));
    assert_eq!(parse_u16(b"007"), Some(7));
    assert_eq!(parse_u16(b"65535"), Some(65535));
    assert_eq!(parse_u16(b"65536"), None);
    assert_eq!(parse_u16(b"999999"), None);
    assert_eq!(parse_u16(b""), None);
    assert_eq!(parse_u16(b"+"), None);
    assert_eq!(parse_u16(b"-1"), None);
    assert_eq!(parse_u16(b"1x"), None);
    for s in ["0", "12", "+65535", "65536", "x", " 1"] {
        assert_eq!(parse_u16(s.as_bytes()), s.parse::<u16>().ok(), "{}", s);
    }
}

#[test]
fn config_entries() {
    let e = gs_entry("gs-3", Some("127.0.0.1"), Some("55901")).unwrap().unwrap();
    assert_eq!(e.svr_code, 3);
    assert_eq!(e.port, 55901);
    assert_eq!(&e.ip[..9], b"127.0.0.1");
    assert_eq!(&e.ip[9..], &[0u8; 7]);
    assert!(gs_entry("network", None, None).unwrap().is_none());
    assert_eq!(gs_entry("gs-1", None, Some("1")).unwrap_err(), ConfigError::MissingAddr);
    assert_eq!(gs_entry("gs-1", Some("a"), None).unwrap_err(), ConfigError::MissingPort);
    assert_eq!(gs_entry("gs-1-2", Some("a"), Some("1")).unwrap_err(), ConfigError::InvalidSectionName);
    assert_eq!(gs_entry("gs-x", Some("a"), Some("1")).unwrap_err(), ConfigError::InvalidSectionName);
    assert_eq!(
        gs_entry("gs-1", Some("0123456789abcdef"), Some("1")).unwrap_err(),
        ConfigError::InvalidAddr
    );
    assert_eq!(gs_entry("gs-1", Some("a"), Some("port")).unwrap_err(), ConfigError::InvalidPort);
}

#[test]
fn setup_loads_dead_servers() {
    let mut h = Handler::new();
    assert_eq!(h.setup(&vec![]), Err(ConfigError::NoGameServers));
    let entries = vec![
        GsEntry { svr_code: 1, ip: [1; 16], port: 10 },
        GsEntry { svr_code: 2, ip: [2; 16], port: 20 },
    ];
    assert_eq!(h.setup(&entries), Ok(()));
    assert_eq!(h.gs_count(), 2);
    assert_eq!(h.get_gs(1).port, 20);
    assert_eq!(h.get_gs(0).last_seen, None);
    assert!(h.new_server_list_pkt(0).is_none());
}

#[test]
fn sessions_compare_by_id() {
    let (tx1, _rx1) = channel(1);
    let (tx2, _rx2) = channel(5);
    let (tx3, _rx3) = channel(1);
    let a = SessionRef::new(8, OriginKind::Client, tx1);
    let b = SessionRef::new(8, OriginKind::Client, tx2);
    let c = SessionRef::new(9, OriginKind::Client, tx3);
    assert!(a == b);
    assert!(a != c);
}
