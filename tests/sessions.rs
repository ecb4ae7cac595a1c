use ascii_chat::control::{handle_join, handle_leave, Reply};
use ascii_chat::sessions::{Host, PeerAddr, SessionManager};

fn addr(host: u32, port: u16) -> PeerAddr {
    PeerAddr { host: Host::V4(host), port }
}

const LOCAL: u32 = 0x7F00_0001;

#[test]
fn third_client_is_refused() {
    let mut m: SessionManager<u32> = SessionManager::new();
    m.ensure_session("room-1");
    assert!(m.add_client("room-1", addr(LOCAL, 1000), 1));
    assert!(m.add_client("room-1", addr(LOCAL, 1001), 2));
    assert!(!m.add_client("room-1", addr(LOCAL, 1002), 3));
    assert!(m.session_full("room-1"));
    assert!(!m.add_client("room-2", addr(LOCAL, 1003), 4));
}

#[test]
fn a_member_cannot_join_twice() {
    let mut m: SessionManager<u32> = SessionManager::new();
    m.ensure_session("a");
    m.ensure_session("b");
    assert!(m.add_client("a", addr(LOCAL, 1000), 1));
    assert!(!m.add_client("b", addr(LOCAL, 1000), 1));
    assert_eq!(m.session_id_for(addr(LOCAL, 1000)), Some("a".to_string()));
}

#[test]
fn session_pairing_sends_one_connect_and_forwards() {
    let mut m: SessionManager<u32> = SessionManager::new();
    let (ta, ua) = (addr(LOCAL, 5000), addr(LOCAL, 6000));
    let (tb, ub) = (addr(LOCAL, 5001), addr(LOCAL, 6001));
    assert_eq!(handle_join(&mut m, "room-1", ta, 1), Reply::Joined);
    let first = m.relay_datagram(ua);
    assert_eq!(first.forward_to, None);
    assert!(first.connect.is_none());
    assert_eq!(m.tcp_for_udp(ua), Some(ta));
    assert_eq!(handle_join(&mut m, "room-1", tb, 2), Reply::Joined);
    let second = m.relay_datagram(ub);
    assert_eq!(second.forward_to, Some(ua));
    let notice = second.connect.expect("connect on pairing");
    assert_eq!(notice.session_id, "room-1");
    assert_eq!(notice.src_reliable, tb);
    assert_eq!(notice.dst_reliable, ta);
    assert_eq!(m.notify_peer(tb), Some(&1));
    assert_eq!(m.notify_peer(ta), Some(&2));
    assert!(m.is_connected("room-1"));
    let frame = m.relay_datagram(ua);
    assert_eq!(frame.forward_to, Some(ub));
    assert!(frame.connect.is_none());
    assert_eq!(m.get_peer_udp(ua), Some(ub));
    assert_eq!(m.get_peer_udp(ub), Some(ua));
    assert_eq!(m.get_peer_udp_from_tcp(ta), Some(ub));
}

#[test]
fn session_full_reply_keeps_connection_usable() {
    let mut m: SessionManager<u32> = SessionManager::new();
    assert_eq!(handle_join(&mut m, "room-1", addr(LOCAL, 1), 1), Reply::Joined);
    assert_eq!(handle_join(&mut m, "room-1", addr(LOCAL, 2), 2), Reply::Joined);
    assert_eq!(handle_join(&mut m, "room-1", addr(LOCAL, 3), 3), Reply::SessionFull);
    assert_eq!(Reply::SessionFull.line(), "ERROR: session full\n");
    assert_eq!(handle_leave(&mut m, addr(LOCAL, 3)), Reply::Left);
    assert_eq!(Reply::Left.line(), "OK: left session\n");
    assert!(m.session_full("room-1"));
}

#[test]
fn peer_leave_notifies_survivor_and_drops_its_datagrams() {
    let mut m: SessionManager<u32> = SessionManager::new();
    let (ta, ua) = (addr(LOCAL, 5000), addr(LOCAL, 6000));
    let (tb, ub) = (addr(LOCAL, 5001), addr(LOCAL, 6001));
    handle_join(&mut m, "room-1", ta, 1);
    m.relay_datagram(ua);
    handle_join(&mut m, "room-1", tb, 2);
    m.relay_datagram(ub);
    assert_eq!(m.notify_peer(ta), Some(&2));
    assert_eq!(handle_leave(&mut m, ta), Reply::Left);
    assert!(!m.is_connected("room-1"));
    assert_eq!(m.notify_peer(tb), None);
    let after = m.relay_datagram(ub);
    assert_eq!(after.forward_to, None);
    assert!(after.connect.is_none());
}

#[test]
fn removing_the_last_member_destroys_the_session() {
    let mut m: SessionManager<u32> = SessionManager::new();
    let (ta, ua) = (addr(LOCAL, 5000), addr(LOCAL, 6000));
    let (tb, ub) = (addr(LOCAL, 5001), addr(LOCAL, 6001));
    handle_join(&mut m, "room-1", ta, 1);
    m.map_udp_to_tcp(ua);
    handle_join(&mut m, "room-1", tb, 2);
    m.map_udp_to_tcp(ub);
    m.remove_client(ta);
    m.remove_client(tb);
    assert_eq!(m.get_peer_udp(ua), None);
    assert_eq!(m.get_peer_udp(ub), None);
    assert_eq!(m.session_id_for(tb), None);
    assert!(!m.session_full("room-1"));
    assert!(!m.add_client("room-1", ta, 1));
}

#[test]
fn several_candidates_leave_the_address_unbound() {
    let mut m: SessionManager<u32> = SessionManager::new();
    handle_join(&mut m, "room-1", addr(LOCAL, 5000), 1);
    handle_join(&mut m, "room-1", addr(LOCAL, 5001), 2);
    m.map_udp_to_tcp(addr(LOCAL, 6000));
    assert_eq!(m.tcp_for_udp(addr(LOCAL, 6000)), None);
    // a member on another host is matched by host alone
    handle_join(&mut m, "room-2", addr(0x0A00_0001, 5000), 3);
    m.map_udp_to_tcp(addr(0x0A00_0001, 7777));
    assert_eq!(m.tcp_for_udp(addr(0x0A00_0001, 7777)), Some(addr(0x0A00_0001, 5000)));
    // no member on this host
    m.map_udp_to_tcp(addr(0x0B00_0001, 1));
    assert_eq!(m.tcp_for_udp(addr(0x0B00_0001, 1)), None);
}

#[test]
fn connect_latch_is_cleared_when_a_member_leaves() {
    let mut m: SessionManager<u32> = SessionManager::new();
    let (ta, ua) = (addr(LOCAL, 5000), addr(LOCAL, 6000));
    let (tb, ub) = (addr(LOCAL, 5001), addr(LOCAL, 6001));
    handle_join(&mut m, "r", ta, 1);
    m.relay_datagram(ua);
    handle_join(&mut m, "r", tb, 2);
    assert!(m.relay_datagram(ub).connect.is_some());
    assert!(m.relay_datagram(ub).connect.is_none());
    m.remove_client(tb);
    let (tc, uc) = (addr(LOCAL, 5002), addr(LOCAL, 6002));
    handle_join(&mut m, "r", tc, 3);
    let again = m.relay_datagram(uc);
    assert!(again.connect.is_some());
    assert_eq!(again.forward_to, Some(ua));
    m.mark_connected("r");
    assert!(m.is_connected("r"));
}
