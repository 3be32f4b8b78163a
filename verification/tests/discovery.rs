use verishare::discovery::{
    announcement, build_peer_list, discovery_failed, local_ipv4_interfaces, own_id, probe_peer_ip,
    set_self_id,
    start_discovery_loop, Announcer, DiscoveryState, InterfaceAddress, Packet, PeerInfo, ProbeError,
    BROADCAST_ADDR, DISCOVERY_PORT, MULTICAST_ADDR, PEER_TIMEOUT,
};

fn peer(id: &str) -> PeerInfo {
    PeerInfo { id: id.to_string(), name: format!("adı {}", id), port: 53318, ip: None }
}

fn state() -> DiscoveryState {
    DiscoveryState::new("ben".to_string(), "Benim".to_string(), 53318)
}

fn ids(list: &[PeerInfo]) -> Vec<String> {
    list.iter().map(|p| p.id.clone()).collect()
}

#[test]
fn the_constants_are_agreed_on() {
    assert_eq!(MULTICAST_ADDR, [224, 0, 0, 167]);
    assert_eq!(BROADCAST_ADDR, [255, 255, 255, 255]);
    assert_eq!(DISCOVERY_PORT, 53317);
}

#[test]
fn a_program_alone_lists_itself() {
    let list = build_peer_list(&state());
    assert_eq!(list.len(), 1);
    assert_eq!((list[0].id.as_str(), list[0].name.as_str(), list[0].port), ("ben", "Benim", 53318));
    assert_eq!(list[0].ip, None);
}

#[test]
fn somebody_new_is_answered_once() {
    let mut s = state();
    let g = s.heard(peer("o"), "10.0.0.2".to_string(), 5).unwrap();
    assert_eq!(ids(&g.peers), vec!["o", "ben"]);
    assert_eq!(g.peers[0].ip.as_deref(), Some("10.0.0.2"));
    assert_eq!((g.reply.id.as_str(), g.reply.name.as_str(), g.reply.port), ("ben", "Benim", 53318));
    assert_eq!(g.reply.ip, None);

    assert!(s.heard(peer("o"), "10.0.0.3".to_string(), 6).is_none());
    let list = build_peer_list(&s);
    assert_eq!(ids(&list), vec!["o", "ben"]);
    assert_eq!(list[0].ip.as_deref(), Some("10.0.0.3"));
}

#[test]
fn ones_own_voice_is_passed_over() {
    let mut s = state();
    assert!(s.heard(peer("ben"), "10.0.0.1".to_string(), 5).is_none());
    assert_eq!(build_peer_list(&s).len(), 1);
}

#[test]
fn the_address_comes_from_the_packet() {
    let mut s = state();
    let mut p = peer("o");
    p.ip = Some("1.2.3.4".to_string());
    s.heard(p, "10.0.0.9".to_string(), 0);
    assert_eq!(build_peer_list(&s)[0].ip.as_deref(), Some("10.0.0.9"));
}

#[test]
fn those_that_fall_silent_are_forgotten() {
    let mut s = state();
    s.heard(peer("a"), "10.0.0.2".to_string(), 0);
    s.heard(peer("b"), "10.0.0.3".to_string(), 1);
    s.prune(PEER_TIMEOUT - 1);
    assert_eq!(build_peer_list(&s).len(), 3);
    s.prune(PEER_TIMEOUT);
    assert_eq!(ids(&build_peer_list(&s)), vec!["b", "ben"]);
    assert!(s.heard(peer("a"), "10.0.0.2".to_string(), PEER_TIMEOUT).is_some());
    s.prune(0);
    assert_eq!(build_peer_list(&s).len(), 3);
}

#[test]
fn two_programs_find_each_other() {
    let mut a = DiscoveryState::new("a".to_string(), "A".to_string(), 1);
    let mut b = DiscoveryState::new("b".to_string(), "B".to_string(), 2);
    let g = b.heard(a.own_info(), "10.0.0.1".to_string(), 1).unwrap();
    let h = a.heard(g.reply, "10.0.0.2".to_string(), 2).unwrap();
    assert!(b.heard(h.reply, "10.0.0.1".to_string(), 3).is_none());
    assert_eq!(ids(&build_peer_list(&a)), vec!["b", "a"]);
    assert_eq!(ids(&build_peer_list(&b)), vec!["a", "b"]);
}

#[test]
fn discovery_begins_once() {
    let mut running = false;
    let s = start_discovery_loop(&mut running, "i".to_string(), "n".to_string(), 7).unwrap();
    assert!(running);
    assert_eq!((s.id.as_str(), s.name.as_str(), s.port, s.peers.len()), ("i", "n", 7, 0));
    assert!(start_discovery_loop(&mut running, "i".to_string(), "n".to_string(), 7).is_none());
    assert!(running);
    discovery_failed(&mut running);
    assert!(!running);
    assert!(start_discovery_loop(&mut running, "j".to_string(), "n".to_string(), 7).is_some());
    let mut own = None;
    set_self_id(&mut own, "i".to_string());
    assert_eq!(own.as_deref(), Some("i"));
}

#[test]
fn announcements_go_out_of_every_interface() {
    let list = [
        InterfaceAddress::V4([127, 0, 0, 1]),
        InterfaceAddress::V4([192, 168, 1, 5]),
        InterfaceAddress::V6([0; 16]),
        InterfaceAddress::V4([10, 8, 0, 2]),
        InterfaceAddress::V4([127, 200, 1, 1]),
    ];
    let ways = local_ipv4_interfaces(&list);
    assert_eq!(ways, vec![[192, 168, 1, 5], [10, 8, 0, 2]]);
    assert_eq!(
        announcement(&ways),
        vec![
            Packet { via: Some([192, 168, 1, 5]), to: MULTICAST_ADDR },
            Packet { via: Some([10, 8, 0, 2]), to: MULTICAST_ADDR },
            Packet { via: None, to: BROADCAST_ADDR },
        ]
    );
}

#[test]
fn without_interfaces_the_group_is_tried() {
    assert!(local_ipv4_interfaces(&[]).is_empty());
    assert_eq!(announcement(&[]), vec![Packet { via: None, to: MULTICAST_ADDR }]);
}

#[test]
fn announcements_come_in_bursts_and_then_steadily() {
    let mut a = Announcer::new();
    for k in 0..5 {
        assert_eq!(a, Announcer::Opening(k));
        let r = a.round();
        assert_eq!((r.prune, r.wait, r.wakes), (false, 400, false));
        a = a.next(false);
    }
    let r = a.round();
    assert_eq!((r.prune, r.wait, r.wakes), (true, 2000, true));
    assert_eq!(a.next(false), Announcer::Steady);
    a = a.next(true);
    for k in 0..5 {
        assert_eq!(a, Announcer::Asked(k));
        let r = a.round();
        assert_eq!((r.prune, r.wait, r.wakes), (false, 200, false));
        a = a.next(false);
    }
    assert_eq!(a, Announcer::Steady);
}

fn error(r: Result<verishare::discovery::Probe, ProbeError>) -> ProbeError {
    match r {
        Ok(_) => panic!("no error"),
        Err(e) => e,
    }
}

#[test]
fn an_address_is_tried_once_discovery_runs() {
    let me = peer("ben");
    let p = match probe_peer_ip(true, Some(&me), " 192.168.0.7 ") {
        Ok(p) => p,
        Err(_) => panic!("a good address"),
    };
    assert_eq!(p.to, [192, 168, 0, 7]);
    assert_eq!((p.info.id.as_str(), p.info.ip), ("ben", None));

    assert_eq!(error(probe_peer_ip(false, Some(&me), "1.2.3.4")), ProbeError::NotStarted);
    assert_eq!(error(probe_peer_ip(false, None, "x")), ProbeError::NotStarted);
    assert_eq!(error(probe_peer_ip(true, None, "1.2.3.4")), ProbeError::NotReady);
    assert_eq!(error(probe_peer_ip(true, Some(&me), "1.2.3")), ProbeError::BadAddress);
    assert_eq!(ProbeError::NotStarted.message(), "Keşif henüz başlatılmadı.");
    assert_eq!(ProbeError::NotReady.message(), "Kendi kimliğimiz henüz hazır değil.");
    assert_eq!(ProbeError::BadAddress.message(), "Geçersiz IP adresi.");
}

#[test]
fn a_copy_of_an_info_is_the_same() {
    let mut p = peer("x");
    p.ip = Some("10.0.0.4".to_string());
    let q = p.clone();
    assert_eq!((q.id, q.name, q.port, q.ip), (p.id, p.name, p.port, p.ip));
}

#[test]
fn a_program_that_runs_keeps_its_identifier() {
    let own = Some("eski".to_string());
    assert_eq!(own_id(true, &own, "yeni".to_string()), "eski");
    assert_eq!(own_id(false, &own, "yeni".to_string()), "yeni");
    assert_eq!(own_id(true, &None, "yeni".to_string()), "yeni");
}
