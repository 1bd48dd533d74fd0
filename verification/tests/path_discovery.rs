use quic_vid::path_discovery::{
    filter_ipv4_candidates, is_usable_alternative, select_candidate, PathCandidate,
};

fn ip(text: &str) -> u32 {
    let octets: Vec<u8> = text.split('.').map(|part| part.parse().unwrap()).collect();
    assert_eq!(octets.len(), 4);
    u32::from_be_bytes([octets[0], octets[1], octets[2], octets[3]])
}

fn candidate(interface_name: &str, local_ip: &str) -> PathCandidate {
    PathCandidate { interface_name: interface_name.to_string(), local_ip: ip(local_ip) }
}

#[test]
fn excludes_current_active_address() {
    let candidates = filter_ipv4_candidates(
        ip("10.0.1.2"),
        vec![candidate("client-eth0", "10.0.1.2"), candidate("client-eth1", "10.0.2.2")],
    );

    assert_eq!(candidates, vec![candidate("client-eth1", "10.0.2.2")]);
}

#[test]
fn excludes_loopback_and_unspecified_addresses() {
    let candidates = filter_ipv4_candidates(
        ip("10.0.1.2"),
        vec![
            candidate("lo", "127.0.0.1"),
            candidate("unknown", "0.0.0.0"),
            candidate("client-eth1", "10.0.2.2"),
        ],
    );

    assert_eq!(candidates, vec![candidate("client-eth1", "10.0.2.2")]);
}

#[test]
fn excludes_broadcast_and_multicast_addresses() {
    let candidates = filter_ipv4_candidates(
        ip("10.0.1.2"),
        vec![
            candidate("broadcast", "255.255.255.255"),
            candidate("multicast", "224.0.0.1"),
            candidate("client-eth1", "10.0.2.2"),
        ],
    );

    assert_eq!(candidates, vec![candidate("client-eth1", "10.0.2.2")]);
}

#[test]
fn sorts_candidates_deterministically_by_address() {
    let candidates = filter_ipv4_candidates(
        ip("10.0.1.2"),
        vec![
            candidate("eth2", "192.168.1.20"),
            candidate("client-eth1", "10.0.2.2"),
            candidate("eth3", "172.20.10.4"),
        ],
    );

    assert_eq!(
        candidates,
        vec![
            candidate("client-eth1", "10.0.2.2"),
            candidate("eth3", "172.20.10.4"),
            candidate("eth2", "192.168.1.20"),
        ]
    );
}

#[test]
fn removes_duplicate_addresses() {
    let candidates = filter_ipv4_candidates(
        ip("10.0.1.2"),
        vec![candidate("eth1", "10.0.2.2"), candidate("eth1-alias", "10.0.2.2")],
    );

    assert_eq!(candidates.len(), 1);

    let expected = ip("10.0.2.2");

    assert_eq!(candidates[0].local_ip, expected);
}

#[test]
fn returns_empty_list_when_no_alternative_exists() {
    let candidates = filter_ipv4_candidates(
        ip("10.0.1.2"),
        vec![candidate("lo", "127.0.0.1"), candidate("client-eth0", "10.0.1.2")],
    );

    assert!(candidates.is_empty());
}

#[test]
fn duplicate_address_keeps_the_least_interface_name() {
    let candidates = filter_ipv4_candidates(
        ip("10.0.1.2"),
        vec![
            candidate("wlan0", "10.0.2.2"),
            candidate("eth9", "10.0.3.3"),
            candidate("eth1", "10.0.2.2"),
            candidate("eth1-alias", "10.0.2.2"),
        ],
    );

    assert_eq!(
        candidates,
        vec![candidate("eth1", "10.0.2.2"), candidate("eth9", "10.0.3.3")]
    );
}

#[test]
fn usable_alternative_follows_the_address_classes() {
    let active = ip("10.0.1.2");

    assert!(is_usable_alternative(active, ip("10.0.2.2")));
    assert!(!is_usable_alternative(active, active));
    assert!(!is_usable_alternative(active, ip("127.255.0.9")));
    assert!(!is_usable_alternative(active, ip("0.0.0.0")));
    assert!(!is_usable_alternative(active, ip("255.255.255.255")));
    assert!(!is_usable_alternative(active, ip("224.0.0.1")));
    assert!(!is_usable_alternative(active, ip("239.255.255.255")));
    assert!(is_usable_alternative(active, ip("240.0.0.1")));
    assert!(is_usable_alternative(active, ip("0.0.0.1")));
    assert!(is_usable_alternative(active, ip("128.0.0.1")));
}

#[test]
fn select_candidate_takes_the_lowest_address() {
    let candidates = filter_ipv4_candidates(
        ip("10.0.1.2"),
        vec![candidate("eth2", "192.168.1.20"), candidate("eth3", "172.20.10.4")],
    );

    assert_eq!(select_candidate(&candidates), Some(&candidate("eth3", "172.20.10.4")));
    assert_eq!(select_candidate(&Vec::new()), None);
}
