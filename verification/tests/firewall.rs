use shph::firewall::{
    build_linux_killswitch_cleanup_commands, build_linux_killswitch_commands, build_linux_mss_clamp_cleanup_commands,
    build_linux_mss_clamp_commands, build_linux_nat_cleanup_commands, build_linux_nat_commands,
    default_mtu_for_mss_clamp, validate_firewall_interface, validate_peer_allowlist, FirewallTransport,
    PeerEndpoint, KILLSWITCH_TABLE_NAME, MSS_CLAMP_TABLE_NAME, NAT_TABLE_NAME,
};

fn peer(is_ipv6: bool, address: &str, port: u16) -> PeerEndpoint {
    PeerEndpoint { is_ipv6, address: address.to_string(), port }
}

#[test]
fn killswitch_commands_are_argument_bounded() {
    let peers = vec![peer(false, "198.51.100.10", 443), peer(true, "2001:db8::10", 443)];
    let commands =
        build_linux_killswitch_commands("shph0", &peers, FirewallTransport::Tcp).expect("killswitch plan");
    assert!(commands.iter().all(|command| command.first() == Some(&"nft".into())));
    assert!(commands.iter().any(|command| command.iter().any(|part| part == KILLSWITCH_TABLE_NAME)));
    assert!(commands.iter().any(|command| command.iter().any(|part| part == "198.51.100.10")));
    assert!(commands.iter().any(|command| command.iter().any(|part| part == "2001:db8::10")));
}

#[test]
fn killswitch_requires_literal_peer_allowlist() {
    assert!(build_linux_killswitch_commands("shph0", &[], FirewallTransport::Udp).is_err());
    assert!(build_linux_killswitch_commands(
        "shph0\nnft delete table inet filter",
        &[peer(false, "198.51.100.10", 443)],
        FirewallTransport::Tcp
    )
    .is_err());
}

#[test]
fn mss_clamp_commands_are_separate_and_bounded() {
    let commands = build_linux_mss_clamp_commands("shph0", default_mtu_for_mss_clamp()).expect("MSS plan");
    assert!(commands.iter().all(|command| command.iter().any(|part| part == MSS_CLAMP_TABLE_NAME)));
    assert!(build_linux_mss_clamp_commands("shph0", 575).is_err());
    assert_eq!(
        build_linux_mss_clamp_cleanup_commands()[0],
        vec![
            "nft".to_string(),
            "delete".to_string(),
            "table".to_string(),
            "inet".to_string(),
            MSS_CLAMP_TABLE_NAME.to_string()
        ]
    );
    assert_eq!(build_linux_killswitch_cleanup_commands()[0][4], KILLSWITCH_TABLE_NAME);
}

#[test]
fn nat_commands_are_scoped_to_the_tun_interface() {
    let commands = build_linux_nat_commands("shph0").expect("NAT plan");
    assert!(commands.iter().all(|command| command.iter().any(|part| part == NAT_TABLE_NAME)));
    assert!(commands.iter().any(|command| command.iter().any(|part| part == "shph0")));
    assert_eq!(build_linux_nat_cleanup_commands().len(), 2);
}

#[test]
fn peer_rule_lists_family_address_protocol_and_port() {
    let commands =
        build_linux_killswitch_commands("shph0", &[peer(true, "2001:db8::10", 51820)], FirewallTransport::Udp)
            .expect("plan");
    assert_eq!(commands.len(), 5);
    assert_eq!(
        commands[4],
        vec![
            "nft", "add", "rule", "inet", "shph_killswitch", "output", "ip6", "daddr", "2001:db8::10", "udp",
            "dport", "51820", "accept"
        ]
    );
    assert_eq!(commands[3][7], "shph0");
}

#[test]
fn interface_and_peer_checks() {
    assert!(validate_firewall_interface("   ").is_err());
    assert!(validate_firewall_interface("tun\u{7f}").is_err());
    assert!(validate_firewall_interface("shph0").is_ok());
    assert!(validate_peer_allowlist(&[peer(false, "192.0.2.1", 0)]).is_err());
    assert!(validate_peer_allowlist(&[peer(false, "192.0.2.1", 1)]).is_ok());
}
