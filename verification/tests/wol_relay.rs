use deploy_agent::adapters::{
    is_virtual_adapter, local_subnets, matches_virtual_keyword, primary_ipv4, AdapterKind, Ipv4Net, NetInterface,
};
use deploy_agent::ipv4::{broadcast_address, ignored_ipv4, ipv4_from_octets, ipv4_to_string, subnet_key_of};
use deploy_agent::number::parse_unsigned_chars;
use deploy_agent::wake::{
    bound_targets, broadcast_outcome, create_magic_packet, parse_mac, subnet_candidates, unbound_targets, WakeTarget,
    GLOBAL_BROADCAST,
};

fn ip(a: u8, b: u8, c: u8, d: u8) -> u32 {
    (u32::from(a) << 24) | (u32::from(b) << 16) | (u32::from(c) << 8) | u32::from(d)
}

fn net(addr: u32, mask: u32) -> Ipv4Net {
    Ipv4Net { addr, netmask: mask }
}

fn iface(name: &str, desc: Option<&str>, kind: AdapterKind, nets: Vec<Ipv4Net>) -> NetInterface {
    NetInterface {
        name: name.to_string(),
        friendly_name: None,
        description: desc.map(|d| d.to_string()),
        if_type: kind,
        ipv4: nets,
    }
}

fn chars(s: &str) -> Vec<char> {
    s.chars().collect()
}

#[test]
fn hex_octets_parse_like_from_str_radix() {
    assert_eq!(parse_unsigned_chars(&chars("ff"), 16, 255), Some(255));
    assert_eq!(parse_unsigned_chars(&chars("0A"), 16, 255), Some(10));
    assert_eq!(parse_unsigned_chars(&chars("+f"), 16, 255), Some(15));
    assert_eq!(parse_unsigned_chars(&chars("000ff"), 16, 255), Some(255));
    assert_eq!(parse_unsigned_chars(&chars("100"), 16, 255), None);
    assert_eq!(parse_unsigned_chars(&chars("+"), 16, 255), None);
    assert_eq!(parse_unsigned_chars(&chars("-1"), 16, 255), None);
    assert_eq!(parse_unsigned_chars(&chars(""), 16, 255), None);
    assert_eq!(parse_unsigned_chars(&chars("g"), 16, 255), None);
    for s in ["ff", "0A", "+f", "000ff", "100", "+", "-1", "", "g", "++1", " 1"] {
        assert_eq!(parse_unsigned_chars(&chars(s), 16, 255), u8::from_str_radix(s, 16).ok().map(u32::from), "{s}");
    }
}

#[test]
fn decimal_numbers_parse_like_str_parse() {
    for s in ["0", "42", "+7", "4294967295", "4294967296", "-0", "", "1a", "007"] {
        assert_eq!(parse_unsigned_chars(&chars(s), 10, u32::MAX), s.parse::<u32>().ok(), "{s}");
    }
}

#[test]
fn ignored_addresses_are_loopback_link_local_or_unspecified() {
    assert!(ignored_ipv4(ip(127, 0, 0, 1)));
    assert!(ignored_ipv4(ip(127, 255, 3, 4)));
    assert!(ignored_ipv4(ip(169, 254, 10, 20)));
    assert!(ignored_ipv4(ip(0, 0, 0, 0)));
    assert!(!ignored_ipv4(ip(169, 253, 1, 1)));
    assert!(!ignored_ipv4(ip(10, 0, 2, 15)));
    assert!(!ignored_ipv4(ip(192, 168, 1, 20)));
}

#[test]
fn addresses_print_in_dotted_decimal() {
    assert_eq!(subnet_key_of(ip(192, 168, 1, 20)), "192.168.1");
    assert_eq!(subnet_key_of(ip(10, 0, 2, 15)), "10.0.2");
    assert_eq!(ipv4_to_string(ip(192, 168, 1, 20)), "192.168.1.20");
    assert_eq!(ipv4_to_string(ip(0, 0, 0, 0)), "0.0.0.0");
    assert_eq!(ipv4_to_string(ip(255, 255, 255, 255)), "255.255.255.255");
    assert_eq!(ipv4_from_octets(10, 1, 2, 3), ip(10, 1, 2, 3));
}

#[test]
fn broadcast_sets_every_host_bit() {
    assert_eq!(broadcast_address(ip(192, 168, 1, 20), ip(255, 255, 255, 0)), ip(192, 168, 1, 255));
    assert_eq!(broadcast_address(ip(10, 0, 2, 15), ip(255, 255, 0, 0)), ip(10, 0, 255, 255));
    assert_eq!(broadcast_address(ip(10, 0, 2, 15), ip(255, 255, 252, 0)), ip(10, 0, 3, 255));
}

#[test]
fn virtual_adapters_are_recognised_by_keyword() {
    assert!(matches_virtual_keyword("vmware network adapter vmnet8"));
    assert!(matches_virtual_keyword("xen"));
    assert!(!matches_virtual_keyword("intel(r) ethernet connection"));
    assert!(!matches_virtual_keyword(""));
    assert!(is_virtual_adapter("vEthernet (WSL)", "Hyper-V Virtual Ethernet Adapter", ""));
    assert!(is_virtual_adapter("Ethernet 2", "VirtualBox Host-Only Ethernet Adapter", "Ethernet 2"));
    assert!(is_virtual_adapter("DOCKER0", "", ""));
    assert!(is_virtual_adapter("utun3", "", ""));
    assert!(!is_virtual_adapter("eth0", "Intel(R) Ethernet Connection I219-V", "Ethernet"));
    assert!(!is_virtual_adapter("Wi-Fi", "Realtek 8822CE", "Wi-Fi"));
}

#[test]
fn default_interface_comes_first_and_subnets_are_deduplicated() {
    let default = Some(iface(
        "eth1",
        Some("Intel Ethernet"),
        AdapterKind::Other,
        vec![net(ip(127, 0, 0, 1), ip(255, 0, 0, 0)), net(ip(10, 0, 2, 15), ip(255, 255, 255, 0))],
    ));
    let all = vec![
        iface("lo", None, AdapterKind::Loopback, vec![net(ip(127, 0, 0, 1), ip(255, 0, 0, 0))]),
        iface("eth0", None, AdapterKind::Other, vec![
            net(ip(192, 168, 1, 20), ip(255, 255, 255, 0)),
            net(ip(192, 168, 1, 21), ip(255, 255, 255, 0)),
        ]),
        iface("eth1", Some("Intel Ethernet"), AdapterKind::Other, vec![net(ip(10, 0, 2, 15), ip(255, 255, 255, 0))]),
        iface("vmnet8", Some("VMware Virtual Ethernet Adapter"), AdapterKind::Other, vec![
            net(ip(172, 16, 5, 1), ip(255, 255, 255, 0)),
        ]),
        iface("tun0", None, AdapterKind::Tunnel, vec![net(ip(100, 64, 0, 2), ip(255, 192, 0, 0))]),
        iface("eth2", None, AdapterKind::Other, vec![net(ip(169, 254, 3, 3), ip(255, 255, 0, 0))]),
    ];
    let out = local_subnets(&default, &all);
    assert_eq!(
        out,
        vec![
            ("10.0.2".to_string(), ip(10, 0, 2, 15), ip(10, 0, 2, 255)),
            ("192.168.1".to_string(), ip(192, 168, 1, 20), ip(192, 168, 1, 255)),
        ]
    );
    assert_eq!(primary_ipv4(&out), Some("10.0.2.15".to_string()));
}

#[test]
fn virtual_default_interface_is_not_preferred() {
    let default = Some(iface("docker0", None, AdapterKind::Other, vec![net(ip(172, 17, 0, 1), ip(255, 255, 0, 0))]));
    let all = vec![
        iface("docker0", None, AdapterKind::Other, vec![net(ip(172, 17, 0, 1), ip(255, 255, 0, 0))]),
        iface("enp3s0", None, AdapterKind::Other, vec![net(ip(192, 168, 0, 5), ip(255, 255, 255, 0))]),
    ];
    let out = local_subnets(&default, &all);
    assert_eq!(out, vec![("192.168.0".to_string(), ip(192, 168, 0, 5), ip(192, 168, 0, 255))]);
}

#[test]
fn fallback_uses_every_interface_when_no_physical_one_is_left() {
    let all = vec![
        iface("lo", None, AdapterKind::Loopback, vec![net(ip(127, 0, 0, 1), ip(255, 0, 0, 0))]),
        iface("wg0", Some("WireGuard Tunnel"), AdapterKind::Other, vec![net(ip(10, 8, 0, 2), ip(255, 255, 255, 0))]),
        iface("tun0", None, AdapterKind::Tunnel, vec![
            net(ip(100, 64, 1, 2), ip(255, 255, 255, 0)),
            net(ip(10, 8, 0, 9), ip(255, 255, 255, 0)),
        ]),
    ];
    let out = local_subnets(&None, &all);
    assert_eq!(
        out,
        vec![
            ("10.8.0".to_string(), ip(10, 8, 0, 2), ip(10, 8, 0, 255)),
            ("100.64.1".to_string(), ip(100, 64, 1, 2), ip(100, 64, 1, 255)),
        ]
    );
}

#[test]
fn no_interfaces_give_no_subnet_and_no_primary_address() {
    let out = local_subnets(&None, &Vec::new());
    assert!(out.is_empty());
    assert_eq!(primary_ipv4(&out), None);
}

#[test]
fn mac_addresses_parse_with_colons_or_dashes() {
    assert_eq!(parse_mac("aa:bb:cc:dd:ee:ff"), Some([0xaa, 0xbb, 0xcc, 0xdd, 0xee, 0xff]));
    assert_eq!(parse_mac("  00-1A-2b-3C-4d-5E\n"), Some([0x00, 0x1a, 0x2b, 0x3c, 0x4d, 0x5e]));
    assert_eq!(parse_mac("0:1:2:3:4:5"), Some([0, 1, 2, 3, 4, 5]));
    assert_eq!(parse_mac("aa:bb-cc:dd-ee:ff"), Some([0xaa, 0xbb, 0xcc, 0xdd, 0xee, 0xff]));
    assert_eq!(parse_mac("+a:bb:cc:dd:ee:ff"), Some([0x0a, 0xbb, 0xcc, 0xdd, 0xee, 0xff]));
    assert_eq!(parse_mac("\u{3000}aa:bb:cc:dd:ee:ff\u{a0}"), Some([0xaa, 0xbb, 0xcc, 0xdd, 0xee, 0xff]));
}

#[test]
fn malformed_mac_addresses_are_refused() {
    assert_eq!(parse_mac("aa:bb:cc:dd:ee"), None);
    assert_eq!(parse_mac("aa:bb:cc:dd:ee:ff:00"), None);
    assert_eq!(parse_mac("aa:bb:cc:dd:ee:gg"), None);
    assert_eq!(parse_mac("aa:bb:cc:dd:ee:100"), None);
    assert_eq!(parse_mac("aa:bb::dd:ee:ff"), None);
    assert_eq!(parse_mac("aa bb cc dd ee ff"), None);
    assert_eq!(parse_mac(""), None);
}

#[test]
fn magic_packet_is_six_ff_then_sixteen_copies() {
    let mac = [0x01, 0x23, 0x45, 0x67, 0x89, 0xab];
    let p = create_magic_packet(mac);
    assert_eq!(p.len(), 102);
    assert_eq!(&p[..6], &[0xff; 6]);
    for i in 0..16 {
        assert_eq!(&p[6 + i * 6..12 + i * 6], &mac);
    }
}

#[test]
fn subnet_candidates_cover_nearby_prefixes() {
    let c = subnet_candidates(ip(10, 0, 2, 15), ip(10, 0, 2, 255));
    assert_eq!(
        c,
        vec![ip(10, 0, 2, 255), ip(10, 0, 2, 255), ip(10, 0, 255, 255), ip(10, 0, 3, 255), ip(10, 0, 3, 255)]
    );
    let c = subnet_candidates(ip(192, 168, 4, 7), ip(192, 168, 7, 255));
    assert_eq!(
        c,
        vec![ip(192, 168, 7, 255), ip(192, 168, 4, 255), ip(192, 168, 255, 255), ip(192, 168, 7, 255), ip(192, 168, 5, 255)]
    );
}

#[test]
fn unbound_socket_sends_global_then_subnet_targets() {
    let subnets = vec![("10.0.2".to_string(), ip(10, 0, 2, 15), ip(10, 0, 2, 255))];
    let t = unbound_targets(&subnets);
    assert_eq!(t.len(), 6 + 20);
    for k in 0..3 {
        assert_eq!(t[k], WakeTarget { ip: GLOBAL_BROADCAST, port: 9 });
        assert_eq!(t[k + 3], WakeTarget { ip: GLOBAL_BROADCAST, port: 7 });
    }
    assert_eq!(&t[6..10], &[
        WakeTarget { ip: ip(10, 0, 2, 255), port: 9 },
        WakeTarget { ip: ip(10, 0, 2, 255), port: 9 },
        WakeTarget { ip: ip(10, 0, 2, 255), port: 7 },
        WakeTarget { ip: ip(10, 0, 2, 255), port: 7 },
    ]);
    assert_eq!(t[14], WakeTarget { ip: ip(10, 0, 255, 255), port: 9 });
    assert_eq!(t[25], WakeTarget { ip: ip(10, 0, 3, 255), port: 7 });
    assert_eq!(unbound_targets(&Vec::new()).len(), 6);
}

#[test]
fn bound_socket_sends_each_candidate_once_per_port() {
    let t = bound_targets(ip(192, 168, 1, 20), ip(192, 168, 1, 255));
    assert_eq!(
        t,
        vec![
            WakeTarget { ip: ip(192, 168, 1, 255), port: 9 },
            WakeTarget { ip: ip(192, 168, 1, 255), port: 7 },
            WakeTarget { ip: ip(192, 168, 1, 255), port: 9 },
            WakeTarget { ip: ip(192, 168, 1, 255), port: 7 },
            WakeTarget { ip: ip(192, 168, 255, 255), port: 9 },
            WakeTarget { ip: ip(192, 168, 255, 255), port: 7 },
        ]
    );
}

#[test]
fn round_counts_woken_macs() {
    let a = vec![("aa:bb:cc:dd:ee:ff".to_string(), 3usize), ("11:22:33:44:55:66".to_string(), 1)];
    assert_eq!(broadcast_outcome(&a), Ok(2));
    let a = vec![("aa:bb:cc:dd:ee:ff".to_string(), 3usize), ("nonsense".to_string(), 0)];
    assert_eq!(broadcast_outcome(&a), Ok(1));
    assert_eq!(broadcast_outcome(&Vec::new()), Ok(0));
}

#[test]
fn round_reports_invalid_mac_when_nothing_was_sent() {
    let a = vec![("aa:bb:cc:dd:ee:ff".to_string(), 0usize), ("zz".to_string(), 5)];
    assert_eq!(broadcast_outcome(&a), Err("invalid MAC address: zz".to_string()));
}

#[test]
fn round_reports_first_send_failure() {
    let a = vec![("aa:bb:cc:dd:ee:ff".to_string(), 0usize), ("11:22:33:44:55:66".to_string(), 0)];
    assert_eq!(broadcast_outcome(&a), Err("Failed to send magic packet for MAC aa:bb:cc:dd:ee:ff".to_string()));
    let a = vec![("bad".to_string(), 0usize), ("11:22:33:44:55:66".to_string(), 0)];
    assert_eq!(broadcast_outcome(&a), Err("invalid MAC address: bad".to_string()));
}

#[test]
fn only_ignored_addresses_give_no_subnet() {
    let default = Some(iface("lo", None, AdapterKind::Loopback, vec![net(ip(127, 0, 0, 1), ip(255, 0, 0, 0))]));
    let all = vec![
        iface("lo", None, AdapterKind::Loopback, vec![net(ip(127, 0, 0, 1), ip(255, 0, 0, 0))]),
        iface("eth0", None, AdapterKind::Other, vec![net(ip(169, 254, 9, 9), ip(255, 255, 0, 0)), net(0, 0)]),
    ];
    assert!(local_subnets(&default, &all).is_empty());
}

#[test]
fn every_subnet_broadcast_is_sent_on_both_ports() {
    let subnets = vec![
        ("10.0.2".to_string(), ip(10, 0, 2, 15), ip(10, 0, 2, 255)),
        ("192.168.8".to_string(), ip(192, 168, 8, 3), ip(192, 168, 11, 255)),
    ];
    let t = unbound_targets(&subnets);
    assert_eq!(t.len(), 6 + 40);
    for (_, _, b) in &subnets {
        assert!(t.contains(&WakeTarget { ip: *b, port: 9 }));
        assert!(t.contains(&WakeTarget { ip: *b, port: 7 }));
    }
}

#[test]
fn mac_case_and_surrounding_white_space_do_not_matter() {
    let want = Some([0xaa, 0xbb, 0xcc, 0x0d, 0xee, 0xff]);
    for s in ["aa:bb:cc:0d:ee:ff", "AA:BB:CC:0D:EE:FF", "aA-Bb:cC-0d:Ee-fF", " \t AA-BB-CC-0D-EE-FF\r\n", "\u{2003}aa:bb:cc:0d:ee:ff"] {
        assert_eq!(parse_mac(s), want, "{s:?}");
    }
    assert_eq!(parse_mac("GG:bb:cc:0d:ee:ff"), None);
    assert_eq!(parse_mac("gg:bb:cc:0d:ee:ff"), None);
}

#[test]
fn written_macs_read_back() {
    let macs = [[0u8, 0, 0, 0, 0, 0], [0xff; 6], [0x01, 0x23, 0x45, 0x67, 0x89, 0xab], [0xde, 0xad, 0xbe, 0xef, 0x0a, 0xf0]];
    for m in macs {
        let lower = format!("{:02x}:{:02x}:{:02x}:{:02x}:{:02x}:{:02x}", m[0], m[1], m[2], m[3], m[4], m[5]);
        let upper = format!("{:02X}-{:02X}-{:02X}-{:02X}-{:02X}-{:02X}", m[0], m[1], m[2], m[3], m[4], m[5]);
        assert_eq!(parse_mac(&lower), Some(m));
        assert_eq!(parse_mac(&upper), Some(m));
        assert_eq!(parse_mac(&format!("  {upper}\n")), Some(m));
    }
}

#[test]
fn round_outcome_does_not_depend_on_mac_spelling() {
    let a = vec![("aa:bb:cc:dd:ee:ff".to_string(), 2usize), ("zz".to_string(), 0), ("11:22:33:44:55:66".to_string(), 0)];
    let b = vec![(" AA-BB-CC-DD-EE-FF ".to_string(), 2usize), ("ZZ".to_string(), 0), ("11-22-33-44-55-66".to_string(), 0)];
    assert_eq!(broadcast_outcome(&a), Ok(1));
    assert_eq!(broadcast_outcome(&b), Ok(1));
    let a = vec![("aa:bb:cc:dd:ee:ff".to_string(), 0usize)];
    let b = vec![("AA-BB-CC-DD-EE-FF".to_string(), 0usize)];
    assert!(broadcast_outcome(&a).is_err());
    assert!(broadcast_outcome(&b).is_err());
}

#[test]
fn dotted_text_reads_back_as_the_address() {
    for a in [ip(0, 0, 0, 0), ip(10, 0, 2, 15), ip(192, 168, 100, 9), ip(255, 255, 255, 255), ip(1, 20, 0, 255)] {
        let s = ipv4_to_string(a);
        let parts: Vec<&str> = s.split('.').collect();
        assert_eq!(parts.len(), 4);
        let o: Vec<u8> = parts.iter().map(|p| p.parse::<u8>().unwrap()).collect();
        for p in &parts {
            assert!(p.len() == 1 || !p.starts_with('0'));
        }
        assert_eq!(ipv4_from_octets(o[0], o[1], o[2], o[3]), a);
    }
}

#[test]
fn every_usable_kept_address_has_its_subnet() {
    let all = vec![
        iface("eth0", None, AdapterKind::Other, vec![
            net(ip(192, 168, 1, 20), ip(255, 255, 255, 0)),
            net(ip(10, 1, 2, 3), ip(255, 0, 0, 0)),
            net(ip(192, 168, 1, 99), ip(255, 255, 255, 0)),
        ]),
        iface("eth1", None, AdapterKind::Other, vec![net(ip(172, 20, 30, 40), ip(255, 255, 0, 0))]),
    ];
    let out = local_subnets(&None, &all);
    for key in ["192.168.1", "10.1.2", "172.20.30"] {
        assert!(out.iter().any(|(k, _, _)| k == key), "{key}");
    }
    assert_eq!(out.len(), 3);
}
