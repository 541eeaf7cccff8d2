use shelf::lan::{
    choose_bonjour_host, expires_at_for, host_allowed, identity_for, instance_name_for,
    is_lan_host, is_private_ipv4, is_session_active, is_usable_bonjour_label, lan_addresses,
    lan_session_lapsed, normalize_duration, normalize_host, parse_ipv4, parse_private_ipv4,
    preferred_local_url, sanitize_bonjour_label, Ipv4, LanIdentity, DURATION_15M, DURATION_60M,
    DURATION_UNTIL_OFF,
};

fn identity(host: &str, ip: &str) -> LanIdentity {
    let ipv4 = parse_ipv4(ip).unwrap();
    LanIdentity {
        bonjour_host: host.into(),
        instance_name: instance_name_for(host),
        ipv4: vec![ipv4],
        port: 7834,
        url: preferred_local_url(host, Some(ipv4), 7834),
    }
}

fn instant(text: &str) -> (i64, u32) {
    let t = chrono::DateTime::parse_from_rfc3339(text).unwrap();
    (t.timestamp(), t.timestamp_subsec_nanos())
}

#[test]
fn prefers_dot_local_url() {
    assert_eq!(
        preferred_local_url("Isaacs-MacBook", Some(Ipv4::new(192, 168, 1, 20)), 7834),
        "http://Isaacs-MacBook.local:7834"
    );
    assert_eq!(
        preferred_local_url("", Some(Ipv4::new(10, 0, 0, 5)), 7834),
        "http://10.0.0.5:7834"
    );
}

#[test]
fn allow_list_accepts_loopback_and_cloud() {
    assert!(host_allowed("127.0.0.1:7834", None, None));
    assert!(host_allowed("localhost", None, None));
    assert!(host_allowed("shelf.example.com", Some("shelf.example.com"), None));
    assert!(host_allowed("www.shelf.example.com", Some("shelf.example.com"), None));
    assert!(!host_allowed("evil.example", Some("shelf.example.com"), None));
    assert!(!host_allowed("192.168.1.20", Some("shelf.example.com"), None));
}

#[test]
fn allow_list_accepts_lan_when_enabled() {
    let lan = identity("Isaacs-MacBook", "192.168.1.20");
    assert!(host_allowed("isaacs-macbook.local", None, Some(&lan)));
    assert!(host_allowed("Isaacs-MacBook.local:7834", None, Some(&lan)));
    assert!(host_allowed("192.168.1.20", None, Some(&lan)));
    assert!(host_allowed("isaacs-macbook", None, Some(&lan)));
    assert!(!host_allowed("10.0.0.9", None, Some(&lan)));
    assert!(!host_allowed("other.local", None, Some(&lan)));
}

#[test]
fn lan_disabled_rejects_lan_hosts() {
    assert!(!host_allowed("macbook.local", None, None));
    assert!(!host_allowed("192.168.1.20", None, None));
}

#[test]
fn private_ipv4_detection() {
    assert!(is_private_ipv4(parse_ipv4("10.1.2.3").unwrap()));
    assert!(is_private_ipv4(parse_ipv4("192.168.0.1").unwrap()));
    assert!(is_private_ipv4(parse_ipv4("172.16.0.1").unwrap()));
    assert!(!is_private_ipv4(parse_ipv4("8.8.8.8").unwrap()));
    assert!(!is_private_ipv4(parse_ipv4("1.1.1.1").unwrap()));
    assert!(parse_private_ipv4("192.168.1.8").is_some());
    assert!(parse_private_ipv4("8.8.8.8").is_none());
}

#[test]
fn instance_name_stays_short() {
    assert_eq!(instance_name_for("Studio"), "Shelf (Studio)");
    assert_eq!(instance_name_for(""), "Shelf");
}

#[test]
fn nearby_session_honors_duration_and_expiry() {
    assert_eq!(normalize_duration(Some("15m")), DURATION_15M);
    assert_eq!(normalize_duration(Some("1h")), DURATION_60M);
    assert_eq!(normalize_duration(Some("until_off")), DURATION_UNTIL_OFF);
    let now = instant("2026-09-12T10:00:00Z");
    assert!(expires_at_for(DURATION_UNTIL_OFF, now).is_none());
    let end = expires_at_for(DURATION_15M, now).unwrap();
    assert_eq!(
        chrono::DateTime::from_timestamp(end.0, end.1).unwrap().to_rfc3339(),
        "2026-09-12T10:15:00+00:00"
    );
    assert!(is_session_active(true, None, now));
    assert!(is_session_active(true, Some("2026-09-12T10:15:00+00:00"), now));
    assert!(!is_session_active(true, Some("2026-09-12T09:59:00+00:00"), now));
    assert!(!is_session_active(false, None, now));
}

#[test]
fn durations_accept_their_spellings() {
    assert_eq!(normalize_duration(None), "until_off");
    assert_eq!(normalize_duration(Some(" 15min ")), "15m");
    assert_eq!(normalize_duration(Some("minutes15")), "15m");
    assert_eq!(normalize_duration(Some("hour")), "60m");
    assert_eq!(normalize_duration(Some("60")), "60m");
    assert_eq!(normalize_duration(Some("forever")), "until_off");
    let now = instant("2026-09-12T10:00:00Z");
    let end = expires_at_for("1h", now).unwrap();
    assert_eq!(end.0 - now.0, 3600);
}

#[test]
fn session_deadline_edge_cases() {
    let now = instant("2026-09-12T10:00:00Z");
    assert!(is_session_active(true, Some("   "), now));
    assert!(is_session_active(true, Some("2026-09-12T10:00:00Z"), now));
    assert!(!is_session_active(true, Some("tomorrow"), now));
    assert!(lan_session_lapsed(true, Some("2026-09-12T09:00:00Z"), now));
    assert!(!lan_session_lapsed(true, None, now));
    assert!(!lan_session_lapsed(false, Some("2026-09-12T09:00:00Z"), now));
}

#[test]
fn ipv4_text_follows_the_dotted_decimal_rules() {
    assert_eq!(parse_ipv4("0.0.0.0"), Some(Ipv4::new(0, 0, 0, 0)));
    assert_eq!(parse_ipv4("255.255.255.255"), Some(Ipv4::new(255, 255, 255, 255)));
    assert_eq!(parse_ipv4("01.2.3.4"), None);
    assert_eq!(parse_ipv4("256.1.1.1"), None);
    assert_eq!(parse_ipv4("1.2.3"), None);
    assert_eq!(parse_ipv4("1.2.3.4.5"), None);
    assert_eq!(parse_ipv4("1.2.3.a"), None);
    assert_eq!(parse_ipv4("+1.2.3.4"), None);
    assert_eq!(Ipv4::new(172, 31, 0, 9).to_text(), "172.31.0.9");
    assert_eq!(Ipv4::new(10, 0, 0, 1).octets(), [10, 0, 0, 1]);
    assert!(!is_private_ipv4(Ipv4::new(172, 32, 0, 1)));
    assert!(!is_private_ipv4(Ipv4::new(172, 15, 0, 1)));
}

#[test]
fn hosts_are_normalized_before_matching() {
    assert_eq!(normalize_host(" Shelf.Example.com.:443"), "shelf.example.com");
    assert_eq!(normalize_host("[fe80]"), "fe80");
    assert_eq!(normalize_host("[::1]"), "::1");
    assert_eq!(normalize_host("[::1]:7834"), "::1");
    assert_eq!(normalize_host(" [FE80::1]:80"), "fe80::1");
    assert!(host_allowed("[::1]", None, None));
    assert!(host_allowed("[::1]:7834", None, None));
    assert!(!host_allowed("", None, None));
    assert!(!host_allowed(":8080", None, None));
}

#[test]
fn lan_hosts_are_local_names_and_private_addresses() {
    assert!(is_lan_host("printer.local", None));
    assert!(is_lan_host("10.0.0.7:7834", None));
    assert!(!is_lan_host("8.8.8.8", None));
    assert!(!is_lan_host("shelf.example.com", None));
    let lan = identity("Studio", "192.168.1.20");
    assert!(is_lan_host("studio", Some(&lan)));
    assert!(lan.matches_host("STUDIO.local"));
    assert_eq!(lan.primary_ip(), Some(Ipv4::new(192, 168, 1, 20)));
}

#[test]
fn bonjour_labels_are_sanitized_and_checked() {
    assert_eq!(sanitize_bonjour_label(" Isaac's MacBook Pro.local "), "Isaac-s-MacBook-Pro");
    assert_eq!(sanitize_bonjour_label("--studio__"), "studio");
    assert!(is_usable_bonjour_label("Studio-2"));
    assert!(!is_usable_bonjour_label("-studio"));
    assert!(!is_usable_bonjour_label("stu dio"));
    assert!(!is_usable_bonjour_label(""));
    assert!(is_usable_bonjour_label(&"a".repeat(63)));
    assert!(!is_usable_bonjour_label(&"a".repeat(64)));
    assert_eq!(choose_bonjour_host(Some("My Mac"), Some("other"), None), "My-Mac");
    assert_eq!(choose_bonjour_host(Some("---"), Some("backup"), None), "backup");
    assert_eq!(choose_bonjour_host(None, None, Some("host.example.com")), "host");
    assert_eq!(choose_bonjour_host(None, None, None), "");
}

#[test]
fn instance_names_respect_the_byte_limit() {
    assert_eq!(instance_name_for("  LOCALHOST "), "Shelf");
    let ascii = "a".repeat(55);
    assert_eq!(instance_name_for(&ascii), format!("Shelf ({ascii})"));
    let long = "a".repeat(56);
    assert_eq!(instance_name_for(&long), "Shelf");
    let wide = "é".repeat(28);
    assert_eq!(instance_name_for(&wide), "Shelf");
}

#[test]
fn lan_addresses_are_private_sorted_and_unique() {
    let ips = vec![
        Ipv4::new(192, 168, 1, 20),
        Ipv4::new(8, 8, 8, 8),
        Ipv4::new(10, 0, 0, 2),
        Ipv4::new(192, 168, 1, 20),
    ];
    assert_eq!(
        lan_addresses(&ips, None),
        vec![Ipv4::new(10, 0, 0, 2), Ipv4::new(192, 168, 1, 20)]
    );
    assert_eq!(
        lan_addresses(&[Ipv4::new(8, 8, 8, 8)], Some(Ipv4::new(172, 16, 4, 4))),
        vec![Ipv4::new(172, 16, 4, 4)]
    );
    assert!(lan_addresses(&[], Some(Ipv4::new(1, 1, 1, 1))).is_empty());
}

#[test]
fn identity_is_assembled_from_name_and_addresses() {
    let id = identity_for("Studio".into(), vec![Ipv4::new(192, 168, 1, 9)], 7834);
    assert_eq!(id.instance_name, "Shelf (Studio)");
    assert_eq!(id.url, "http://Studio.local:7834");
    let bare = identity_for(String::new(), vec![], 9000);
    assert_eq!(bare.url, "http://127.0.0.1:9000");
    assert_eq!(bare.instance_name, "Shelf");
}
