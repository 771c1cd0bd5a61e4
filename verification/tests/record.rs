use wireguard_keepalived::record::{PeerRecord, PEER_COLUMNS};

const T: u64 = 1_700_000_000;

fn line(handshake: &str, keepalive: &str) -> String {
    format!(
        "wg0 m2Qx7RkE3k+abc= (none) 1.2.3.4:51820 0.0.0.0/0 {} 100 200 {}",
        handshake, keepalive
    )
}

#[test]
fn parse_reads_all_nine_columns() {
    let r = PeerRecord::parse(
        "wg1\tKEY=\tPSK=\t[2001:db8::1]:51820\t10.0.0.2/32,fd00::2/128\t1699999000\t123\t456\t25",
        T,
    )
    .unwrap();
    assert_eq!(
        r,
        PeerRecord {
            interface: "wg1".to_string(),
            public_key: "KEY=".to_string(),
            has_preshared_key: true,
            endpoint: Some("[2001:db8::1]:51820".to_string()),
            allowed_ips: vec!["10.0.0.2/32".to_string(), "fd00::2/128".to_string()],
            latest_handshake: 1_699_999_000,
            rx_bytes: 123,
            tx_bytes: 456,
            persistent_keepalive: 25,
        }
    );
}

#[test]
fn parse_knows_the_marker_of_an_empty_column() {
    let r = PeerRecord::parse("wg0 KEY= (none) (none) (none) 0 0 0 off", T).unwrap();
    assert_eq!(r.interface, "wg0");
    assert!(!r.has_preshared_key);
    assert_eq!(r.endpoint, None);
    assert_eq!(r.allowed_ips, Vec::<String>::new());
    assert_eq!(r.latest_handshake, 0);
    assert_eq!(r.rx_bytes, 0);
    assert_eq!(r.tx_bytes, 0);
    assert_eq!(r.persistent_keepalive, 0);

    let r = PeerRecord::parse("wg0 KEY= (hidden) (None) none 1 2 3 4", T).unwrap();
    assert!(r.has_preshared_key);
    assert_eq!(r.endpoint, Some("(None)".to_string()));
    assert_eq!(r.allowed_ips, vec!["none".to_string()]);
}

#[test]
fn parse_refuses_a_line_with_fewer_than_nine_fields() {
    assert_eq!(PEER_COLUMNS, 9);
    assert_eq!(PeerRecord::parse("", T), None);
    assert_eq!(PeerRecord::parse("   \t ", T), None);
    assert_eq!(PeerRecord::parse("wg0 PRIV= PUB= 51820 off", T), None);
    assert_eq!(PeerRecord::parse("wg0 KEY= (none) 1.2.3.4:51820 0.0.0.0/0 1699999000 100 200", T), None);
    assert!(PeerRecord::parse("wg0 KEY= (none) 1.2.3.4:51820 0.0.0.0/0 1699999000 100 200 25", T)
        .is_some());
}

#[test]
fn parse_reads_the_first_nine_of_more_fields() {
    let r = PeerRecord::parse("wg0 KEY= (none) 1.2.3.4:51820 0.0.0.0/0 1699999000 100 200 25 extra 7", T)
        .unwrap();
    assert_eq!(r.interface, "wg0");
    assert_eq!(r.latest_handshake, 1_699_999_000);
    assert_eq!(r.persistent_keepalive, 25);
}

#[test]
fn parse_takes_an_unreadable_handshake_for_now() {
    for h in ["never", "-5", "1.5", "18446744073709551616", "(none)"] {
        let r = PeerRecord::parse(&line(h, "25"), T).unwrap();
        assert_eq!(r.latest_handshake, T, "{:?}", h);
        assert_eq!(r.handshake_age(T), 0);
        assert!(!r.is_stale(T, 180));
        assert!(!r.is_stale(T, 0));
    }
}

#[test]
fn parse_takes_an_unreadable_keepalive_for_off() {
    for k in ["off", "0", "00", "+0", "-25", "25s", "2.5", "18446744073709551616"] {
        let r = PeerRecord::parse(&line("0", k), T).unwrap();
        assert_eq!(r.persistent_keepalive, 0, "{:?}", k);
        assert!(!r.keepalive_enabled());
        assert!(!r.is_stale(T, 180));
    }
    let r = PeerRecord::parse(&line("0", "25"), T).unwrap();
    assert_eq!(r.persistent_keepalive, 25);
    assert!(r.keepalive_enabled());
}

#[test]
fn parse_takes_an_unreadable_counter_for_zero() {
    let r = PeerRecord::parse("wg0 KEY= (none) (none) (none) 5 many -3 25", T).unwrap();
    assert_eq!(r.rx_bytes, 0);
    assert_eq!(r.tx_bytes, 0);
    assert_eq!(r.latest_handshake, 5);
}

#[test]
fn record_age_and_staleness_follow_the_policy() {
    let r = PeerRecord::parse(&line(&(T - 200).to_string(), "25"), T).unwrap();
    assert_eq!(r.handshake_age(T), 200);
    assert!(r.is_stale(T, 180));
    assert!(!r.is_stale(T, 200));
    assert!(r.is_stale(T, 199));
    assert_eq!(r.handshake_age(T - 300), 0);
    assert!(!r.is_stale(T - 300, 0));

    let r = PeerRecord::parse(&line(&(T - 50).to_string(), "25"), T).unwrap();
    assert_eq!(r.handshake_age(T), 50);
    assert!(!r.is_stale(T, 180));

    let r = PeerRecord::parse(&line(&(T - 500).to_string(), "0"), T).unwrap();
    assert_eq!(r.handshake_age(T), 500);
    assert!(!r.is_stale(T, 180));
}
