use netgauge::wan::{
    counter_value, first_matching_description, if_oid, match_from_response, snmp_response_available,
    sys_descr_oid, SnmpValue, IF_DESCR_COLUMN, IF_IN_OCTETS_COLUMN, IF_OUT_OCTETS_COLUMN,
};
use netgauge::{detect_interface_index, fetch_wan_stats, is_snmp_available, InterfaceType};

#[test]
fn counter_oids_are_deterministic_in_the_index() {
    assert_eq!(if_oid(IF_IN_OCTETS_COLUMN, 26), vec![1, 3, 6, 1, 2, 1, 2, 2, 1, 10, 26]);
    assert_eq!(if_oid(IF_OUT_OCTETS_COLUMN, 26), vec![1, 3, 6, 1, 2, 1, 2, 2, 1, 16, 26]);
    assert_eq!(if_oid(IF_DESCR_COLUMN, 7), vec![1, 3, 6, 1, 2, 1, 2, 2, 1, 2, 7]);
    assert_eq!(sys_descr_oid(), vec![1, 3, 6, 1, 2, 1, 1, 1, 0]);
}

#[test]
fn counters_decode_at_their_width_and_default_to_zero() {
    assert_eq!(counter_value(&Some(SnmpValue::Counter32(4294967295))), 4294967295);
    assert_eq!(counter_value(&Some(SnmpValue::Counter64(1 << 40))), 1 << 40);
    assert_eq!(counter_value(&Some(SnmpValue::Other)), 0);
    assert_eq!(counter_value(&Some(SnmpValue::OctetString(b"7".to_vec()))), 0);
    assert_eq!(counter_value(&None), 0);
}

#[test]
fn any_decoded_value_counts_as_available() {
    assert!(snmp_response_available(&Some(SnmpValue::Other)));
    assert!(snmp_response_available(&Some(SnmpValue::Counter32(0))));
    assert!(!snmp_response_available(&None));
}

#[test]
fn probe_response_matches_on_decoded_description_text() {
    let hit = match_from_response(Some(SnmpValue::OctetString(b"ppp0".to_vec())), "ppp");
    assert_eq!(hit, Some("ppp0".to_string()));
    let miss = match_from_response(Some(SnmpValue::OctetString(b"eth0".to_vec())), "ppp");
    assert_eq!(miss, None);
    let not_a_string = match_from_response(Some(SnmpValue::Counter64(7)), "ppp");
    assert_eq!(not_a_string, None);
    assert_eq!(match_from_response(None, "ppp"), None);
}

#[test]
fn discovery_takes_the_first_ascending_match() {
    // Descriptions {1: "eth0", 2: "ppp0", 3: "ppp1"} with pattern "ppp".
    let descs = vec![
        (1u32, "eth0".to_string()),
        (2, "ppp0".to_string()),
        (3, "ppp1".to_string()),
    ];
    assert_eq!(first_matching_description(&descs, "ppp"), Some((2, "ppp0".to_string())));
}

#[test]
fn discovery_without_a_match_finds_nothing() {
    let descs = vec![(1u32, "eth0".to_string()), (2, "eth1".to_string())];
    assert_eq!(first_matching_description(&descs, "ppp"), None);
    assert_eq!(first_matching_description(&Vec::new(), "ppp"), None);
}

#[test]
fn unopenable_session_downgrades_the_wan_path() {
    // An unresolvable target fails at session setup, without touching
    // the network: the probe reports unavailable, discovery finds
    // nothing, and a fetch degrades to zero counters.
    assert!(!is_snmp_available("", b"public"));
    assert_eq!(detect_interface_index("", b"public", "ppp"), None);
    let stats = fetch_wan_stats("", b"public", 26, "WAN");
    assert_eq!(stats.interface, "WAN");
    assert_eq!(stats.rx_bytes, 0);
    assert_eq!(stats.tx_bytes, 0);
    assert!(matches!(stats.kind, InterfaceType::Wan));
}
