use netgauge::{
    accumulate_samples, filter_interface_names, filter_table_rows, parse_net_dev, InterfaceSet,
    InterfaceType,
};

fn selection(names: &[&str]) -> InterfaceSet {
    let mut sel = InterfaceSet::new();
    for n in names {
        sel.insert(n.to_string());
    }
    sel
}

const HEADER: &str = "Inter-|   Receive\n face |bytes    packets\n";

fn line(name: &str, rx: u64, tx: u64) -> String {
    format!(
        "{}: {} 0 0 0 0 0 0 0 {} 0 0 0 0 0 0 0\n",
        name, rx, tx
    )
}

#[test]
fn selected_interface_is_parsed_with_fields_0_and_8() {
    let content = format!("{}{}", HEADER, line("eth0", 123, 456));
    let stats = parse_net_dev(&content, &selection(&["eth0"]));
    assert_eq!(stats.len(), 1);
    assert_eq!(stats[0].interface, "eth0");
    assert_eq!(stats[0].rx_bytes, 123);
    assert_eq!(stats[0].tx_bytes, 456);
    assert!(matches!(stats[0].kind, InterfaceType::Net));
}

#[test]
fn only_selected_interfaces_appear() {
    // Raw host interfaces eth0, lo and docker0 with only eth0 selected.
    let content = format!(
        "{}{}{}{}",
        HEADER,
        line("eth0", 1, 2),
        line("lo", 3, 4),
        line("docker0", 5, 6)
    );
    let stats = parse_net_dev(&content, &selection(&["eth0"]));
    assert_eq!(stats.len(), 1);
    assert_eq!(stats[0].interface, "eth0");
}

#[test]
fn malformed_line_is_skipped_but_later_lines_parse() {
    let content = format!(
        "{}{}{}",
        HEADER,
        "wlan0: 1 2 3\n", // fewer than 16 fields
        line("eth0", 77, 88)
    );
    let stats = parse_net_dev(&content, &selection(&["eth0", "wlan0"]));
    assert_eq!(stats.len(), 1);
    assert_eq!(stats[0].interface, "eth0");
    assert_eq!(stats[0].rx_bytes, 77);
    assert_eq!(stats[0].tx_bytes, 88);
}

#[test]
fn header_lines_are_never_parsed() {
    // A selected name on the first two lines must not produce a sample.
    let content = format!("{}{}", "eth0: 1 2\neth0: 3 4\n", line("eth0", 9, 9));
    let stats = parse_net_dev(&content, &selection(&["eth0"]));
    assert_eq!(stats.len(), 1);
    assert_eq!(stats[0].rx_bytes, 9);
}

#[test]
fn line_without_colon_is_skipped() {
    let content = format!("{}{}{}", HEADER, "no colon here\n", line("eth0", 5, 5));
    let stats = parse_net_dev(&content, &selection(&["eth0"]));
    assert_eq!(stats.len(), 1);
}

#[test]
fn non_numeric_and_oversized_fields_read_as_zero() {
    let content = format!(
        "{}{}{}",
        HEADER,
        "eth0: abc 0 0 0 0 0 0 0 18446744073709551616 0 0 0 0 0 0 0\n",
        line("wlan0", 18446744073709551615, 1)
    );
    let stats = parse_net_dev(&content, &selection(&["eth0", "wlan0"]));
    assert_eq!(stats.len(), 2);
    assert_eq!(stats[0].rx_bytes, 0); // not a number
    assert_eq!(stats[0].tx_bytes, 0); // one past u64::MAX
    assert_eq!(stats[1].rx_bytes, u64::MAX); // exactly u64::MAX still fits
}

#[test]
fn surrounding_whitespace_is_trimmed() {
    let content = format!(
        "{}{}",
        HEADER,
        "  eth0 : 10 0 0 0 0 0 0 0 20 0 0 0 0 0 0 0 \n"
    );
    let stats = parse_net_dev(&content, &selection(&["eth0"]));
    assert_eq!(stats.len(), 1);
    assert_eq!(stats[0].interface, "eth0");
    assert_eq!(stats[0].rx_bytes, 10);
    assert_eq!(stats[0].tx_bytes, 20);
}

#[test]
fn missing_final_newline_still_parses_last_line() {
    let content = format!("{}eth0: 7 0 0 0 0 0 0 0 8 0 0 0 0 0 0 0", HEADER);
    let stats = parse_net_dev(&content, &selection(&["eth0"]));
    assert_eq!(stats.len(), 1);
    assert_eq!(stats[0].rx_bytes, 7);
    assert_eq!(stats[0].tx_bytes, 8);
}

#[test]
fn duplicate_address_rows_are_summed_per_name() {
    let raw = vec![
        ("en0".to_string(), 100u64, 10u64),
        ("lo0".to_string(), 5, 5),
        ("en0".to_string(), 50, 15),
    ];
    let stats = accumulate_samples(&raw, &selection(&["en0"]));
    assert_eq!(stats.len(), 1);
    assert_eq!(stats[0].interface, "en0");
    assert_eq!(stats[0].rx_bytes, 150);
    assert_eq!(stats[0].tx_bytes, 25);
}

#[test]
fn empty_selection_keeps_every_table_row() {
    let rows = vec![
        ("Ethernet".to_string(), 1u64, 2u64),
        ("Wi-Fi".to_string(), 3, 4),
    ];
    let stats = filter_table_rows(&rows, &InterfaceSet::new());
    assert_eq!(stats.len(), 2);
    assert_eq!(stats[0].interface, "Ethernet");
    assert_eq!(stats[1].interface, "Wi-Fi");
}

#[test]
fn nonempty_selection_filters_table_rows() {
    let rows = vec![
        ("Ethernet".to_string(), 1u64, 2u64),
        ("Wi-Fi".to_string(), 3, 4),
    ];
    let stats = filter_table_rows(&rows, &selection(&["Wi-Fi"]));
    assert_eq!(stats.len(), 1);
    assert_eq!(stats[0].interface, "Wi-Fi");
    assert_eq!(stats[0].rx_bytes, 3);
}

#[test]
fn interface_listing_drops_empty_names() {
    let names = vec!["eth0".to_string(), String::new(), "wlan0".to_string()];
    let listed = filter_interface_names(&names);
    assert_eq!(listed, vec!["eth0".to_string(), "wlan0".to_string()]);
}
