use netgauge::InterfaceSet;

#[test]
fn new_selection_is_empty() {
    let sel = InterfaceSet::new();
    assert!(sel.is_empty());
    assert!(!sel.contains(&"eth0".to_string()));
}

#[test]
fn inserted_names_are_members() {
    let mut sel = InterfaceSet::new();
    sel.insert("eth0".to_string());
    sel.insert("wlan0".to_string());
    assert!(!sel.is_empty());
    assert!(sel.contains(&"eth0".to_string()));
    assert!(sel.contains(&"wlan0".to_string()));
    assert!(!sel.contains(&"lo".to_string()));
}

#[test]
fn reinserting_a_name_changes_nothing() {
    let mut sel = InterfaceSet::new();
    sel.insert("eth0".to_string());
    sel.insert("eth0".to_string());
    assert!(sel.contains(&"eth0".to_string()));
    sel.remove(&"eth0".to_string());
    assert!(!sel.contains(&"eth0".to_string()));
    assert!(sel.is_empty());
}

#[test]
fn removal_only_affects_the_named_interface() {
    let mut sel = InterfaceSet::new();
    sel.insert("eth0".to_string());
    sel.insert("wlan0".to_string());
    sel.remove(&"eth0".to_string());
    assert!(!sel.contains(&"eth0".to_string()));
    assert!(sel.contains(&"wlan0".to_string()));
    sel.remove(&"never there".to_string());
    assert!(sel.contains(&"wlan0".to_string()));
}
