use jepa::named::NamedStates;

#[test]
fn saving_a_name_again_replaces_it_and_moves_it_last() {
    let mut s: NamedStates<u32> = NamedStates::new();
    s.save("door open", 1);
    s.save("door closed", 2);
    s.save("door open", 3);
    assert_eq!(s.names(), vec!["door closed".to_string(), "door open".to_string()]);
    assert_eq!(s.get(1).map(|(n, v)| (n.as_str(), *v)), Some(("door open", 3)));
    assert!(s.get(2).is_none());
    assert!(s.delete("door closed"));
    assert!(!s.delete("door closed"));
    assert_eq!(s.len(), 1);
    assert_eq!(s.names(), vec!["door open".to_string()]);
}
