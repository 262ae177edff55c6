use mini_http::context::{new_shared_state, StateMap};

#[test]
fn state_map_typed_values() {
    let mut m = StateMap::new();
    assert!(!m.contains_key("counter"));
    m.insert("counter", 0u64);
    m.insert("name", String::from("app"));
    assert!(m.contains_key("counter"));
    assert_eq!(m.get::<u64>("counter"), Some(&0));
    assert_eq!(m.get::<String>("name").map(|s| s.as_str()), Some("app"));
    assert_eq!(m.get::<u32>("counter"), None);
    assert_eq!(m.get::<u64>("missing"), None);
}

#[test]
fn state_map_get_mut_and_remove() {
    let mut m = StateMap::new();
    m.insert("counter", 1u64);
    if let Some(c) = m.get_mut::<u64>("counter") {
        *c += 41;
    }
    assert_eq!(m.get::<u64>("counter"), Some(&42));
    m.insert("counter", 7u64);
    assert_eq!(m.get::<u64>("counter"), Some(&7));
    m.remove("counter");
    assert!(!m.contains_key("counter"));
    assert!(m.get_mut::<u64>("counter").is_none());
}

#[test]
fn shared_state_example() {
    let state = new_shared_state();
    {
        let mut s = state.write().unwrap();
        s.insert("counter", 0u64);
    }
    {
        let s = state.read().unwrap();
        let counter = s.get::<u64>("counter").unwrap();
        assert_eq!(*counter, 0);
    }
}

#[test]
fn state_map_holds_key_iff_last_change_inserted() {
    let mut m = StateMap::new();
    m.insert("a", 1u8);
    m.insert("b", 2u8);
    m.remove("a");
    assert!(!m.contains_key("a"));
    assert!(m.contains_key("b"));
    m.insert("a", 3u16);
    assert!(m.contains_key("a"));
    assert_eq!(m.get::<u64>("a"), None);
    m.remove("b");
    m.remove("b");
    assert!(!m.contains_key("b"));
}
