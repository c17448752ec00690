use idp::text_map::TextMap;

#[test]
fn insert_then_get() {
    let mut m = TextMap::new();
    assert!(m.get("k").is_none());
    m.insert("k".to_string(), "v".to_string());
    assert_eq!(m.get("k").unwrap(), "v");
    m.insert("other".to_string(), "w".to_string());
    m.insert("k".to_string(), "v2".to_string());
    assert_eq!(m.get("k").unwrap(), "v2");
    assert_eq!(m.get("other").unwrap(), "w");
    assert_eq!(m.len(), 2);
}

#[test]
fn entries_keep_insertion_order() {
    let mut m = TextMap::new();
    m.insert("b".to_string(), "1".to_string());
    m.insert("a".to_string(), "2".to_string());
    m.insert("b".to_string(), "3".to_string());
    let (k0, v0) = m.entry(0);
    let (k1, v1) = m.entry(1);
    assert_eq!((k0.as_str(), v0.as_str()), ("b", "3"));
    assert_eq!((k1.as_str(), v1.as_str()), ("a", "2"));
}

#[test]
fn keys_are_case_sensitive() {
    let mut m = TextMap::new();
    m.insert("Key".to_string(), "1".to_string());
    assert!(m.get("key").is_none());
}
