use minishell::strmap::StrMap;

#[test]
fn insert_get_remove() {
    let mut m = StrMap::new();
    assert_eq!(m.len(), 0);
    m.insert("a".to_string(), "1".to_string());
    m.insert("b".to_string(), "2".to_string());
    m.insert("a".to_string(), "3".to_string());
    assert_eq!(m.len(), 2);
    assert_eq!(m.get("a").map(|s| s.as_str()), Some("3"));
    assert_eq!(m.get("b").map(|s| s.as_str()), Some("2"));
    assert!(m.get("c").is_none());
    assert!(m.contains_key("b"));
    m.remove("a");
    assert!(!m.contains_key("a"));
    assert_eq!(m.len(), 1);
    m.remove("zzz");
    assert_eq!(m.len(), 1);
}
