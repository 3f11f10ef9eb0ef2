use typos::strmap::StrMap;

#[test]
fn new_map_is_empty() {
    let map = StrMap::new();
    assert!(map.entries().is_empty());
    assert_eq!(map.get("key"), None);
    assert!(StrMap::default().entries().is_empty());
}

#[test]
fn insert_replaces_in_place() {
    let mut map = StrMap::new();
    map.insert("a".to_owned(), "1".to_owned());
    map.insert("b".to_owned(), "2".to_owned());
    map.insert("a".to_owned(), "3".to_owned());
    assert_eq!(map.get("a"), Some("3"));
    assert_eq!(map.get("b"), Some("2"));
    assert_eq!(map.get("c"), None);
    assert_eq!(map.entries(), vec![("a", "3"), ("b", "2")]);
}

#[test]
fn extend_prefers_the_other_map() {
    let mut map = StrMap::new();
    map.insert("a".to_owned(), "1".to_owned());
    map.insert("b".to_owned(), "2".to_owned());
    let mut other = StrMap::new();
    other.insert("b".to_owned(), "20".to_owned());
    other.insert("c".to_owned(), "30".to_owned());
    map.extend(&other);
    assert_eq!(map.entries(), vec![("a", "1"), ("b", "20"), ("c", "30")]);
    assert_eq!(other.entries(), vec![("b", "20"), ("c", "30")]);
}

#[test]
fn clone_keeps_every_entry() {
    let mut map = StrMap::new();
    map.insert("caf\u{e9}".to_owned(), "cafe".to_owned());
    map.insert("".to_owned(), "empty".to_owned());
    let copy = map.clone();
    map.insert("late".to_owned(), "r".to_owned());
    assert_eq!(copy.get("caf\u{e9}"), Some("cafe"));
    assert_eq!(copy.get(""), Some("empty"));
    assert_eq!(copy.get("late"), None);
    assert_eq!(copy.entries().len(), 2);
}
