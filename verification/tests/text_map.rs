use http_server::text_map::TextMap;

#[test]
fn empty_map() {
    let m: TextMap<u32> = TextMap::new();
    assert_eq!(m.len(), 0);
    assert!(m.get("a").is_none());
    assert!(m.entry(0).is_none());
}

#[test]
fn insert_and_get() {
    let m = TextMap::new().insert("a".to_string(), 1).insert("b".to_string(), 2);
    assert_eq!(m.len(), 2);
    assert_eq!(m.get("a"), Some(&1));
    assert_eq!(m.get("b"), Some(&2));
    assert_eq!(m.get("c"), None);
    assert_eq!(m.get("A"), None);
    assert_eq!(m.get(""), None);
}

#[test]
fn insert_replaces() {
    let m = TextMap::new()
        .insert("a".to_string(), 1)
        .insert("b".to_string(), 2)
        .insert("a".to_string(), 3);
    assert_eq!(m.len(), 2);
    assert_eq!(m.get("a"), Some(&3));
    assert_eq!(m.get("b"), Some(&2));
}

#[test]
fn remove_takes_out() {
    let m = TextMap::new().insert("a".to_string(), 1).insert("b".to_string(), 2);
    let (m, old) = m.remove("a");
    assert_eq!(old, Some(1));
    assert_eq!(m.len(), 1);
    assert!(m.get("a").is_none());
    assert_eq!(m.get("b"), Some(&2));
    let (m, old) = m.remove("a");
    assert_eq!(old, None);
    assert_eq!(m.len(), 1);
}

#[test]
fn entries_hold_each_key_once() {
    let m = TextMap::new()
        .insert("a".to_string(), 1)
        .insert("b".to_string(), 2)
        .insert("a".to_string(), 3)
        .insert("c".to_string(), 4);
    let mut seen: Vec<(String, i32)> = Vec::new();
    let mut i = 0;
    while let Some((k, v)) = m.entry(i) {
        seen.push((k.clone(), *v));
        i += 1;
    }
    assert_eq!(i, m.len());
    seen.sort();
    assert_eq!(
        seen,
        vec![("a".to_string(), 3), ("b".to_string(), 2), ("c".to_string(), 4)]
    );
    assert!(m.entry(m.len()).is_none());
}

#[test]
fn clone_keeps_entries() {
    let m = TextMap::new().insert("a".to_string(), "x".to_string());
    let c = m.clone().insert("a".to_string(), "y".to_string());
    assert_eq!(m.get("a").map(String::as_str), Some("x"));
    assert_eq!(c.get("a").map(String::as_str), Some("y"));
    assert_eq!(m.clone().len(), 1);
}

#[test]
fn keys_are_compared_by_text() {
    let m = TextMap::new().insert("\u{e9}".to_string(), 1).insert("e\u{301}".to_string(), 2);
    assert_eq!(m.len(), 2);
    assert_eq!(m.get("\u{e9}"), Some(&1));
    assert_eq!(m.get("e\u{301}"), Some(&2));
}
