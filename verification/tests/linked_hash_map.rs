use dt::collections::LinkedHashMap;
use std::collections::HashMap;

#[test]
fn basic_crud() {
    let mut map = LinkedHashMap::new();
    assert_eq!(map.len(), 0);
    assert!(map.is_empty());

    // Test creation.
    map.insert("foo", 42);
    assert_eq!(map.get(&"foo"), Some(&42));
    assert_eq!(*map.get(&"foo").unwrap(), 42);
    assert_eq!(map.len(), 1);
    assert!(!map.is_empty());

    // Test update.
    map.insert("foo", 43);
    assert_eq!(map.get(&"foo"), Some(&43));
    assert_eq!(map.len(), 1);
    assert!(!map.is_empty());

    // Test removal.
    assert_eq!(map.remove(&"foo"), Some(43));
    assert_eq!(map.len(), 0);
    assert!(map.is_empty());

    // Test operations on a non-existent key.
    assert_eq!(map.get(&"foo"), None);
    assert_eq!(map.remove(&"foo"), None);
    assert_eq!(map.len(), 0);
    assert!(map.is_empty());
}

#[test]
fn iterator() {
    // Keys and values to insert. Keys must be pair-wise different.
    let test_vals: HashMap<_, _> =
        vec![("foo", 7), ("bar", 11), ("baz", 13), ("quox", 17)]
            .into_iter()
            .collect();

    // Keep track of whether an entry has been seen.
    let mut has_seen: HashMap<_, _> = vec![
        ("foo", false),
        ("bar", false),
        ("baz", false),
        ("quox", false),
    ]
    .into_iter()
    .collect();

    let mut map = LinkedHashMap::new();
    for (&k, &v) in &test_vals {
        map.insert(k, v);
    }

    let mut it = map.iter();
    while let Some((&k, &v)) = it.next() {
        let expected = test_vals.get(k).cloned().unwrap();
        // Check if the iterator returns the correct item.
        assert_eq!(v, expected);
        // Check if some key is returned once again.
        assert_eq!(has_seen.insert(k, true), Some(false));
    }
    // Check if the iterator has gone through all items.
    assert!(has_seen.iter().all(|(_, &v)| v));

    has_seen.iter_mut().for_each(|(_, v)| *v = false);
    let mut owned = map.into_iter();
    while let Some((k, v)) = owned.next() {
        let expected = test_vals.get(k).cloned().unwrap();
        // Check if the iterator returns the correct item.
        assert_eq!(v, expected);
        // Check if some key is returned once again.
        assert_eq!(has_seen.insert(k, true), Some(false));
    }
    // Check if the iterator has gone through all items.
    assert!(has_seen.iter().all(|(_, &v)| v));
}

#[test]
fn insert_returns_previous_value() {
    let mut map = LinkedHashMap::new();
    assert_eq!(map.insert(37, "a"), None);
    assert_eq!(map.is_empty(), false);
    map.insert(37, "b");
    assert_eq!(map.insert(37, "c"), Some("b"));
    assert_eq!(*map.get(&37).unwrap(), "c");
}

#[test]
fn contains_key_tracks_bindings() {
    let mut map = LinkedHashMap::new();
    map.insert(1u64, "a");
    assert_eq!(map.contains_key(&1), true);
    assert_eq!(map.contains_key(&2), false);
    map.remove(&1);
    assert_eq!(map.contains_key(&1), false);
}

#[test]
fn iteration_follows_insertion_order() {
    let mut map = LinkedHashMap::new();
    map.insert("one", 1);
    map.insert("two", 2);
    map.insert("three", 3);
    let mut seen = Vec::new();
    let mut it = map.iter();
    while let Some((&k, &v)) = it.next() {
        seen.push((k, v));
    }
    assert_eq!(seen, vec![("one", 1), ("two", 2), ("three", 3)]);
}

#[test]
fn string_keys_compare_by_contents() {
    let mut map = LinkedHashMap::new();
    map.insert(String::from("alpha"), 1);
    map.insert(String::from("beta"), 2);
    // A freshly built, equal string finds the binding.
    let probe = String::from("alpha");
    assert_eq!(map.get(&probe), Some(&1));
    assert_eq!(map.remove(&String::from("beta")), Some(2));
    assert_eq!(map.len(), 1);
}

#[test]
fn entry_or_insert_inserts_only_when_vacant() {
    let mut player_stats = LinkedHashMap::new();

    // Insert a key only if it doesn't already exist.
    let e = player_stats.entry("health");
    e.or_insert(&mut player_stats, 100);
    assert_eq!(player_stats.get(&"health"), Some(&100));

    // An occupied entry keeps its value.
    let e = player_stats.entry("health");
    e.or_insert(&mut player_stats, 1);
    assert_eq!(player_stats.get(&"health"), Some(&100));

    // Update a value through the returned reference.
    let e = player_stats.entry("attack");
    let stat = e.or_insert(&mut player_stats, 100);
    *stat += 42;
    assert_eq!(player_stats.get(&"attack"), Some(&142));
}

#[test]
fn entry_key_and_or_insert_with() {
    let mut map: LinkedHashMap<&str, u8> = LinkedHashMap::new();
    let e = map.entry("defence");
    assert_eq!(*e.key(), "defence");
    e.or_insert_with(&mut map, || 42);
    assert_eq!(map.get(&"defence"), Some(&42));

    let e = map.entry("width");
    e.or_insert_with_key(&mut map, |k| k.len() as u8);
    assert_eq!(map.get(&"width"), Some(&5));
}

#[test]
fn entry_and_modify_touches_only_occupied() {
    let mut map: LinkedHashMap<&str, u32> = LinkedHashMap::new();
    // Vacant: nothing happens, and the entry can still insert.
    let e = map.entry("seen");
    let e = e.and_modify(&mut map, |v| v + 1);
    e.or_insert(&mut map, 1);
    assert_eq!(map.get(&"seen"), Some(&1));
    // Occupied: the closure reshapes the value.
    let e = map.entry("seen");
    e.and_modify(&mut map, |v| v + 1);
    assert_eq!(map.get(&"seen"), Some(&2));
}

#[test]
fn entry_or_default_uses_default_value() {
    let mut map: LinkedHashMap<u32, u64> = LinkedHashMap::new();
    let e = map.entry(9);
    e.or_default(&mut map);
    assert_eq!(map.get(&9), Some(&0));
}

#[test]
fn str_keys_distinguish_prefixes_and_empty() {
    let mut map = LinkedHashMap::new();
    map.insert("", 1);
    map.insert("a", 2);
    map.insert("ab", 3);
    assert_eq!(map.get(&""), Some(&1));
    assert_eq!(map.get(&"a"), Some(&2));
    assert_eq!(map.get(&"ab"), Some(&3));
    assert_eq!(map.get(&"b"), None);
    assert_eq!(map.get(&"ba"), None);
    assert_eq!(map.len(), 3);
}
