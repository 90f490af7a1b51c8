use finance_as_code::hmap::HMap;

#[derive(Debug, PartialEq, Eq, Hash)]
enum Key {
    Name,
    Age,
    IsActive,
}

#[test]
fn stores_and_reads_multiple_types() {
    let mut map = HMap::new();

    map.insert(Key::Name, String::from("Alice"));
    map.insert(Key::Age, 30_i64);

    assert_eq!(map.get::<String>(&Key::Name).map(String::as_str), Some("Alice"));
    assert_eq!(map.get::<i64>(&Key::Age), Some(&30));
    assert_eq!(map.len(), 2);
}

#[test]
fn gets_values_of_different_types() {
    let mut map = HMap::new();

    map.insert(Key::Name, String::from("Alice"));
    map.insert(Key::Age, 30_i64);
    map.insert(Key::IsActive, true);

    assert_eq!(map.get::<String>(&Key::Name).map(String::as_str), Some("Alice"));
    assert_eq!(map.get::<i64>(&Key::Age), Some(&30));
    assert_eq!(map.get::<bool>(&Key::IsActive), Some(&true));
}

#[test]
fn get_mut_updates_value() {
    let mut map = HMap::new();
    map.insert(Key::Age, 30_i64);

    *map.get_mut::<i64>(&Key::Age).expect("age should exist") = 31;

    assert_eq!(map.get::<i64>(&Key::Age), Some(&31));
}

#[test]
fn remove_returns_typed_value() {
    let mut map = HMap::new();
    map.insert(Key::Name, String::from("Alice"));

    let removed = map.remove::<String>(&Key::Name);

    assert_eq!(removed.as_deref(), Some("Alice"));
    assert!(!map.contains_key(&Key::Name));
    assert_eq!(map.len(), 0);
}

#[test]
fn insert_returns_previous_value_for_same_type() {
    let mut map = HMap::new();

    assert_eq!(map.insert(Key::Age, 30_i64), None);
    assert_eq!(map.insert(Key::Age, 31_i64), Some(30));
    assert_eq!(map.get::<i64>(&Key::Age), Some(&31));
    assert_eq!(map.len(), 1);
}

#[test]
fn clear_empties_map() {
    let mut map = HMap::new();
    map.insert(Key::Name, String::from("Alice"));
    map.insert(Key::Age, 30_i64);

    map.clear();

    assert!(map.is_empty());
    assert_eq!(map.len(), 0);
}

#[test]
fn partial_eq_is_true_for_equal_non_empty_maps() {
    let mut map1: HMap<Key> = HMap::new();
    let mut map2: HMap<Key> = HMap::new();

    map1.insert(Key::Name, String::from("Alice"));
    map2.insert(Key::Name, String::from("Alice"));

    assert!(map1 == map2);
    assert!(map1 == map1);
}

#[test]
fn partial_eq_is_true_for_maps_with_same_values_in_different_insert_order() {
    let mut map1: HMap<Key> = HMap::new();
    let mut map2: HMap<Key> = HMap::new();

    map1.insert(Key::Name, String::from("Alice"));
    map1.insert(Key::Age, 30_i64);
    map2.insert(Key::Age, 30_i64);
    map2.insert(Key::Name, String::from("Alice"));

    assert!(map1 == map2);
}

#[test]
fn partial_eq_is_false_for_different_values() {
    let mut map1: HMap<Key> = HMap::new();
    let mut map2: HMap<Key> = HMap::new();

    map1.insert(Key::Name, String::from("Alice"));
    map2.insert(Key::Name, String::from("Bob"));

    assert!(map1 != map2);
}

#[test]
fn read_after_write_keeps_other_keys() {
    let mut map = HMap::new();
    map.insert(Key::Name, String::from("Alice"));
    map.insert(Key::Age, 30_i64);
    map.insert(Key::Name, String::from("Bob"));

    assert_eq!(map.get::<String>(&Key::Name).map(String::as_str), Some("Bob"));
    assert_eq!(map.get::<i64>(&Key::Age), Some(&30));
    assert_eq!(map.get::<bool>(&Key::IsActive), None);
}

#[test]
fn remove_of_missing_key_gives_nothing() {
    let mut map: HMap<Key> = HMap::new();
    assert_eq!(map.remove::<i64>(&Key::Age), None);
    assert!(map.is_empty());
}

#[test]
fn debug_for_empty_map_shows_zero_len_and_no_keys() {
    let map: HMap<Key> = HMap::new();

    assert_eq!(map.debug_text(), "HMap { len: 0, keys: [] }");
}

#[test]
fn debug_for_non_empty_map_shows_len_and_sorted_keys() {
    let mut map: HMap<Key> = HMap::new();
    map.insert(Key::Name, String::from("Alice"));
    map.insert(Key::Age, 30_i64);

    assert_eq!(map.debug_text(), "HMap { len: 2, keys: [Age, Name] }");
}

#[test]
fn removing_a_key_shortens_the_map() {
    let mut map: HMap<Key> = HMap::new();
    map.insert(Key::Name, String::from("Alice"));
    map.insert(Key::Age, 30_i64);
    assert_eq!(map.remove::<i64>(&Key::Age), Some(30));
    assert_eq!(map.len(), 1);
    assert_eq!(map.remove::<i64>(&Key::Age), None);
    assert_eq!(map.len(), 1);
}
