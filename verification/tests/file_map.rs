use finance_as_code::file_map::JsonFileMap;

fn create_map() -> JsonFileMap {
    JsonFileMap::new("/tmp/cache/map.json".to_string())
}

#[test]
fn stores_and_retrieves_values() {
    let mut map = create_map();

    map.put("name", "Alice");
    map.put("city", "Warsaw");

    assert_eq!(map.get("name"), Some("Alice"));
    assert_eq!(map.get("city"), Some("Warsaw"));
    assert_eq!(map.get("unknown"), None);
}

#[test]
fn returns_previous_value_on_put() {
    let mut map = create_map();

    assert_eq!(map.put("key", "value1"), None);
    assert_eq!(map.put("key", "value2").as_deref(), Some("value1"));
    assert_eq!(map.get("key"), Some("value2"));
}

#[test]
fn path_returns_correct_path() {
    let map = JsonFileMap::new("/var/data/cache.json".to_string());
    assert_eq!(map.path(), "/var/data/cache.json");
}

#[test]
fn handles_special_characters_in_keys_and_values() {
    let mut map = create_map();

    map.put("key with spaces", "value with spaces");
    map.put("unicode", "日本語");
    map.put("special", "\"quotes\" and \\backslash");

    assert_eq!(map.get("key with spaces"), Some("value with spaces"));
    assert_eq!(map.get("unicode"), Some("日本語"));
    assert_eq!(map.get("special"), Some("\"quotes\" and \\backslash"));
}

#[test]
fn entries_hold_each_key_once_with_its_last_value() {
    let mut map = create_map();
    map.put("a", "1");
    map.put("b", "2");
    map.put("a", "3");
    let entries = map.entries();
    assert_eq!(entries.len(), 2);
    assert!(entries.contains(&("a".to_string(), "3".to_string())));
    assert!(entries.contains(&("b".to_string(), "2".to_string())));
}
