use pocket_rom_sync::cores::{
    add_slots, card_folders, discover_core_extensions, platform_of_path, platforms_from_ext_map,
    CoreFile,
};
use pocket_rom_sync::json::{decode_texts, encode_texts, read_slots, DataSlot};
use pocket_rom_sync::strmap::StrMap;

fn core_file(name: &str, data: &str) -> CoreFile {
    CoreFile { name: name.to_string(), data: data.to_string() }
}

fn get(map: &StrMap<String>, key: &str) -> Option<String> {
    map.get(key).cloned()
}

fn texts(pairs: &[(&str, &str)]) -> StrMap<String> {
    let mut map = StrMap::new();
    for (key, value) in pairs {
        map.insert(key.to_string(), value.to_string());
    }
    map
}

#[test]
fn slots_are_read_from_json() {
    let slots = read_slots(
        r#"{"data": {"data_slots": [
            {"parameters": 9, "filename": "Assets/gba/common/x.bin", "extensions": ["GBA", 3, "bin"]},
            {"parameters": "9", "extensions": "gba"},
            {"parameters": -1, "filename": null}
        ]}}"#,
    )
    .unwrap();
    assert_eq!(slots.len(), 3);
    assert_eq!(
        slots[0],
        DataSlot {
            parameters: Some(9),
            filename: Some("Assets/gba/common/x.bin".to_string()),
            extensions: Some(vec![Some("GBA".to_string()), None, Some("bin".to_string())]),
        }
    );
    assert_eq!(slots[1], DataSlot { parameters: None, filename: None, extensions: None });
    assert_eq!(slots[2], DataSlot { parameters: None, filename: None, extensions: None });
}

#[test]
fn documents_without_slots() {
    assert!(read_slots("not json").is_none());
    assert!(read_slots("").is_none());
    assert!(read_slots("[]").is_none());
    assert!(read_slots(r#"{"data": {}}"#).is_none());
    assert!(read_slots(r#"{"data": {"data_slots": {}}}"#).is_none());
    assert_eq!(read_slots(r#"{"data": {"data_slots": []}}"#).unwrap().len(), 0);
}

#[test]
fn extensions_go_to_the_folder_of_the_platform() {
    let map = discover_core_extensions(&vec![
        core_file(
            "Spiritualized.GBA",
            r#"{"data": {"data_slots": [{"extensions": ["GBA", "Bin"]}]}}"#,
        ),
        core_file(
            "Other.Core",
            r#"{"data": {"data_slots": [{"filename": "Assets/snes/common/x", "extensions": ["sfc"]}]}}"#,
        ),
    ]);
    assert_eq!(map.len(), 3);
    assert_eq!(get(&map, "gba"), Some("Assets/gba/common".to_string()));
    assert_eq!(get(&map, "bin"), Some("Assets/gba/common".to_string()));
    assert_eq!(get(&map, "sfc"), Some("Assets/snes/common".to_string()));
    assert_eq!(get(&map, "GBA"), None);
}

#[test]
fn slots_that_the_user_does_not_fill_are_passed_over() {
    for parameters in [2u64, 4, 6, 7, 0x102] {
        let data = format!(
            r#"{{"data": {{"data_slots": [{{"parameters": {}, "extensions": ["gba"]}}]}}}}"#,
            parameters
        );
        assert!(discover_core_extensions(&vec![core_file("A.B", &data)]).is_empty());
    }
    for parameters in [0u64, 1, 8, 9, 0x109] {
        let data = format!(
            r#"{{"data": {{"data_slots": [{{"parameters": {}, "extensions": ["gba"]}}]}}}}"#,
            parameters
        );
        assert_eq!(discover_core_extensions(&vec![core_file("A.B", &data)]).len(), 1);
    }
}

#[test]
fn broken_cores_are_passed_over() {
    let map = discover_core_extensions(&vec![
        core_file("A.B", "{"),
        core_file("A.C", r#"{"data": {"data_slots": [{"parameters": 1}]}}"#),
        core_file("A.NES", r#"{"data": {"data_slots": [{"extensions": ["nes"]}]}}"#),
    ]);
    assert_eq!(map.len(), 1);
    assert_eq!(get(&map, "nes"), Some("Assets/nes/common".to_string()));
    assert!(discover_core_extensions(&vec![]).is_empty());
}

#[test]
fn the_last_core_wins() {
    let data = r#"{"data": {"data_slots": [{"extensions": ["bin"]}]}}"#;
    let map = discover_core_extensions(&vec![core_file("a.ONE", data), core_file("a.TWO", data)]);
    assert_eq!(map.len(), 1);
    assert_eq!(get(&map, "bin"), Some("Assets/two/common".to_string()));
}

#[test]
fn platform_of_a_slot() {
    let path = |p: &str| platform_of_path(&Some(p.to_string()));
    assert_eq!(path("Assets/gb/common"), Some("gb".to_string()));
    assert_eq!(path("Assets//x"), Some("".to_string()));
    assert_eq!(path("Assets/gb"), None);
    assert_eq!(path("assets/gb/common"), None);
    assert_eq!(path("/Assets/gb/common"), None);
    assert_eq!(platform_of_path(&None), None);
}

#[test]
fn slots_can_be_added_to_a_map() {
    let mut map = texts(&[("gb", "old")]);
    let slots = vec![DataSlot {
        parameters: Some(8),
        filename: None,
        extensions: Some(vec![Some("GB".to_string()), None]),
    }];
    add_slots(&mut map, &slots, "No Dots");
    assert_eq!(map.len(), 1);
    assert_eq!(get(&map, "gb"), Some("Assets/no dots/common".to_string()));
}

#[test]
fn platforms_and_folders_are_sorted_and_occur_once() {
    let map = texts(&[
        ("sfc", "Assets/snes/common"),
        ("smc", "Assets/snes/common"),
        ("gba", "Assets/gba/common"),
        ("x", "nowhere"),
        ("z", "Assets/Zeta/common"),
        ("é", "Assets/é/common"),
    ]);
    assert_eq!(platforms_from_ext_map(&map), vec!["Zeta", "gba", "snes", "unknown", "é"]);
    assert_eq!(
        card_folders(&map),
        vec![
            "Assets/Zeta/common",
            "Assets/gba/common",
            "Assets/snes/common",
            "Assets/é/common",
            "nowhere",
        ]
    );
}

#[test]
fn stored_extensions_are_read_back() {
    let map = texts(&[("gba", "Assets/gba/common"), ("\"é\\\n", "\u{1}"), ("", "")]);
    let bytes = encode_texts(&map).unwrap();
    assert_eq!(bytes[0], b'{');
    let back = decode_texts(&bytes).unwrap();
    assert_eq!(back.len(), 3);
    assert_eq!(get(&back, "gba"), Some("Assets/gba/common".to_string()));
    assert_eq!(get(&back, "\"é\\\n"), Some("\u{1}".to_string()));
    assert_eq!(get(&back, ""), Some("".to_string()));
}

#[test]
fn bytes_that_hold_no_map() {
    assert!(decode_texts(&b"[]".to_vec()).is_none());
    assert!(decode_texts(&b"{\"a\": 1}".to_vec()).is_none());
    assert!(decode_texts(&Vec::new()).is_none());
    assert_eq!(decode_texts(&b"{}".to_vec()).unwrap().len(), 0);
}

#[test]
fn maps_keep_the_order_of_their_keys() {
    let mut map = texts(&[("b", "1"), ("a", "2")]);
    map.insert("b".to_string(), "3".to_string());
    assert_eq!(map.entry(0), (&"b".to_string(), &"3".to_string()));
    assert_eq!(map.entry(1), (&"a".to_string(), &"2".to_string()));
    assert_eq!(map.len(), 2);
    assert!(!map.is_empty());
}
