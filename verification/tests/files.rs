use pocket_rom_sync::library::{
    extension_of, find_in_host, index_sd_card, rom_with_extension, scan_local_roms, Entry,
};
use pocket_rom_sync::strmap::StrMap;
use pocket_rom_sync::types::LocalRom;

fn file(name: &str, id: usize) -> Entry {
    Entry::File { name: name.to_string(), id }
}

fn other(name: &str, id: usize) -> Entry {
    Entry::Other { name: name.to_string(), id }
}

fn dir(entries: Vec<Entry>) -> Entry {
    Entry::Dir { entries }
}

fn rom(filename: &str, extension: &str, dest_folder: &str) -> LocalRom {
    LocalRom {
        filename: filename.to_string(),
        extension: extension.to_string(),
        dest_folder: dest_folder.to_string(),
    }
}

fn extensions() -> StrMap<String> {
    let mut map = StrMap::new();
    map.insert("gba".to_string(), "Assets/gba/common".to_string());
    map.insert("sfc".to_string(), "Assets/snes/common".to_string());
    map
}

#[test]
fn extension_of_file_names() {
    assert_eq!(extension_of("a.gba"), Some("gba".to_string()));
    assert_eq!(extension_of("a.b.GBA"), Some("GBA".to_string()));
    assert_eq!(extension_of("a."), Some("".to_string()));
    assert_eq!(extension_of(".gba"), None);
    assert_eq!(extension_of("..gba"), Some("gba".to_string()));
    assert_eq!(extension_of(".."), None);
    assert_eq!(extension_of("gba"), None);
    assert_eq!(extension_of(""), None);
}

#[test]
fn extension_of_agrees_with_paths() {
    for name in ["a.gba", "a.b.c", "a.", ".gba", "..gba", "...", "..", "gba", "é.ü", "a..b"] {
        let expected = std::path::Path::new(name).extension().map(|e| e.to_string_lossy().to_string());
        assert_eq!(extension_of(name), expected, "{}", name);
    }
}

#[test]
fn the_library_is_walked_in_order() {
    let tree = vec![
        file("one.gba", 0),
        dir(vec![file("two.SFC", 1), dir(vec![file("three.Gba", 2)]), file("x.txt", 3)]),
        other("pipe.gba", 4),
        dir(vec![]),
        file("four.sfc", 5),
        file("gba", 6),
    ];
    assert_eq!(
        scan_local_roms(&tree, &extensions()),
        vec![
            rom("one.gba", "gba", "Assets/gba/common"),
            rom("two.SFC", "sfc", "Assets/snes/common"),
            rom("three.Gba", "gba", "Assets/gba/common"),
            rom("four.sfc", "sfc", "Assets/snes/common"),
        ]
    );
    assert_eq!(scan_local_roms(&vec![], &extensions()), vec![]);
}

#[test]
fn files_without_extension_match_the_empty_key() {
    let mut map = extensions();
    map.insert("".to_string(), "Assets/none/common".to_string());
    assert_eq!(
        scan_local_roms(&vec![file("README", 0), file(".hidden", 1)], &map),
        vec![rom("README", "", "Assets/none/common"), rom(".hidden", "", "Assets/none/common")]
    );
}

#[test]
fn rom_with_a_given_extension() {
    assert_eq!(
        rom_with_extension("x", "gba".to_string(), &extensions()),
        Some(rom("x", "gba", "Assets/gba/common"))
    );
    assert_eq!(rom_with_extension("x", "GBA".to_string(), &extensions()), None);
}

#[test]
fn the_first_entry_of_a_name_is_found() {
    let tree = vec![
        dir(vec![dir(vec![file("a", 0)]), other("b", 1)]),
        file("b", 2),
        file("c", 3),
        dir(vec![file("c", 4)]),
    ];
    assert_eq!(find_in_host(&tree, "a"), Some(0));
    assert_eq!(find_in_host(&tree, "b"), Some(1));
    assert_eq!(find_in_host(&tree, "c"), Some(3));
    assert_eq!(find_in_host(&tree, "d"), None);
    assert_eq!(find_in_host(&vec![], "a"), None);
}

#[test]
fn the_card_is_indexed_folder_by_folder() {
    let listings = vec![
        vec![file("one.gba", 0), dir(vec![file("two.gba", 0)]), other("three.gba", 0)],
        vec![],
    ];
    let index = index_sd_card(&extensions(), &listings);
    assert_eq!(index.len(), 2);
    assert_eq!(
        index.entry(0),
        (&"Assets/gba/common".to_string(), &vec!["one.gba".to_string()])
    );
    assert_eq!(index.entry(1), (&"Assets/snes/common".to_string(), &vec![]));
}
