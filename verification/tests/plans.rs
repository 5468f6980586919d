use pocket_rom_sync::plan::build_sync_plan;
use pocket_rom_sync::strmap::StrMap;
use pocket_rom_sync::types::{ConflictGroup, LocalRom, OrphanRom, Settings};

const GBA: &str = "Assets/gba/common";
const SNES: &str = "Assets/snes/common";

fn rom(filename: &str, dest_folder: &str) -> LocalRom {
    LocalRom {
        filename: filename.to_string(),
        extension: "x".to_string(),
        dest_folder: dest_folder.to_string(),
    }
}

fn strings(texts: &[&str]) -> Vec<String> {
    texts.iter().map(|t| t.to_string()).collect()
}

fn index(folders: &[(&str, &[&str])]) -> StrMap<Vec<String>> {
    let mut map = StrMap::new();
    for (folder, files) in folders {
        map.insert(folder.to_string(), strings(files));
    }
    map
}

fn settings(smart_version_matching: bool, sync_deletions: bool) -> Settings {
    Settings { smart_version_matching, sync_deletions }
}

#[test]
fn missing_files_are_copied() {
    let roms = vec![rom("a.gba", GBA), rom("b.gba", GBA), rom("c.sfc", SNES)];
    let plan = build_sync_plan(
        &roms,
        &index(&[(GBA, &["a.gba", "z.gba"])]),
        &settings(false, false),
        &strings(&["gba", "snes"]),
    );
    assert_eq!(plan.to_copy, vec![rom("b.gba", GBA), rom("c.sfc", SNES)]);
    assert_eq!(plan.conflicts, vec![]);
    assert_eq!(plan.orphans, vec![]);
}

#[test]
fn only_selected_platforms_are_planned() {
    let roms = vec![rom("a.gba", GBA), rom("c.sfc", SNES)];
    let card = index(&[(GBA, &["y.gba"]), (SNES, &["z.sfc"])]);
    let plan = build_sync_plan(&roms, &card, &settings(true, true), &strings(&["snes"]));
    assert_eq!(plan.to_copy, vec![rom("c.sfc", SNES)]);
    assert_eq!(
        plan.orphans,
        vec![OrphanRom { filename: "z.sfc".to_string(), folder: SNES.to_string() }]
    );
    let none = build_sync_plan(&roms, &card, &settings(true, true), &vec![]);
    assert_eq!(none.to_copy, vec![]);
    assert_eq!(none.orphans, vec![]);
}

#[test]
fn a_platform_is_selected_by_any_part_of_the_path() {
    let roms = vec![rom("a.gba", GBA), rom("c.sfc", SNES)];
    let plan = build_sync_plan(&roms, &index(&[]), &settings(false, false), &strings(&["common"]));
    assert_eq!(plan.to_copy.len(), 2);
    let plan = build_sync_plan(&roms, &index(&[]), &settings(false, false), &strings(&[""]));
    assert_eq!(plan.to_copy.len(), 2);
}

#[test]
fn other_versions_are_flagged() {
    let roms = vec![
        rom("Game (v1.1).gba", GBA),
        rom("Other.gba", GBA),
        rom("Game (Rev 2).gba", GBA),
        rom("Same.gba", GBA),
    ];
    let card = index(&[(GBA, &["Game (v1.0).gba", "Game.gba", "Same.gba", ".gba"])]);
    let plan = build_sync_plan(&roms, &card, &settings(true, false), &strings(&["gba"]));
    assert_eq!(plan.to_copy, vec![rom("Other.gba", GBA)]);
    assert_eq!(
        plan.conflicts,
        vec![ConflictGroup {
            base: "Game".to_string(),
            local: vec![rom("Game (v1.1).gba", GBA), rom("Game (Rev 2).gba", GBA)],
            on_card: strings(&["Game (v1.0).gba", "Game.gba"]),
        }]
    );
}

#[test]
fn without_smart_matching_names_are_exact() {
    let roms = vec![rom("Game (v1.1).gba", GBA), rom("Same.gba", GBA)];
    let card = index(&[(GBA, &["Game (v1.0).gba", "Same.gba"])]);
    let plan = build_sync_plan(&roms, &card, &settings(false, false), &strings(&["gba"]));
    assert_eq!(plan.to_copy, vec![rom("Game (v1.1).gba", GBA)]);
    assert_eq!(plan.conflicts, vec![]);
}

#[test]
fn files_without_a_base_name_do_not_conflict() {
    let roms = vec![rom("(v1.1).gba", GBA)];
    let card = index(&[(GBA, &["(v1.0).gba"])]);
    let plan = build_sync_plan(&roms, &card, &settings(true, false), &strings(&["gba"]));
    assert_eq!(plan.to_copy, roms);
    assert_eq!(plan.conflicts, vec![]);
}

#[test]
fn groups_join_by_name_across_folders() {
    let roms = vec![rom("Game (v1.1).gba", GBA), rom("Game (v1.2).sfc", SNES)];
    let card = index(&[(GBA, &["Game.gba"]), (SNES, &["Game.sfc"])]);
    let plan = build_sync_plan(&roms, &card, &settings(true, false), &strings(&["common"]));
    assert_eq!(
        plan.conflicts,
        vec![ConflictGroup { base: "Game".to_string(), local: roms, on_card: strings(&["Game.gba"]) }]
    );
}

#[test]
fn orphans_are_what_the_whole_library_lacks() {
    let roms = vec![rom("a.gba", SNES)];
    let card = index(&[(SNES, &["b.sfc", "a.gba"]), (GBA, &["a.gba", "c.gba"])]);
    let plan = build_sync_plan(&roms, &card, &settings(false, true), &strings(&["gba", "snes"]));
    assert_eq!(
        plan.orphans,
        vec![
            OrphanRom { filename: "b.sfc".to_string(), folder: SNES.to_string() },
            OrphanRom { filename: "c.gba".to_string(), folder: GBA.to_string() },
        ]
    );
    let plan = build_sync_plan(&roms, &card, &settings(false, false), &strings(&["gba", "snes"]));
    assert_eq!(plan.orphans, vec![]);
}

#[test]
fn each_selected_file_has_one_fate() {
    let roms = vec![rom("a.gba", GBA), rom("b (v1.0).gba", GBA), rom("c.gba", GBA)];
    let card = index(&[(GBA, &["a.gba", "b.gba"])]);
    let plan = build_sync_plan(&roms, &card, &settings(true, true), &strings(&["gba"]));
    assert_eq!(plan.to_copy, vec![rom("c.gba", GBA)]);
    assert_eq!(plan.conflicts.len(), 1);
    assert_eq!(plan.conflicts[0].local, vec![rom("b (v1.0).gba", GBA)]);
}
