use pocket_rom_sync::cores::CoreFile;
use pocket_rom_sync::library::Entry;
use pocket_rom_sync::protocol::{Effect, Event, Next, Pending, Request, Turn};
use pocket_rom_sync::session::{handle_answer, toggle_selection};
use pocket_rom_sync::strmap::StrMap;
use pocket_rom_sync::types::{
    HostMessage, LocalRom, OrphanRom, PluginMessage, PluginState, SerialConflict, Settings,
};
use pocket_rom_sync::{can_resume, handle_response, resume, start};

const GBA: &str = "Assets/gba/common";
const SNES: &str = "Assets/snes/common";

fn strings(texts: &[&str]) -> Vec<String> {
    texts.iter().map(|t| t.to_string()).collect()
}

fn pairs(texts: &[(&str, &str)]) -> Vec<(String, String)> {
    texts.iter().map(|(a, b)| (a.to_string(), b.to_string())).collect()
}

/// A host with a card, a library and a store, all in memory.
struct World {
    cores: Vec<(String, String)>,
    library: Vec<String>,
    card: Vec<(String, String)>,
    settings: Option<Settings>,
    state: Option<PluginState>,
    ext_map: Option<Vec<u8>>,
    read_only: bool,
    printed: String,
}

impl World {
    fn new(library: &[&str], card: &[(&str, &str)]) -> World {
        World {
            cores: pairs(&[
                ("A.GBA", r#"{"data": {"data_slots": [{"extensions": ["gba"]}]}}"#),
                ("A.SNES", r#"{"data": {"data_slots": [{"extensions": ["sfc"]}]}}"#),
            ]),
            library: strings(library),
            card: pairs(card),
            settings: None,
            state: None,
            ext_map: None,
            read_only: false,
            printed: String::new(),
        }
    }

    fn apply(&mut self, effect: Effect) {
        match effect {
            Effect::Print(words) => self.printed.push_str(&words),
            Effect::SaveSettings(settings) => self.settings = Some(settings),
            Effect::SaveState(state) => self.state = Some(state),
            Effect::SaveExtMap(bytes) => self.ext_map = Some(bytes),
            Effect::RemoveFile { folder, filename } => {
                self.card.retain(|(f, n)| !(f == &folder && n == &filename));
            }
        }
    }

    fn answer(&mut self, request: Request) -> Event {
        match request {
            Request::ReadCores => Event::Cores(
                self.cores
                    .iter()
                    .map(|(name, data)| CoreFile { name: name.clone(), data: data.clone() })
                    .collect(),
            ),
            Request::ReadSettings => Event::Settings(self.settings),
            Request::ReadState => Event::State(self.state.clone()),
            Request::ReadExtMap => Event::ExtMap(self.ext_map.clone()),
            Request::ReadLibrary => Event::Library(
                self.library
                    .iter()
                    .enumerate()
                    .map(|(id, name)| Entry::File { name: name.clone(), id })
                    .collect(),
            ),
            Request::ReadFolders(folders) => Event::Folders(
                folders
                    .iter()
                    .map(|folder| {
                        self.card
                            .iter()
                            .filter(|(f, _)| f == folder)
                            .map(|(_, name)| Entry::File { name: name.clone(), id: 0 })
                            .collect()
                    })
                    .collect(),
            ),
            Request::CopyFile { source, folder, filename } => {
                assert_eq!(self.library[source], filename);
                if self.read_only {
                    return Event::Done(Err("read-only".to_string()));
                }
                self.card.push((folder, filename));
                Event::Done(Ok(()))
            }
            Request::DeleteFile { folder, filename } => {
                if self.read_only {
                    return Event::Done(Err("read-only".to_string()));
                }
                self.card.retain(|(f, n)| !(f == &folder && n == &filename));
                Event::Done(Ok(()))
            }
        }
    }

    fn drive(&mut self, mut turn: Turn) -> PluginMessage {
        loop {
            for effect in turn.effects {
                self.apply(effect);
            }
            match turn.next {
                Next::Finish(message) => return message,
                Next::Ask { request, pending } => {
                    let event = self.answer(request);
                    assert!(can_resume(&pending, &event));
                    turn = resume(pending, event);
                }
            }
        }
    }

    fn say(&mut self, name: &str, value: &str) -> PluginMessage {
        self.printed.clear();
        let turn = handle_response(HostMessage::Answer {
            name: name.to_string(),
            value: value.to_string(),
        });
        self.drive(turn)
    }
}

fn choice(name: &str, query: &str, choices: &[&str]) -> PluginMessage {
    PluginMessage::Choice {
        name: name.to_string(),
        query: query.to_string(),
        choices: strings(choices),
    }
}

fn empty_state() -> PluginState {
    PluginState {
        stage: "platform-select".to_string(),
        settings: Settings::default(),
        selected_platforms: Vec::new(),
        available_platforms: Vec::new(),
        to_copy: Vec::new(),
        conflicts: Vec::new(),
        orphans: Vec::new(),
        copied: 0,
        deleted: 0,
        skipped: 0,
    }
}

fn conflict(card_files: &[&str]) -> SerialConflict {
    SerialConflict {
        base: "Game".to_string(),
        local_files: strings(&["Game (v2.0).gba"]),
        card_files: strings(card_files),
        dest_folder: GBA.to_string(),
    }
}

#[test]
fn the_first_question() {
    assert_eq!(
        start(),
        choice("main-menu", "🎮 Pocket ROM Sync", &["Sync ROMs", "Settings", "Exit"])
    );
}

#[test]
fn kill_and_unknown_answers_end_the_plugin() {
    let exit = || Turn { effects: vec![], next: Next::Finish(PluginMessage::Exit) };
    assert_eq!(handle_response(HostMessage::Kill), exit());
    assert_eq!(handle_answer("main-menu", "Exit"), exit());
    assert_eq!(handle_answer("main-menu", "sync roms"), exit());
    assert_eq!(handle_answer("nowhere", "Sync ROMs"), exit());
    assert_eq!(handle_answer("", ""), exit());
}

#[test]
fn without_cores_the_plugin_ends() {
    let mut world = World::new(&[], &[]);
    world.cores.clear();
    assert_eq!(world.say("main-menu", "Sync ROMs"), PluginMessage::Exit);
    assert_eq!(
        world.printed,
        "Reading cores from your SD card...\nNo cores found. Please insert your Pocket SD card and try again.\n"
    );
    assert_eq!(world.state, None);
}

#[test]
fn a_synchronisation_begins_with_the_platforms() {
    let mut world = World::new(&[], &[]);
    world.settings = Some(Settings { smart_version_matching: true, sync_deletions: false });
    assert_eq!(
        world.say("main-menu", "Sync ROMs"),
        choice(
            "platform-select",
            "Which platforms would you like to sync?\n(Select platforms then choose Continue)",
            &["GBA", "SNES", "── Select All ──", "── Continue ──"],
        )
    );
    assert_eq!(world.printed, "Reading cores from your SD card...\n");
    let mut expected = empty_state();
    expected.settings.smart_version_matching = true;
    expected.available_platforms = strings(&["gba", "snes"]);
    assert_eq!(world.state, Some(expected));
    assert!(world.ext_map.is_some());
}

#[test]
fn settings_switch_and_switch_back() {
    let mut world = World::new(&[], &[]);
    let off = choice(
        "settings-menu",
        "Settings",
        &["Smart version matching: OFF", "Sync deletions from local library: OFF", "Back"],
    );
    assert_eq!(world.say("main-menu", "Settings"), off);
    assert_eq!(
        world.say("settings-menu", "Smart version matching: OFF"),
        choice(
            "settings-menu",
            "Settings",
            &["Smart version matching: ON ✓", "Sync deletions from local library: OFF", "Back"],
        )
    );
    assert_eq!(
        world.printed,
        "Smart version matching: ON — ROMs with similar names but different version numbers will be flagged for review.\n"
    );
    assert_eq!(world.say("settings-menu", "Smart version matching: ON ✓"), off);
    assert_eq!(
        world.printed,
        "Smart version matching: OFF — Only exact filename matches will be skipped.\n"
    );
    assert_eq!(
        world.say("settings-menu", "Sync deletions from local library: OFF"),
        choice(
            "settings-menu",
            "Settings",
            &["Smart version matching: OFF", "Sync deletions from local library: ON ✓", "Back"],
        )
    );
    assert_eq!(
        world.printed,
        "Sync deletions: ON — ROMs missing from your local library will be listed for optional removal.\n"
    );
    assert_eq!(
        world.settings,
        Some(Settings { smart_version_matching: false, sync_deletions: true })
    );
    assert_eq!(world.say("settings-menu", "Sync deletions from local library: ON ✓"), off);
    assert_eq!(world.printed, "Sync deletions: OFF — Nothing will be removed from your SD card.\n");
    assert_eq!(world.say("settings-menu", "Back"), off);
    assert_eq!(world.printed, "");
    assert_eq!(world.settings, Some(Settings::default()));
}

#[test]
fn platforms_are_selected_one_by_one() {
    let mut world = World::new(&[], &[]);
    world.say("main-menu", "Sync ROMs");
    assert_eq!(
        world.say("platform-select", "GBA"),
        choice(
            "platform-select",
            "Which platforms would you like to sync?\nSelected: GBA",
            &["GBA ✓", "SNES", "── Select All ──", "── Continue ──"],
        )
    );
    assert_eq!(
        world.say("platform-select", "snes"),
        choice(
            "platform-select",
            "Which platforms would you like to sync?\nSelected: GBA, SNES",
            &["GBA ✓", "SNES ✓", "── Select All ──", "── Continue ──"],
        )
    );
    assert_eq!(
        world.say("platform-select", "GBA"),
        choice(
            "platform-select",
            "Which platforms would you like to sync?\nSelected: SNES",
            &["GBA", "SNES ✓", "── Select All ──", "── Continue ──"],
        )
    );
    assert_eq!(
        world.say("platform-select", "SNES"),
        choice(
            "platform-select",
            "Which platforms would you like to sync?\nSelected: None selected",
            &["GBA", "SNES", "── Select All ──", "── Continue ──"],
        )
    );
    assert_eq!(world.printed, "");
}

#[test]
fn all_platforms_are_selected_at_once() {
    let mut world = World::new(&[], &[]);
    world.say("main-menu", "Sync ROMs");
    assert_eq!(
        world.say("platform-select", "── Select All ──"),
        choice(
            "platform-select",
            "Which platforms would you like to sync?\nSelected: GBA, SNES",
            &["GBA ✓", "SNES ✓", "── Select All ──", "── Continue ──"],
        )
    );
    assert_eq!(world.printed, "All platforms selected.\n");
}

#[test]
fn a_selection_drops_every_occurrence() {
    let mut selected = strings(&["a", "b", "a"]);
    toggle_selection(&mut selected, "a".to_string());
    assert_eq!(selected, strings(&["b"]));
    toggle_selection(&mut selected, "a".to_string());
    assert_eq!(selected, strings(&["b", "a"]));
}

#[test]
fn without_a_platform_nothing_is_scanned() {
    let mut world = World::new(&[], &[]);
    world.say("main-menu", "Sync ROMs");
    assert_eq!(
        world.say("platform-select", "── Continue ──"),
        choice(
            "platform-select",
            "Please select at least one platform to sync.",
            &["GBA", "SNES", "── Select All ──", "── Continue ──"],
        )
    );
    assert_eq!(world.printed, "");
}

#[test]
fn a_missing_state_is_replaced_or_ends_the_plugin() {
    let mut world = World::new(&[], &[]);
    world.settings = Some(Settings { smart_version_matching: false, sync_deletions: true });
    assert_eq!(
        world.say("platform-select", "GBA"),
        choice(
            "platform-select",
            "Which platforms would you like to sync?\nSelected: GBA",
            &["── Select All ──", "── Continue ──"],
        )
    );
    let mut expected = empty_state();
    expected.settings.sync_deletions = true;
    expected.selected_platforms = strings(&["gba"]);
    assert_eq!(world.state, Some(expected));
    world.state = None;
    assert_eq!(world.say("preview-confirm", "Yes, start sync"), PluginMessage::Exit);
    assert_eq!(world.say("conflict-resolve", "Skip this conflict"), PluginMessage::Exit);
    assert_eq!(world.say("orphan-review", "Done"), PluginMessage::Exit);
    assert_eq!(world.printed, "");
}

#[test]
fn a_plan_can_be_cancelled() {
    let mut world = World::new(&["a.gba"], &[]);
    assert_eq!(world.say("preview-confirm", "Cancel"), PluginMessage::Exit);
    assert_eq!(world.printed, "Sync cancelled.\n");
    assert_eq!(world.card, vec![]);
}

#[test]
fn a_synchronisation_without_questions() {
    let mut world = World::new(&["a.gba", "b.sfc", "c.gba", "x.txt"], &[(GBA, "c.gba")]);
    world.say("main-menu", "Sync ROMs");
    world.say("platform-select", "── Select All ──");
    assert_eq!(
        world.say("platform-select", "── Continue ──"),
        choice(
            "preview-confirm",
            "Ready to sync\n\n  2 ROM(s) to copy\n  0 version conflict(s) to review\n  0 SD-only file(s) found\n\nContinue?",
            &["Yes, start sync", "Cancel"],
        )
    );
    assert_eq!(
        world.printed,
        "Scanning your ROM library — this may take a moment for large collections...\n"
    );
    let state = world.state.clone().unwrap();
    assert_eq!(state.stage, "preview");
    assert_eq!(state.to_copy, pairs(&[("a.gba", GBA), ("b.sfc", SNES)]));
    assert_eq!(world.say("preview-confirm", "Yes, start sync"), PluginMessage::Exit);
    assert_eq!(
        world.printed,
        "Copying 2 ROM(s) to your SD card...\n██\n\n✓ Sync complete\n  Copied:  2\n  Removed: 0\n  Skipped: 0\n"
    );
    assert_eq!(world.card, pairs(&[(GBA, "c.gba"), (GBA, "a.gba"), (SNES, "b.sfc")]));
    assert_eq!(world.state.unwrap().to_copy, vec![]);
}

#[test]
fn a_second_synchronisation_has_nothing_to_copy() {
    let mut world = World::new(&["a.gba"], &[]);
    for expected in ["1 ROM(s)", "0 ROM(s)"] {
        world.say("main-menu", "Sync ROMs");
        world.say("platform-select", "── Select All ──");
        let preview = world.say("platform-select", "── Continue ──");
        assert!(format!("{:?}", preview).contains(expected));
        world.say("preview-confirm", "Yes, start sync");
    }
    assert_eq!(world.card, pairs(&[(GBA, "a.gba")]));
}

#[test]
fn failed_copies_are_told_and_not_counted() {
    let mut world = World::new(&["a.gba"], &[]);
    world.read_only = true;
    let mut state = empty_state();
    state.to_copy = pairs(&[("gone.gba", GBA), ("a.gba", GBA)]);
    world.state = Some(state);
    assert_eq!(world.say("preview-confirm", "Yes, start sync"), PluginMessage::Exit);
    assert_eq!(
        world.printed,
        "Copying 2 ROM(s) to your SD card...\n\nFailed to copy gone.gba: Could not find gone.gba in host\n\nFailed to copy a.gba: read-only\n\n\n✓ Sync complete\n  Copied:  0\n  Removed: 0\n  Skipped: 0\n"
    );
}

#[test]
fn conflicts_are_settled_one_by_one() {
    let mut world = World::new(
        &["Game (v2.0).gba", "Other (v2.0).gba", "Third (v2.0).gba"],
        &[(GBA, "Game.gba"), (GBA, "Game (v1.0).gba"), (GBA, "Other.gba"), (GBA, "Third.gba")],
    );
    world.settings = Some(Settings { smart_version_matching: true, sync_deletions: false });
    world.say("main-menu", "Sync ROMs");
    world.say("platform-select", "GBA");
    assert_eq!(
        world.say("platform-select", "── Continue ──"),
        choice(
            "preview-confirm",
            "Ready to sync\n\n  0 ROM(s) to copy\n  3 version conflict(s) to review\n  0 SD-only file(s) found\n\nContinue?",
            &["Yes, start sync", "Cancel"],
        )
    );
    assert_eq!(
        world.say("preview-confirm", "Yes, start sync"),
        choice(
            "conflict-resolve",
            "Version conflict: \"Game\"\n\nOn SD card:\nGame.gba\nGame (v1.0).gba\n\nIn your library:\nGame (v2.0).gba\n\nWhat would you like to do?",
            &[
                "Keep on card: Game.gba",
                "Keep on card: Game (v1.0).gba",
                "Copy new: Game (v2.0).gba",
                "Skip this conflict",
            ],
        )
    );
    assert_eq!(
        world.say("conflict-resolve", "Copy new: Game (v2.0).gba"),
        choice(
            "conflict-resolve",
            "Version conflict: \"Other\"\n\nOn SD card:\nOther.gba\n\nIn your library:\nOther (v2.0).gba\n\nWhat would you like to do?",
            &["Keep on card: Other.gba", "Copy new: Other (v2.0).gba", "Skip this conflict"],
        )
    );
    assert_eq!(world.card, pairs(&[(GBA, "Other.gba"), (GBA, "Third.gba")]));
    let state = world.state.clone().unwrap();
    assert_eq!(state.deleted, 2);
    assert_eq!(state.to_copy, pairs(&[("Game (v2.0).gba", GBA)]));
    world.say("conflict-resolve", "Skip this conflict");
    assert_eq!(world.state.clone().unwrap().skipped, 1);
    assert_eq!(world.say("conflict-resolve", "Keep on card: Third.gba"), PluginMessage::Exit);
    assert_eq!(
        world.printed,
        "Copying 1 ROM(s) to your SD card...\n█\n\n✓ Sync complete\n  Copied:  1\n  Removed: 2\n  Skipped: 1\n"
    );
    assert_eq!(
        world.card,
        pairs(&[(GBA, "Other.gba"), (GBA, "Third.gba"), (GBA, "Game (v2.0).gba")])
    );
}

#[test]
fn an_answer_without_a_conflict_goes_on_to_the_copies() {
    let mut world = World::new(&[], &[]);
    world.state = Some(empty_state());
    assert_eq!(world.say("conflict-resolve", "Skip this conflict"), PluginMessage::Exit);
    assert_eq!(world.state.clone().unwrap().skipped, 0);
    assert_eq!(
        world.printed,
        "Copying 0 ROM(s) to your SD card...\n\n\n✓ Sync complete\n  Copied:  0\n  Removed: 0\n  Skipped: 0\n"
    );
}

#[test]
fn words_before_a_name_are_dropped_as_often_as_they_stand_there() {
    let mut world = World::new(&[], &[]);
    let mut state = empty_state();
    state.conflicts = vec![conflict(&[]), conflict(&[])];
    world.state = Some(state);
    world.say("conflict-resolve", "Copy new: Copy new: x");
    assert_eq!(world.state.unwrap().to_copy, pairs(&[("x", GBA)]));
}

#[test]
fn orphans_are_removed_by_choice() {
    let mut world = World::new(&["a.gba"], &[(GBA, "a.gba"), (GBA, "b.gba"), (SNES, "c.sfc")]);
    world.settings = Some(Settings { smart_version_matching: false, sync_deletions: true });
    world.say("main-menu", "Sync ROMs");
    world.say("platform-select", "── Select All ──");
    assert_eq!(
        world.say("platform-select", "── Continue ──"),
        choice(
            "preview-confirm",
            "Ready to sync\n\n  0 ROM(s) to copy\n  0 version conflict(s) to review\n  2 SD-only file(s) found\n\nContinue?",
            &["Yes, start sync", "Cancel"],
        )
    );
    assert_eq!(
        world.say("preview-confirm", "Yes, start sync"),
        choice(
            "orphan-review",
            "These 2 file(s) are on your SD card but not in your local library.\nSelect any you'd like to remove:",
            &["Delete: b.gba", "Delete: c.sfc", "Done"],
        )
    );
    assert_eq!(
        world.say("orphan-review", "Delete: nowhere"),
        choice(
            "orphan-review",
            "These 2 file(s) are on your SD card but not in your local library.\nSelect any you'd like to remove:",
            &["Delete: b.gba", "Delete: c.sfc", "Done"],
        )
    );
    assert_eq!(
        world.say("orphan-review", "Delete: b.gba"),
        choice(
            "orphan-review",
            "These 1 file(s) are on your SD card but not in your local library.\nSelect any you'd like to remove:",
            &["Delete: c.sfc", "Done"],
        )
    );
    assert_eq!(world.printed, "Removed: b.gba\n");
    assert_eq!(world.card, pairs(&[(GBA, "a.gba"), (SNES, "c.sfc")]));
    assert_eq!(world.say("orphan-review", "Done"), PluginMessage::Exit);
    assert_eq!(
        world.printed,
        "\n✓ Sync complete\n  Copied:  0\n  Removed: 1\n  Skipped: 0\n"
    );
    assert_eq!(world.card, pairs(&[(GBA, "a.gba"), (SNES, "c.sfc")]));
}

#[test]
fn the_last_orphan_is_followed_by_the_report() {
    let mut world = World::new(&[], &[(GBA, "b.gba")]);
    let mut state = empty_state();
    state.orphans = pairs(&[("b.gba", GBA)]);
    state.copied = 10;
    world.state = Some(state);
    assert_eq!(world.say("orphan-review", "Delete: b.gba"), PluginMessage::Exit);
    assert_eq!(
        world.printed,
        "Removed: b.gba\n\n✓ Sync complete\n  Copied:  10\n  Removed: 1\n  Skipped: 0\n"
    );
}

#[test]
fn a_failed_removal_is_told_and_not_counted() {
    let mut world = World::new(&[], &[(GBA, "b.gba")]);
    world.read_only = true;
    let mut state = empty_state();
    state.orphans = pairs(&[("b.gba", GBA)]);
    world.state = Some(state);
    assert_eq!(world.say("orphan-review", "Delete: b.gba"), PluginMessage::Exit);
    assert_eq!(
        world.printed,
        "Failed to remove b.gba: read-only\n\n✓ Sync complete\n  Copied:  0\n  Removed: 0\n  Skipped: 0\n"
    );
    assert_eq!(world.card, pairs(&[(GBA, "b.gba")]));
}

#[test]
fn with_deletions_switched_off_orphans_stay() {
    let mut world = World::new(&[], &[(GBA, "b.gba")]);
    world.say("main-menu", "Sync ROMs");
    world.say("platform-select", "── Select All ──");
    world.say("platform-select", "── Continue ──");
    assert_eq!(world.say("preview-confirm", "Yes, start sync"), PluginMessage::Exit);
    assert_eq!(world.card, pairs(&[(GBA, "b.gba")]));
}

#[test]
fn an_unreadable_map_of_extensions_gives_an_empty_plan() {
    let mut world = World::new(&["a.gba"], &[(GBA, "b.gba")]);
    let mut state = empty_state();
    state.selected_platforms = strings(&["gba"]);
    world.state = Some(state);
    for stored in [None, Some(b"garbage".to_vec())] {
        world.ext_map = stored;
        assert_eq!(
            world.say("platform-select", "── Continue ──"),
            choice(
                "preview-confirm",
                "Ready to sync\n\n  0 ROM(s) to copy\n  0 version conflict(s) to review\n  0 SD-only file(s) found\n\nContinue?",
                &["Yes, start sync", "Cancel"],
            )
        );
    }
}

#[test]
fn outcomes_that_are_not_awaited_are_refused() {
    assert!(can_resume(&Pending::Cores, &Event::Cores(vec![])));
    assert!(!can_resume(&Pending::Cores, &Event::Settings(None)));
    assert!(!can_resume(&Pending::PreviewState, &Event::Library(vec![])));
    let mut ext_map = StrMap::new();
    ext_map.insert("gba".to_string(), GBA.to_string());
    ext_map.insert("sfc".to_string(), SNES.to_string());
    let pending = Pending::ScanCard { state: empty_state(), ext_map, roms: vec![] };
    assert!(can_resume(&pending, &Event::Folders(vec![vec![], vec![]])));
    assert!(!can_resume(&pending, &Event::Folders(vec![vec![]])));
}

#[test]
fn counters_that_are_full_are_refused() {
    let mut state = empty_state();
    state.copied = usize::MAX;
    state.deleted = usize::MAX - 1;
    state.skipped = usize::MAX;
    state.conflicts = vec![conflict(&["a", "b"])];
    let answer = |value: &str, state: &PluginState| {
        can_resume(
            &Pending::ConflictState { value: value.to_string() },
            &Event::State(Some(state.clone())),
        )
    };
    assert!(!answer("Copy new: x", &state));
    assert!(!answer("Skip this conflict", &state));
    assert!(answer("Keep on card: a", &state));
    state.deleted = usize::MAX - 2;
    assert!(answer("Copy new: x", &state));
    let rom = LocalRom {
        filename: "x".to_string(),
        extension: "x".to_string(),
        dest_folder: GBA.to_string(),
    };
    let copy = Pending::Copy { state: state.clone(), rom, rest: vec![] };
    assert!(!can_resume(&copy, &Event::Done(Ok(()))));
    assert!(can_resume(&copy, &Event::Done(Err("full".to_string()))));
    state.deleted = usize::MAX;
    let orphan = OrphanRom { filename: "x".to_string(), folder: GBA.to_string() };
    let delete = Pending::Delete { state, orphan };
    assert!(!can_resume(&delete, &Event::Done(Ok(()))));
    assert!(can_resume(&delete, &Event::Done(Err("gone".to_string()))));
}
