//! Laws of turns: what is done, stored, shown and asked for on each answer and each outcome.
use vstd::prelude::*;

use crate::cores::{core_extensions, folders, platforms, CoreFileView, ExtMap};
use crate::json::json_texts;
use crate::laws::sessions::is_outcome;
use crate::laws::texts::{law_texts_begin_alike, same_beginning};
use crate::library::{card_index, first_named, roms_among, Leaf};
use crate::plan::plan;
use crate::protocol::{
    after, answered, answers, conflict_settled, copies_begun, counters_fit, files_replaced, finish,
    line, next_copy, orphan_at, orphans_left, other_than, resumed, roms_to_copy,
    selection_toggled, EffectView, EventView, NextView, PendingView, RequestView, TurnView,
};
use crate::screens;
use crate::text::{after_last, decimal, lowercase, without_prefixes};
use crate::types::{LocalRomView, OrphanRomView, PluginMessageView, PluginStateView, Settings};

verus! {

/// A turn has these effects, in this order, and this end.
pub open spec fn is_turn(turn: TurnView, effects: Seq<EffectView>, next: NextView) -> bool {
    turn.effects == effects && turn.next == next
}

proof fn lemma_names_differ()
    ensures
        "settings-menu"@ != "main-menu"@,
        "platform-select"@ != "main-menu"@,
        "preview-confirm"@ != "main-menu"@,
        "conflict-resolve"@ != "main-menu"@,
        "orphan-review"@ != "main-menu"@,
        "platform-select"@ != "settings-menu"@,
        "preview-confirm"@ != "settings-menu"@,
        "conflict-resolve"@ != "settings-menu"@,
        "orphan-review"@ != "settings-menu"@,
        "preview-confirm"@ != "platform-select"@,
        "conflict-resolve"@ != "platform-select"@,
        "orphan-review"@ != "platform-select"@,
        "conflict-resolve"@ != "preview-confirm"@,
        "orphan-review"@ != "preview-confirm"@,
        "orphan-review"@ != "conflict-resolve"@,
        "Settings"@ != "Sync ROMs"@,
        "── Continue ──"@ != "── Select All ──"@,
{
    reveal_strlit("main-menu");
    reveal_strlit("settings-menu");
    reveal_strlit("platform-select");
    reveal_strlit("preview-confirm");
    reveal_strlit("conflict-resolve");
    reveal_strlit("orphan-review");
    reveal_strlit("Settings");
    reveal_strlit("Sync ROMs");
    reveal_strlit("── Continue ──");
    reveal_strlit("── Select All ──");
    assert("main-menu"@.len() == 9);
    assert("settings-menu"@.len() == 13);
    assert("platform-select"@.len() == 15);
    assert("preview-confirm"@.len() == 15);
    assert("conflict-resolve"@.len() == 16);
    assert("orphan-review"@.len() == 13);
    assert("settings-menu"@[0] == 's');
    assert("orphan-review"@[0] == 'o');
    assert("platform-select"@[1] == 'l');
    assert("preview-confirm"@[1] == 'r');
    assert("Settings"@.len() == 8);
    assert("Sync ROMs"@.len() == 9);
    assert("── Continue ──"@.len() == 14);
    assert("── Select All ──"@.len() == 16);
}

/// A turn that only replies has no effects, and ends with the reply; an answer to a question that the
/// plugin does not ask gets such a turn, with which the plugin ends.
pub proof fn law_turns_that_only_reply(message: PluginMessageView, name: Seq<char>, value: Seq<char>)
    ensures
        is_turn(finish(message), Seq::empty(), NextView::Finish(message)),
        ({
            &&& name != "main-menu"@
            &&& name != "settings-menu"@
            &&& name != "platform-select"@
            &&& name != "preview-confirm"@
            &&& name != "conflict-resolve"@
            &&& name != "orphan-review"@
        }) ==> is_turn(
            answered(name, value),
            Seq::empty(),
            NextView::Finish(PluginMessageView::Exit),
        ),
{
}

/// Each answer goes where its question and its value say.
pub proof fn law_where_answers_go(name: Seq<char>, value: Seq<char>)
    ensures
        ({
            let turn = answered(name, value);
            let none = Seq::<EffectView>::empty();
            let ask = |request: RequestView, pending: PendingView| NextView::Ask { request, pending };
            let exit = NextView::Finish(PluginMessageView::Exit);
            &&& name == "main-menu"@ && value == "Sync ROMs"@ ==> is_turn(
                turn,
                seq![EffectView::Print("Reading cores from your SD card..."@ + "\n"@)],
                ask(RequestView::ReadCores, PendingView::Cores),
            )
            &&& name == "main-menu"@ && value == "Settings"@ ==> is_turn(
                turn,
                none,
                ask(RequestView::ReadSettings, PendingView::MenuSettings),
            )
            &&& name == "main-menu"@ && value != "Sync ROMs"@ && value != "Settings"@ ==> is_turn(
                turn,
                none,
                exit,
            )
            &&& name == "settings-menu"@ ==> is_turn(
                turn,
                none,
                ask(RequestView::ReadSettings, PendingView::ToggleSettings { value }),
            )
            &&& name == "platform-select"@ ==> is_turn(
                turn,
                none,
                ask(RequestView::ReadState, PendingView::PlatformState { value }),
            )
            &&& name == "preview-confirm"@ && value == "Cancel"@ ==> is_turn(
                turn,
                seq![EffectView::Print("Sync cancelled."@ + "\n"@)],
                exit,
            )
            &&& name == "preview-confirm"@ && value != "Cancel"@ ==> is_turn(
                turn,
                none,
                ask(RequestView::ReadState, PendingView::PreviewState),
            )
            &&& name == "conflict-resolve"@ ==> is_turn(
                turn,
                none,
                ask(RequestView::ReadState, PendingView::ConflictState { value }),
            )
            &&& name == "orphan-review"@ ==> is_turn(
                turn,
                none,
                ask(RequestView::ReadState, PendingView::OrphanState { value }),
            )
        }),
{
    lemma_names_differ();
    assert(answered(name, value).effects =~= if name == "main-menu"@ && value == "Sync ROMs"@ {
        seq![EffectView::Print("Reading cores from your SD card..."@ + "\n"@)]
    } else if name == "preview-confirm"@ && value == "Cancel"@ {
        seq![EffectView::Print("Sync cancelled."@ + "\n"@)]
    } else {
        Seq::empty()
    });
}

/// The state with which the choice of platforms begins: nothing selected, planned or counted.
pub open spec fn is_fresh(state: PluginStateView, settings: Settings, available: Seq<Seq<char>>) -> bool {
    &&& state.stage == "platform-select"@
    &&& state.settings == settings
    &&& state.selected_platforms.len() == 0
    &&& state.available_platforms == available
    &&& state.to_copy.len() == 0
    &&& state.conflicts.len() == 0
    &&& state.orphans.len() == 0
    &&& state.copied == 0
    &&& state.deleted == 0
    &&& state.skipped == 0
}

/// The settings that count: those that were stored, or everything off.
pub open spec fn settings_that_count(stored: Option<Settings>) -> Settings {
    if stored is Some {
        stored->0
    } else {
        Settings { smart_version_matching: false, sync_deletions: false }
    }
}

/// A synchronisation begins if and only if the cores take some extension: then its map and a fresh
/// state with its platforms are stored, and the platforms are asked for.
pub proof fn law_how_a_synchronisation_begins(
    cores: Seq<CoreFileView>,
    ext_map: ExtMap,
    stored: Option<Settings>,
)
    ensures
        ({
            let turn = resumed(PendingView::Cores, EventView::Cores(cores));
            let found = core_extensions(cores);
            if exists|key: Seq<char>| #[trigger] found.dom().contains(key) {
                is_turn(
                    turn,
                    Seq::empty(),
                    NextView::Ask {
                        request: RequestView::ReadSettings,
                        pending: PendingView::SyncSettings { ext_map: found },
                    },
                )
            } else {
                is_turn(
                    turn,
                    seq![
                        EffectView::Print(
                            "No cores found. Please insert your Pocket SD card and try again."@ + "\n"@,
                        ),
                    ],
                    NextView::Finish(PluginMessageView::Exit),
                )
            }
        }),
        ({
            let turn = resumed(PendingView::SyncSettings { ext_map }, EventView::Settings(stored));
            &&& turn.effects.len() == 2
            &&& turn.effects[0] is SaveState
            &&& is_fresh(turn.effects[0]->SaveState_0, settings_that_count(stored), platforms(ext_map))
            &&& turn.effects[1] == EffectView::SaveExtMap(Some(ext_map))
            &&& turn.next == NextView::Finish(screens::first_platform_screen(platforms(ext_map)))
        }),
{
    let found = core_extensions(cores);
    let turn = resumed(PendingView::Cores, EventView::Cores(cores));
    if exists|key: Seq<char>| #[trigger] found.dom().contains(key) {
        let key = choose|key: Seq<char>| #[trigger] found.dom().contains(key);
        assert(found != Map::<Seq<char>, Seq<char>>::empty());
    } else {
        assert(found =~= Map::<Seq<char>, Seq<char>>::empty());
        assert(turn.effects =~= seq![
            EffectView::Print(
                "No cores found. Please insert your Pocket SD card and try again."@ + "\n"@,
            ),
        ]);
    }
}

/// The settings are shown as they are stored, and the one that the user names is switched, told,
/// stored and shown; any other answer stores and shows them as they are.
pub proof fn law_how_settings_are_switched(stored: Option<Settings>, value: Seq<char>)
    ensures
        ({
            let old_ones = settings_that_count(stored);
            let turn = resumed(PendingView::ToggleSettings { value }, EventView::Settings(stored));
            let smart = Settings {
                smart_version_matching: !old_ones.smart_version_matching,
                sync_deletions: old_ones.sync_deletions,
            };
            let sync = Settings {
                smart_version_matching: old_ones.smart_version_matching,
                sync_deletions: !old_ones.sync_deletions,
            };
            &&& is_turn(
                resumed(PendingView::MenuSettings, EventView::Settings(stored)),
                Seq::empty(),
                NextView::Finish(screens::settings_screen(old_ones)),
            )
            &&& if same_beginning(value, "Smart version matching"@) {
                is_turn(
                    turn,
                    seq![
                        EffectView::Print(
                            "Smart version matching: "@ + (if smart.smart_version_matching {
                                "ON — ROMs with similar names but different version numbers will be flagged for review."@
                            } else {
                                "OFF — Only exact filename matches will be skipped."@
                            }) + "\n"@,
                        ),
                        EffectView::SaveSettings(smart),
                    ],
                    NextView::Finish(screens::settings_screen(smart)),
                )
            } else if same_beginning(value, "Sync deletions"@) {
                is_turn(
                    turn,
                    seq![
                        EffectView::Print(
                            "Sync deletions: "@ + (if sync.sync_deletions {
                                "ON — ROMs missing from your local library will be listed for optional removal."@
                            } else {
                                "OFF — Nothing will be removed from your SD card."@
                            }) + "\n"@,
                        ),
                        EffectView::SaveSettings(sync),
                    ],
                    NextView::Finish(screens::settings_screen(sync)),
                )
            } else {
                is_turn(
                    turn,
                    seq![EffectView::SaveSettings(old_ones)],
                    NextView::Finish(screens::settings_screen(old_ones)),
                )
            }
        }),
{
    law_texts_begin_alike(value, "Smart version matching"@);
    law_texts_begin_alike(value, "Sync deletions"@);
    let turn = resumed(PendingView::ToggleSettings { value }, EventView::Settings(stored));
    if same_beginning(value, "Smart version matching"@) || same_beginning(value, "Sync deletions"@) {
        assert(turn.effects =~= seq![turn.effects[0], turn.effects[1]]);
    } else {
        assert(turn.effects =~= seq![turn.effects[0]]);
    }
}

/// The state with this selection, and all else as it was.
pub open spec fn with_selection(state: PluginStateView, selected: Seq<Seq<char>>) -> PluginStateView {
    PluginStateView { selected_platforms: selected, ..state }
}

/// What an answer to the question for platforms does: all are selected, or the session goes on with
/// the selection if there is one, or the platform that is named changes sides.
pub proof fn law_how_platforms_are_selected(state: PluginStateView, value: Seq<char>)
    ensures
        ({
            let turn = resumed(PendingView::PlatformState { value }, EventView::State(Some(state)));
            let selected = state.selected_platforms;
            let platform = lowercase(value);
            let all = with_selection(state, state.available_platforms);
            let changed = with_selection(
                state,
                if selected.contains(platform) {
                    selected.filter(|p: Seq<char>| p != platform)
                } else {
                    selected.push(platform)
                },
            );
            if value == "── Select All ──"@ {
                is_turn(
                    turn,
                    seq![
                        EffectView::Print("All platforms selected."@ + "\n"@),
                        EffectView::SaveState(all),
                    ],
                    NextView::Finish(screens::platform_screen(all)),
                )
            } else if value == "── Continue ──"@ {
                if selected.len() == 0 {
                    is_turn(
                        turn,
                        seq![EffectView::SaveState(state)],
                        NextView::Finish(screens::no_platform_screen(state.available_platforms)),
                    )
                } else {
                    is_turn(
                        turn,
                        seq![
                            EffectView::Print(
                                "Scanning your ROM library — this may take a moment for large collections..."@
                                    + "\n"@,
                            ),
                        ],
                        NextView::Ask {
                            request: RequestView::ReadExtMap,
                            pending: PendingView::ScanExtMap { state },
                        },
                    )
                }
            } else {
                is_turn(
                    turn,
                    seq![EffectView::SaveState(changed)],
                    NextView::Finish(screens::platform_screen(changed)),
                )
            }
        }),
{
    let turn = resumed(PendingView::PlatformState { value }, EventView::State(Some(state)));
    let platform = lowercase(value);
    assert(other_than(platform) =~= (|p: Seq<char>| p != platform));
    if value == "── Select All ──"@ {
        assert(turn.effects =~= seq![turn.effects[0], turn.effects[1]]);
    } else {
        assert(turn.effects =~= seq![turn.effects[0]]);
    }
}

/// A platform that a selection holds is taken out of it wherever it stands, with the others left in
/// their order; one that it does not hold is put behind the others.
pub proof fn law_how_a_platform_changes_sides(selected: Seq<Seq<char>>, platform: Seq<char>)
    ensures
        selected.contains(platform) ==> selection_toggled(selected, platform) == selected.filter(
            |p: Seq<char>| p != platform,
        ),
        !selected.contains(platform) ==> selection_toggled(selected, platform) == selected.push(platform),
{
    assert(other_than(platform) =~= (|p: Seq<char>| p != platform));
}

/// Without a stored state, an answer to the question for platforms is taken with a fresh one that
/// knows no platform.
pub proof fn law_a_missing_state_is_made_anew(
    value: Seq<char>,
    stored: Option<Settings>,
    state: PluginStateView,
)
    requires
        is_fresh(state, settings_that_count(stored), Seq::empty()),
    ensures
        is_turn(
            resumed(PendingView::PlatformState { value }, EventView::State(None)),
            Seq::empty(),
            NextView::Ask {
                request: RequestView::ReadSettings,
                pending: PendingView::PlatformSettings { value },
            },
        ),
        resumed(PendingView::PlatformSettings { value }, EventView::Settings(stored)) == resumed(
            PendingView::PlatformState { value },
            EventView::State(Some(state)),
        ),
{
    assert(state.selected_platforms =~= Seq::empty());
    assert(state.to_copy =~= Seq::empty());
    assert(state.conflicts =~= Seq::empty());
    assert(state.orphans =~= Seq::empty());
}

/// The scan: first the stored map of extensions is read, then the library with it, then the folders
/// of the card that it names.
pub proof fn law_how_the_scan_goes(
    state: PluginStateView,
    bytes: Seq<u8>,
    ext_map: ExtMap,
    found: Seq<Leaf>,
)
    ensures
        ({
            let none = Seq::<EffectView>::empty();
            let scan = |map: ExtMap| NextView::Ask {
                request: RequestView::ReadLibrary,
                pending: PendingView::ScanLibrary { state, ext_map: map },
            };
            let waiting = PendingView::ScanExtMap { state };
            &&& json_texts(bytes) == Some(ext_map) ==> is_turn(
                resumed(waiting, EventView::ExtMap(Some(bytes))),
                none,
                scan(ext_map),
            )
            &&& json_texts(bytes) is None ==> is_turn(
                resumed(waiting, EventView::ExtMap(Some(bytes))),
                none,
                scan(Map::empty()),
            )
            &&& is_turn(resumed(waiting, EventView::ExtMap(None)), none, scan(Map::empty()))
            &&& is_turn(
                resumed(PendingView::ScanLibrary { state, ext_map }, EventView::Library(found)),
                none,
                NextView::Ask {
                    request: RequestView::ReadFolders(folders(ext_map)),
                    pending: PendingView::ScanCard {
                        state,
                        ext_map,
                        roms: roms_among(found, ext_map),
                    },
                },
            )
        }),
{
}

/// The plan that is made of what was scanned is stored, entry by entry, with all else as it was;
/// and its numbers are shown.
pub proof fn law_the_plan_is_stored(
    state: PluginStateView,
    ext_map: ExtMap,
    roms: Seq<LocalRomView>,
    listings: Seq<Seq<Seq<char>>>,
)
    ensures
        ({
            let turn = resumed(
                PendingView::ScanCard { state, ext_map, roms },
                EventView::Folders(listings),
            );
            let made = plan(
                roms,
                card_index(ext_map, listings),
                state.settings,
                state.selected_platforms,
            );
            let saved = turn.effects[0]->SaveState_0;
            &&& turn.effects.len() == 1
            &&& turn.effects[0] is SaveState
            &&& turn.next == NextView::Finish(
                screens::preview_screen(made.to_copy.len(), made.conflicts.len(), made.orphans.len()),
            )
            &&& saved == (PluginStateView {
                stage: "preview"@,
                to_copy: saved.to_copy,
                conflicts: saved.conflicts,
                orphans: saved.orphans,
                ..state
            })
            &&& saved.to_copy.len() == made.to_copy.len()
            &&& saved.conflicts.len() == made.conflicts.len()
            &&& saved.orphans.len() == made.orphans.len()
            &&& forall|i: int|
                0 <= i < made.to_copy.len() ==> #[trigger] saved.to_copy[i] == (
                    made.to_copy[i].filename,
                    made.to_copy[i].dest_folder,
                )
            &&& forall|i: int|
                0 <= i < made.orphans.len() ==> #[trigger] saved.orphans[i] == (
                    made.orphans[i].filename,
                    made.orphans[i].folder,
                )
            &&& forall|i: int|
                0 <= i < made.conflicts.len() ==> {
                    let conflict = #[trigger] saved.conflicts[i];
                    let group = made.conflicts[i];
                    &&& conflict.base == group.base
                    &&& conflict.card_files == group.on_card
                    &&& group.local.len() > 0 ==> conflict.dest_folder == group.local[0].dest_folder
                    &&& conflict.local_files.len() == group.local.len()
                    &&& forall|j: int|
                        0 <= j < group.local.len() ==> #[trigger] conflict.local_files[j]
                            == group.local[j].filename
                }
        }),
{
}

/// The files that stand for pairs of a name and a folder.
pub open spec fn files_of(pairs: Seq<(Seq<char>, Seq<char>)>) -> Seq<LocalRomView> {
    Seq::new(
        pairs.len(),
        |i: int| LocalRomView {
            filename: pairs[i].0,
            extension: after_last(pairs[i].0, '.'),
            dest_folder: pairs[i].1,
        },
    )
}

/// The turn goes on with these files, after these effects: it asks for the library, to find the
/// first of them; or, if there is none left, it ends the line, stores the state with nothing to
/// copy, and shows the files that can be removed, or the report.
pub open spec fn goes_on(
    turn: TurnView,
    shown: Seq<EffectView>,
    state: PluginStateView,
    roms: Seq<LocalRomView>,
) -> bool {
    let done = PluginStateView { to_copy: Seq::empty(), ..state };
    let stored = shown.push(EffectView::Print("\n"@)).push(EffectView::SaveState(done));
    if roms.len() > 0 {
        is_turn(
            turn,
            shown,
            NextView::Ask {
                request: RequestView::ReadLibrary,
                pending: PendingView::Source { state, rom: roms[0], rest: roms.skip(1) },
            },
        )
    } else if state.orphans.len() > 0 && state.settings.sync_deletions {
        is_turn(turn, stored, NextView::Finish(screens::orphan_screen(state.orphans)))
    } else {
        is_turn(
            turn,
            stored.push(EffectView::Print(screens::report(done))),
            NextView::Finish(PluginMessageView::Exit),
        )
    }
}

/// The turn begins to copy the files of a state, after these effects: it tells how many there are.
pub open spec fn begins_to_copy(turn: TurnView, shown: Seq<EffectView>, state: PluginStateView) -> bool {
    goes_on(
        turn,
        shown.push(
            EffectView::Print(
                "Copying "@ + decimal(state.to_copy.len()) + " ROM(s) to your SD card..."@ + "\n"@,
            ),
        ),
        state,
        files_of(state.to_copy),
    )
}

proof fn lemma_goes_on(shown: Seq<EffectView>, state: PluginStateView, roms: Seq<LocalRomView>)
    ensures
        goes_on(after(shown, next_copy(state, roms)), shown, state, roms),
{
    let turn = after(shown, next_copy(state, roms));
    let done = PluginStateView { to_copy: Seq::empty(), ..state };
    let stored = shown.push(EffectView::Print("\n"@)).push(EffectView::SaveState(done));
    reveal_strlit("");
    assert(""@ + "\n"@ =~= "\n"@);
    if roms.len() > 0 {
        assert(turn.effects =~= shown);
    } else if state.orphans.len() > 0 && state.settings.sync_deletions {
        assert(turn.effects =~= stored);
    } else {
        assert(turn.effects =~= stored.push(EffectView::Print(screens::report(done))));
    }
}

proof fn lemma_begins_to_copy(shown: Seq<EffectView>, state: PluginStateView)
    ensures
        begins_to_copy(after(shown, copies_begun(state)), shown, state),
{
    let words = "Copying "@ + decimal(state.to_copy.len()) + " ROM(s) to your SD card..."@;
    assert(roms_to_copy(state.to_copy) =~= files_of(state.to_copy));
    let roms = roms_to_copy(state.to_copy);
    lemma_goes_on(shown.push(line(words)), state, roms);
    let turn = after(shown, copies_begun(state));
    let same = after(shown.push(line(words)), next_copy(state, roms));
    assert(turn.effects =~= same.effects);
    assert(turn == same);
}

/// A plan that the user confirms begins with its first conflict, if versions are matched and there
/// is one; and else with the copies.
pub proof fn law_a_plan_is_carried_out(state: PluginStateView)
    ensures
        ({
            let turn = resumed(PendingView::PreviewState, EventView::State(Some(state)));
            if state.conflicts.len() > 0 && state.settings.smart_version_matching {
                is_turn(
                    turn,
                    Seq::empty(),
                    NextView::Finish(screens::conflict_screen(state.conflicts[0])),
                )
            } else {
                begins_to_copy(turn, Seq::empty(), state)
            }
        }),
{
    lemma_begins_to_copy(Seq::empty(), state);
    let turn = copies_begun(state);
    assert(after(Seq::empty(), turn).effects =~= turn.effects);
    assert(after(Seq::empty(), turn) == turn);
}

/// Without a stored state, an answer to any question about a plan ends the plugin, and does nothing
/// else.
pub proof fn law_without_a_plan_nothing_is_done(value: Seq<char>)
    ensures
        ({
            let exit = NextView::Finish(PluginMessageView::Exit);
            let none = EventView::State(None);
            &&& is_turn(resumed(PendingView::PreviewState, none), Seq::empty(), exit)
            &&& is_turn(resumed(PendingView::ConflictState { value }, none), Seq::empty(), exit)
            &&& is_turn(resumed(PendingView::OrphanState { value }, none), Seq::empty(), exit)
        }),
{
}

/// The state is stored after these effects, and the next conflict follows, or the copies.
pub open spec fn goes_to_the_next_conflict(
    turn: TurnView,
    shown: Seq<EffectView>,
    state: PluginStateView,
) -> bool {
    let stored = shown.push(EffectView::SaveState(state));
    if state.conflicts.len() > 0 {
        is_turn(turn, stored, NextView::Finish(screens::conflict_screen(state.conflicts[0])))
    } else {
        begins_to_copy(turn, stored, state)
    }
}

/// The removal of each of these files from a folder, in order.
pub open spec fn removals(folder: Seq<char>, files: Seq<Seq<char>>) -> Seq<EffectView> {
    Seq::new(files.len(), |i: int| EffectView::RemoveFile { folder, filename: files[i] })
}

/// What the answer to the first conflict does. If it names a new file, every file of the card that
/// the conflict has is removed and counted, and the new file is put behind the files to copy, for
/// the folder of the conflict. If it skips the conflict, that is counted. Any other answer only
/// takes the conflict off the list.
pub proof fn law_how_a_conflict_is_settled(state: PluginStateView, value: Seq<char>)
    requires
        state.conflicts.len() > 0,
    ensures
        ({
            let turn = resumed(
                PendingView::ConflictState { value },
                EventView::State(Some(state)),
            );
            let conflict = state.conflicts[0];
            let left = PluginStateView { conflicts: state.conflicts.skip(1), ..state };
            if same_beginning(value, "Copy new: "@) {
                goes_to_the_next_conflict(
                    turn,
                    removals(conflict.dest_folder, conflict.card_files),
                    PluginStateView {
                        to_copy: state.to_copy.push(
                            (without_prefixes(value, "Copy new: "@), conflict.dest_folder),
                        ),
                        deleted: state.deleted + conflict.card_files.len(),
                        ..left
                    },
                )
            } else if value == "Skip this conflict"@ {
                goes_to_the_next_conflict(
                    turn,
                    Seq::empty(),
                    PluginStateView { skipped: state.skipped + 1, ..left },
                )
            } else {
                goes_to_the_next_conflict(turn, Seq::empty(), left)
            }
        }),
{
    law_texts_begin_alike(value, "Copy new: "@);
    let conflict = state.conflicts[0];
    let settled = conflict_settled(state, value);
    let replaced = files_replaced(state, value);
    if same_beginning(value, "Copy new: "@) {
        assert(replaced =~= removals(conflict.dest_folder, conflict.card_files));
    } else {
        assert(replaced =~= Seq::empty());
    }
    lemma_next_conflict(replaced, settled);
}

proof fn lemma_next_conflict(shown: Seq<EffectView>, state: PluginStateView)
    ensures
        goes_to_the_next_conflict(
            after(
                shown.push(EffectView::SaveState(state)),
                if state.conflicts.len() > 0 {
                    finish(screens::conflict_screen(state.conflicts[0]))
                } else {
                    copies_begun(state)
                },
            ),
            shown,
            state,
        ),
{
    let stored = shown.push(EffectView::SaveState(state));
    if state.conflicts.len() > 0 {
        assert(stored + Seq::<EffectView>::empty() =~= stored);
    } else {
        lemma_begins_to_copy(stored, state);
    }
}

/// An answer to a conflict that is no longer there goes on with the copies.
pub proof fn law_an_answer_without_a_conflict(state: PluginStateView, value: Seq<char>)
    requires
        state.conflicts.len() == 0,
    ensures
        goes_to_the_next_conflict(
            resumed(PendingView::ConflictState { value }, EventView::State(Some(state))),
            Seq::empty(),
            state,
        ),
{
    lemma_next_conflict(Seq::empty(), state);
}

/// Where a new file is chosen for a conflict, each file of the card that the conflict has is
/// removed from the folder of the conflict.
pub proof fn law_replaced_files_are_removed(state: PluginStateView, value: Seq<char>, i: int)
    requires
        state.conflicts.len() > 0,
        same_beginning(value, "Copy new: "@),
        0 <= i < state.conflicts[0].card_files.len(),
    ensures
        resumed(
            PendingView::ConflictState { value },
            EventView::State(Some(state)),
        ).effects.contains(
            EffectView::RemoveFile {
                folder: state.conflicts[0].dest_folder,
                filename: state.conflicts[0].card_files[i],
            },
        ),
{
    law_how_a_conflict_is_settled(state, value);
    let effects = resumed(
        PendingView::ConflictState { value },
        EventView::State(Some(state)),
    ).effects;
    let removed = removals(state.conflicts[0].dest_folder, state.conflicts[0].card_files);
    assert(removed[i] == EffectView::RemoveFile {
        folder: state.conflicts[0].dest_folder,
        filename: state.conflicts[0].card_files[i],
    });
    assert(effects[i] == removed[i]);
}

/// How a file is copied: it is looked for by name in the library, and copied from there to its
/// folder, under its name. Where it is not found, that is told, and the next file follows.
pub proof fn law_how_a_file_is_looked_for(
    state: PluginStateView,
    rom: LocalRomView,
    rest: Seq<LocalRomView>,
    library: Seq<Leaf>,
)
    ensures
        ({
            let turn = resumed(PendingView::Source { state, rom, rest }, EventView::Library(library));
            match first_named(library, rom.filename) {
                Some(source) => is_turn(
                    turn,
                    Seq::empty(),
                    NextView::Ask {
                        request: RequestView::CopyFile {
                            source,
                            folder: rom.dest_folder,
                            filename: rom.filename,
                        },
                        pending: PendingView::Copy { state, rom, rest },
                    },
                ),
                None => goes_on(
                    turn,
                    seq![
                        EffectView::Print(
                            "\nFailed to copy "@ + rom.filename + ": "@ + ("Could not find "@
                                + rom.filename + " in host"@) + "\n"@,
                        ),
                    ],
                    state,
                    rest,
                ),
            }
        }),
{
    let error = "Could not find "@ + rom.filename + " in host"@;
    lemma_goes_on(
        seq![line("\nFailed to copy "@ + rom.filename + ": "@ + error)],
        state,
        rest,
    );
}

/// A copy that succeeds is counted and shown, one that fails is told; either way the next file
/// follows, and nothing else of the state changes.
pub proof fn law_how_a_copy_ends(
    state: PluginStateView,
    rom: LocalRomView,
    rest: Seq<LocalRomView>,
    error: Seq<char>,
)
    ensures
        goes_on(
            resumed(PendingView::Copy { state, rom, rest }, EventView::Done(Ok(()))),
            seq![EffectView::Print("█"@)],
            PluginStateView { copied: state.copied + 1, ..state },
            rest,
        ),
        goes_on(
            resumed(PendingView::Copy { state, rom, rest }, EventView::Done(Err(error))),
            seq![
                EffectView::Print(
                    "\nFailed to copy "@ + rom.filename + ": "@ + error + "\n"@,
                ),
            ],
            state,
            rest,
        ),
{
    lemma_goes_on(
        seq![EffectView::Print("█"@)],
        PluginStateView { copied: state.copied + 1, ..state },
        rest,
    );
    lemma_goes_on(seq![line("\nFailed to copy "@ + rom.filename + ": "@ + error)], state, rest);
}

/// The state is stored after these effects; then the files that can be removed are shown, if there
/// are any left, and else the report.
pub open spec fn goes_to_the_orphans(
    turn: TurnView,
    shown: Seq<EffectView>,
    state: PluginStateView,
) -> bool {
    let stored = shown.push(EffectView::SaveState(state));
    if state.orphans.len() > 0 {
        is_turn(turn, stored, NextView::Finish(screens::orphan_screen(state.orphans)))
    } else {
        is_turn(
            turn,
            stored.push(EffectView::Print(screens::report(state))),
            NextView::Finish(PluginMessageView::Exit),
        )
    }
}

proof fn lemma_goes_to_the_orphans(shown: Seq<EffectView>, state: PluginStateView)
    ensures
        goes_to_the_orphans(after(shown, orphans_left(state)), shown, state),
{
    let turn = after(shown, orphans_left(state));
    let stored = shown.push(EffectView::SaveState(state));
    if state.orphans.len() > 0 {
        assert(turn.effects =~= stored);
    } else {
        assert(turn.effects =~= stored.push(EffectView::Print(screens::report(state))));
    }
}

/// An answer that names a file to delete asks for the deletion of the first file of that name on
/// the list, from its folder, and takes it off the list.
pub proof fn law_how_an_orphan_is_deleted(state: PluginStateView, value: Seq<char>, i: int)
    requires
        same_beginning(value, "Delete: "@),
        0 <= i < state.orphans.len(),
        state.orphans[i].0 == without_prefixes(value, "Delete: "@),
        forall|j: int| 0 <= j < i ==> (#[trigger] state.orphans[j]).0 != state.orphans[i].0,
    ensures
        is_turn(
            resumed(PendingView::OrphanState { value }, EventView::State(Some(state))),
            Seq::empty(),
            NextView::Ask {
                request: RequestView::DeleteFile {
                    folder: state.orphans[i].1,
                    filename: state.orphans[i].0,
                },
                pending: PendingView::Delete {
                    state: PluginStateView { orphans: state.orphans.remove(i), ..state },
                    orphan: OrphanRomView {
                        filename: state.orphans[i].0,
                        folder: state.orphans[i].1,
                    },
                },
            },
        ),
{
    law_texts_begin_alike(value, "Delete: "@);
    let filename = state.orphans[i].0;
    let names = state.orphans.map_values(|o: (Seq<char>, Seq<char>)| o.0);
    names.index_of_first_ensures(filename);
    assert(names[i] == filename);
    assert(names.contains(filename));
    assert forall|j: int| 0 <= j < i implies names[j] != filename by {
        assert(names[j] == state.orphans[j].0);
    }
    assert(orphan_at(state.orphans, filename) == Some(i));
}

/// An answer that names a file which is not on the list changes nothing, and one that names none
/// ends the session with the report.
pub proof fn law_other_answers_delete_nothing(state: PluginStateView, value: Seq<char>)
    ensures
        ({
            let turn = resumed(PendingView::OrphanState { value }, EventView::State(Some(state)));
            &&& same_beginning(value, "Delete: "@) && (forall|j: int|
                0 <= j < state.orphans.len() ==> (#[trigger] state.orphans[j]).0 != without_prefixes(
                    value,
                    "Delete: "@,
                )) ==> goes_to_the_orphans(turn, Seq::empty(), state)
            &&& !same_beginning(value, "Delete: "@) ==> is_turn(
                turn,
                seq![EffectView::Print(screens::report(state))],
                NextView::Finish(PluginMessageView::Exit),
            )
        }),
{
    law_texts_begin_alike(value, "Delete: "@);
    let turn = resumed(PendingView::OrphanState { value }, EventView::State(Some(state)));
    let filename = without_prefixes(value, "Delete: "@);
    let names = state.orphans.map_values(|o: (Seq<char>, Seq<char>)| o.0);
    names.index_of_first_ensures(filename);
    if same_beginning(value, "Delete: "@) && (forall|j: int|
        0 <= j < state.orphans.len() ==> (#[trigger] state.orphans[j]).0 != filename) {
        assert(!names.contains(filename)) by {
            if names.contains(filename) {
                let j = choose|j: int| 0 <= j < names.len() && names[j] == filename;
                assert(state.orphans[j].0 == filename);
            }
        }
        lemma_goes_to_the_orphans(Seq::empty(), state);
        assert(after(Seq::empty(), turn).effects =~= turn.effects);
    }
    if !same_beginning(value, "Delete: "@) {
        assert(turn.effects =~= seq![EffectView::Print(screens::report(state))]);
    }
}

/// A deletion that succeeds is counted and told, one that fails is told; either way the session goes
/// on with the files that are left, and nothing else of the state changes.
pub proof fn law_how_a_deletion_ends(state: PluginStateView, orphan: OrphanRomView, error: Seq<char>)
    ensures
        goes_to_the_orphans(
            resumed(PendingView::Delete { state, orphan }, EventView::Done(Ok(()))),
            seq![EffectView::Print("Removed: "@ + orphan.filename + "\n"@)],
            PluginStateView { deleted: state.deleted + 1, ..state },
        ),
        goes_to_the_orphans(
            resumed(PendingView::Delete { state, orphan }, EventView::Done(Err(error))),
            seq![
                EffectView::Print(
                    "Failed to remove "@ + orphan.filename + ": "@ + error + "\n"@,
                ),
            ],
            state,
        ),
{
    lemma_goes_to_the_orphans(
        seq![line("Removed: "@ + orphan.filename)],
        PluginStateView { deleted: state.deleted + 1, ..state },
    );
    lemma_goes_to_the_orphans(
        seq![line("Failed to remove "@ + orphan.filename + ": "@ + error)],
        state,
    );
}

/// A turn that asks is taken up again by the outcomes of its request, and by nothing else.
pub open spec fn awaits_its_outcomes(turn: TurnView, event: EventView) -> bool {
    match turn.next {
        NextView::Ask { request, pending } => answers(pending, event) == is_outcome(request, event),
        NextView::Finish(_) => true,
    }
}

/// A session goes on with the outcomes of what it asked for, and with nothing else.
#[verifier::rlimit(40)]
pub proof fn law_only_outcomes_are_awaited(
    name: Seq<char>,
    value: Seq<char>,
    pending: PendingView,
    event: EventView,
    outcome: EventView,
)
    ensures
        awaits_its_outcomes(answered(name, value), outcome),
        awaits_its_outcomes(resumed(pending, event), outcome),
{
}

/// An outcome is refused only where a counter would pass its limit: that of the copied files on a
/// copy, that of the removed files on a deletion or a replacement, that of the skipped conflicts on
/// a skip.
pub proof fn law_counters_have_room(pending: PendingView, event: EventView)
    ensures
        counters_fit(pending, event) == match (pending, event) {
            (PendingView::Copy { state, .. }, EventView::Done(Ok(()))) => state.copied + 1 <= usize::MAX,
            (PendingView::Delete { state, .. }, EventView::Done(Ok(()))) => state.deleted + 1 <= usize::MAX,
            (PendingView::ConflictState { value }, EventView::State(Some(state))) => if state.conflicts.len()
                == 0 {
                state.deleted <= usize::MAX && state.skipped <= usize::MAX
            } else if same_beginning(value, "Copy new: "@) {
                state.deleted + state.conflicts[0].card_files.len() <= usize::MAX && state.skipped
                    <= usize::MAX
            } else if value == "Skip this conflict"@ {
                state.deleted <= usize::MAX && state.skipped + 1 <= usize::MAX
            } else {
                state.deleted <= usize::MAX && state.skipped <= usize::MAX
            },
            _ => true,
        },
{
    if let PendingView::ConflictState { value } = pending {
        law_texts_begin_alike(value, "Copy new: "@);
    }
}

} // verus!
