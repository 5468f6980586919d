//! The session, turn by turn.
use vstd::prelude::*;

use crate::cores::{card_folders, discover_core_extensions, platforms_from_ext_map, CoreFile};
use crate::json::{decode_texts, encode_texts};
use crate::library::{find_in_host, index_sd_card, leaves, scan_local_roms, Entry};
use crate::plan::build_sync_plan;
use crate::protocol::{self, Effect, EffectView, Event, Next, Pending, Request, Turn};
use crate::screens;
use crate::seqs::{lemma_filter_empty, lemma_filter_push, lemma_take_push};
use crate::strings;
use crate::strmap::StrMap;
use crate::types::{
    ConflictGroup, ConflictGroupView, HostMessage, LocalRom, LocalRomView, OrphanRom, OrphanRomView,
    PluginMessage, PluginMessageView, PluginState, PluginStateView, SerialConflict, Settings,
    SyncPlan,
};

verus! {

fn line(words: &str) -> (r: Effect)
    ensures
        r.deep_view() == protocol::line(words@),
{
    Effect::Print(strings::concat(words, "\n"))
}

fn finish(effects: Vec<Effect>, message: PluginMessage) -> (r: Turn)
    ensures
        r.deep_view() == protocol::after(
            effects.deep_view(),
            protocol::finish(message.deep_view()),
        ),
{
    let r = Turn { effects, next: Next::Finish(message) };
    assert(r.deep_view().effects =~= effects.deep_view() + Seq::<EffectView>::empty());
    r
}

fn ask(effects: Vec<Effect>, request: Request, pending: Pending) -> (r: Turn)
    ensures
        r.deep_view() == protocol::after(
            effects.deep_view(),
            protocol::ask(request.deep_view(), pending.deep_view()),
        ),
{
    let r = Turn { effects, next: Next::Ask { request, pending } };
    assert(r.deep_view().effects =~= effects.deep_view() + Seq::<EffectView>::empty());
    r
}

/// The beginning of a list of effects.
fn nothing() -> (r: Vec<Effect>)
    ensures
        r.deep_view() == Seq::<EffectView>::empty(),
{
    let r: Vec<Effect> = Vec::new();
    assert(r.deep_view() =~= Seq::<EffectView>::empty());
    r
}

/// A list of effects with one more.
fn and(mut effects: Vec<Effect>, effect: Effect) -> (r: Vec<Effect>)
    ensures
        r.deep_view() == effects.deep_view().push(effect.deep_view()),
{
    let ghost before = effects.deep_view();
    effects.push(effect);
    assert(effects.deep_view() =~= before.push(effect.deep_view()));
    effects
}

proof fn lemma_after(a: Seq<EffectView>, b: Seq<EffectView>, turn: protocol::TurnView)
    ensures
        protocol::after(a, protocol::after(b, turn)) == protocol::after(a + b, turn),
        protocol::after(Seq::empty(), turn) == turn,
{
    assert(a + (b + turn.effects) =~= (a + b) + turn.effects);
    assert(Seq::<EffectView>::empty() + turn.effects =~= turn.effects);
}

/// The first turn on an answer of the user.
pub fn handle_answer(name: &str, value: &str) -> (r: Turn)
    ensures
        r.deep_view() == protocol::answered(name@, value@),
{
    let none = nothing();
    proof {
        lemma_after(
            Seq::empty(),
            Seq::empty(),
            protocol::answered(name@, value@),
        );
    }
    if strings::equal(name, screens::MAIN_MENU) {
        if strings::equal(value, screens::SYNC_ROMS) {
            let effects = and(none, line("Reading cores from your SD card..."));
            assert(effects.deep_view() =~= seq![protocol::line("Reading cores from your SD card..."@)]);
            ask(effects, Request::ReadCores, Pending::Cores)
        } else if strings::equal(value, screens::SETTINGS) {
            ask(none, Request::ReadSettings, Pending::MenuSettings)
        } else {
            finish(none, PluginMessage::Exit)
        }
    } else if strings::equal(name, screens::SETTINGS_MENU) {
        ask(none, Request::ReadSettings, Pending::ToggleSettings { value: value.to_owned() })
    } else if strings::equal(name, screens::PLATFORM_SELECT) {
        ask(none, Request::ReadState, Pending::PlatformState { value: value.to_owned() })
    } else if strings::equal(name, screens::PREVIEW_CONFIRM) {
        if strings::equal(value, screens::CANCEL) {
            let effects = and(none, line("Sync cancelled."));
            assert(effects.deep_view() =~= seq![protocol::line("Sync cancelled."@)]);
            finish(effects, PluginMessage::Exit)
        } else {
            ask(none, Request::ReadState, Pending::PreviewState)
        }
    } else if strings::equal(name, screens::CONFLICT_RESOLVE) {
        ask(none, Request::ReadState, Pending::ConflictState { value: value.to_owned() })
    } else if strings::equal(name, screens::ORPHAN_REVIEW) {
        ask(none, Request::ReadState, Pending::OrphanState { value: value.to_owned() })
    } else {
        finish(none, PluginMessage::Exit)
    }
}

/// The first turn on a message of the host.
pub fn handle_response(input: HostMessage) -> (r: Turn)
    ensures
        r.deep_view() == match input {
            HostMessage::Kill => protocol::finish(PluginMessageView::Exit),
            HostMessage::Answer { name, value } => protocol::answered(name@, value@),
        },
{
    match input {
        HostMessage::Kill => {
            proof {
                lemma_after(
                    Seq::empty(),
                    Seq::empty(),
                    protocol::finish(PluginMessageView::Exit),
                );
            }
            finish(nothing(), PluginMessage::Exit)
        },
        HostMessage::Answer { name, value } => handle_answer(name.as_str(), value.as_str()),
    }
}

fn cores_read(cores: &Vec<CoreFile>) -> (r: Turn)
    ensures
        r.deep_view() == protocol::cores_read(crate::cores::core_extensions(cores.deep_view())),
{
    let ext_map = discover_core_extensions(cores);
    if ext_map.is_empty() {
        let effects = and(
            nothing(),
            line("No cores found. Please insert your Pocket SD card and try again."),
        );
        assert(effects.deep_view() =~= seq![
            protocol::line("No cores found. Please insert your Pocket SD card and try again."@),
        ]);
        finish(effects, PluginMessage::Exit)
    } else {
        proof {
            lemma_after(
                Seq::empty(),
                Seq::empty(),
                protocol::cores_read(ext_map.map()),
            );
        }
        ask(nothing(), Request::ReadSettings, Pending::SyncSettings { ext_map })
    }
}

fn stored_settings(settings: Option<Settings>) -> (r: Settings)
    ensures
        r == protocol::settings_or_default(settings),
{
    match settings {
        Some(settings) => settings,
        None => Settings::default(),
    }
}

fn fresh_state(settings: Settings, available_platforms: Vec<String>) -> (r: PluginState)
    ensures
        r.deep_view() == protocol::fresh_state(settings, available_platforms.deep_view()),
{
    let r = PluginState {
        stage: "platform-select".to_owned(),
        settings,
        selected_platforms: Vec::new(),
        available_platforms,
        to_copy: Vec::new(),
        conflicts: Vec::new(),
        orphans: Vec::new(),
        copied: 0,
        deleted: 0,
        skipped: 0,
    };
    proof {
        let v = r.deep_view();
        assert(v.selected_platforms =~= Seq::empty());
        assert(v.to_copy =~= Seq::empty());
        assert(v.conflicts =~= Seq::empty());
        assert(v.orphans =~= Seq::empty());
    }
    r
}

fn sync_begun(ext_map: &StrMap<String>, settings: Settings) -> (r: Turn)
    ensures
        r.deep_view() == protocol::sync_begun(ext_map.map(), settings),
{
    let available = platforms_from_ext_map(ext_map);
    let message = screens::show_first_platforms(&available);
    let mut effects = and(nothing(), Effect::SaveState(fresh_state(settings, available)));
    if let Some(bytes) = encode_texts(ext_map) {
        effects = and(effects, Effect::SaveExtMap(bytes));
    }
    proof {
        let named = crate::cores::platforms(ext_map.map());
        assert(effects.deep_view() =~= seq![
            EffectView::SaveState(protocol::fresh_state(settings, named)),
            EffectView::SaveExtMap(Some(ext_map.map())),
        ]);
    }
    finish(effects, message)
}

fn setting_chosen(settings: Settings, value: &str) -> (r: Turn)
    ensures
        r.deep_view() == protocol::setting_chosen(settings, value@),
{
    let mut changed = settings;
    let mut effects = nothing();
    if strings::starts_with(value, screens::SMART_MATCHING) {
        changed.smart_version_matching = !changed.smart_version_matching;
        let words = if changed.smart_version_matching {
            "ON — ROMs with similar names but different version numbers will be flagged for review."
        } else {
            "OFF — Only exact filename matches will be skipped."
        };
        let notice = strings::concat("Smart version matching: ", words);
        effects = and(effects, line(notice.as_str()));
    } else if strings::starts_with(value, screens::SYNC_DELETIONS) {
        changed.sync_deletions = !changed.sync_deletions;
        let words = if changed.sync_deletions {
            "ON — ROMs missing from your local library will be listed for optional removal."
        } else {
            "OFF — Nothing will be removed from your SD card."
        };
        let notice = strings::concat("Sync deletions: ", words);
        effects = and(effects, line(notice.as_str()));
    }
    assert(changed == protocol::toggled(settings, value@));
    assert(effects.deep_view() =~= protocol::toggle_notice(changed, value@));
    finish(and(effects, Effect::SaveSettings(changed)), screens::show_settings(changed))
}

/// Takes a platform, in lower case, out of a selection that holds it, or else into it.
pub fn toggle_selection(selected: &mut Vec<String>, platform: String)
    ensures
        final(selected).deep_view() == protocol::selection_toggled(
            old(selected).deep_view(),
            platform@,
        ),
{
    let ghost before = selected.deep_view();
    if strings::holds(selected, platform.as_str()) {
        let ghost p = protocol::other_than(platform@);
        let mut kept: Vec<String> = Vec::new();
        let mut i: usize = 0;
        proof {
            lemma_filter_empty(p);
            assert(before.take(0) =~= Seq::empty());
            assert(kept.deep_view() =~= Seq::empty());
        }
        while i < selected.len()
            invariant
                i <= selected@.len(),
                before == selected.deep_view(),
                p == protocol::other_than(platform@),
                kept.deep_view() == before.take(i as int).filter(p),
            decreases selected@.len() - i,
        {
            let ghost so_far = kept.deep_view();
            proof {
                lemma_take_push(before, i as int);
                lemma_filter_push(before.take(i as int), before[i as int], p);
            }
            if !strings::equal(selected[i].as_str(), platform.as_str()) {
                kept.push(selected[i].clone());
                assert(kept.deep_view() =~= so_far.push(before[i as int]));
            }
            i += 1;
        }
        assert(before.take(i as int) =~= before);
        *selected = kept;
    } else {
        selected.push(platform);
        assert(selected.deep_view() =~= before.push(platform@));
    }
}

fn selection_changed(effects: Vec<Effect>, state: PluginState) -> (r: Turn)
    ensures
        r.deep_view() == protocol::after(
            effects.deep_view(),
            protocol::selection_changed(state.deep_view()),
        ),
{
    let message = screens::show_platforms(&state);
    let ghost saved = seq![EffectView::SaveState(state.deep_view())];
    proof {
        lemma_after(
            effects.deep_view(),
            saved,
            protocol::finish(screens::platform_screen(state.deep_view())),
        );
        assert(effects.deep_view() + saved =~= effects.deep_view().push(saved[0]));
    }
    finish(and(effects, Effect::SaveState(state)), message)
}

fn platform_chosen(mut state: PluginState, value: &str) -> (r: Turn)
    ensures
        r.deep_view() == protocol::platform_chosen(state.deep_view(), value@),
{
    let ghost before = state.deep_view();
    if strings::equal(value, screens::SELECT_ALL) {
        state.selected_platforms = state.available_platforms.clone();
        let effects = and(nothing(), line("All platforms selected."));
        assert(effects.deep_view() =~= seq![protocol::line("All platforms selected."@)]);
        assert(state.deep_view() == PluginStateView {
            selected_platforms: before.available_platforms,
            ..before
        });
        selection_changed(effects, state)
    } else if strings::equal(value, screens::CONTINUE) {
        if state.selected_platforms.is_empty() {
            let message = screens::show_no_platform(&state.available_platforms);
            let effects = and(nothing(), Effect::SaveState(state));
            assert(effects.deep_view() =~= seq![EffectView::SaveState(before)]);
            finish(effects, message)
        } else {
            let effects = and(
                nothing(),
                line("Scanning your ROM library — this may take a moment for large collections..."),
            );
            assert(effects.deep_view() =~= seq![
                protocol::line(
                    "Scanning your ROM library — this may take a moment for large collections..."@,
                ),
            ]);
            ask(effects, Request::ReadExtMap, Pending::ScanExtMap { state })
        }
    } else {
        toggle_selection(&mut state.selected_platforms, value.to_lowercase());
        proof {
            lemma_after(
                Seq::empty(),
                Seq::empty(),
                protocol::selection_changed(state.deep_view()),
            );
        }
        selection_changed(nothing(), state)
    }
}

fn stored_ext_map(bytes: &Option<Vec<u8>>) -> (r: StrMap<String>)
    ensures
        r.map() == protocol::stored_ext_map(
            match *bytes {
                Some(bytes) => Some(bytes@),
                None => None,
            },
        ),
{
    if let Some(bytes) = bytes {
        if let Some(ext_map) = decode_texts(bytes) {
            return ext_map;
        }
    }
    StrMap::new()
}

fn stored_conflict(group: &ConflictGroup) -> (r: SerialConflict)
    ensures
        r.deep_view() == protocol::stored_conflict(group.deep_view()),
{
    let ghost roms = group.local.deep_view();
    let mut local_files: Vec<String> = Vec::new();
    let mut i: usize = 0;
    while i < group.local.len()
        invariant
            i <= group.local@.len(),
            local_files@.len() == i,
            forall|j: int| 0 <= j < i ==> (#[trigger] local_files@[j])@ == group.local@[j].filename@,
        decreases group.local@.len() - i,
    {
        local_files.push(group.local[i].filename.clone());
        i += 1;
    }
    assert(local_files.deep_view() =~= roms.map_values(|rom: LocalRomView| rom.filename));
    let dest_folder = if group.local.len() > 0 {
        assert(roms[0] == group.local@[0].deep_view());
        group.local[0].dest_folder.clone()
    } else {
        String::new()
    };
    SerialConflict {
        base: group.base.clone(),
        local_files,
        card_files: group.on_card.clone(),
        dest_folder,
    }
}

fn planned(mut state: PluginState, plan: SyncPlan) -> (r: Turn)
    ensures
        r.deep_view() == protocol::planned(state.deep_view(), plan.deep_view()),
{
    let ghost before = state.deep_view();
    let ghost made = plan.deep_view();
    let copy_count = plan.to_copy.len();
    let conflict_count = plan.conflicts.len();
    let orphan_count = plan.orphans.len();
    let mut to_copy: Vec<(String, String)> = Vec::new();
    let mut i: usize = 0;
    while i < copy_count
        invariant
            i <= copy_count == plan.to_copy@.len(),
            to_copy@.len() == i,
            forall|j: int|
                0 <= j < i ==> (#[trigger] to_copy@[j]).deep_view() == (
                    plan.to_copy@[j].filename@,
                    plan.to_copy@[j].dest_folder@,
                ),
        decreases copy_count - i,
    {
        to_copy.push((plan.to_copy[i].filename.clone(), plan.to_copy[i].dest_folder.clone()));
        i += 1;
    }
    assert(to_copy.deep_view() =~= made.to_copy.map_values(
        |rom: LocalRomView| (rom.filename, rom.dest_folder),
    ));
    let mut conflicts: Vec<SerialConflict> = Vec::new();
    i = 0;
    while i < conflict_count
        invariant
            i <= conflict_count == plan.conflicts@.len(),
            conflicts@.len() == i,
            forall|j: int|
                0 <= j < i ==> (#[trigger] conflicts@[j]).deep_view() == protocol::stored_conflict(
                    plan.conflicts@[j].deep_view(),
                ),
        decreases conflict_count - i,
    {
        conflicts.push(stored_conflict(&plan.conflicts[i]));
        i += 1;
    }
    assert(conflicts.deep_view() =~= made.conflicts.map_values(
        |group: ConflictGroupView| protocol::stored_conflict(group),
    ));
    let mut orphans: Vec<(String, String)> = Vec::new();
    i = 0;
    while i < orphan_count
        invariant
            i <= orphan_count == plan.orphans@.len(),
            orphans@.len() == i,
            forall|j: int|
                0 <= j < i ==> (#[trigger] orphans@[j]).deep_view() == (
                    plan.orphans@[j].filename@,
                    plan.orphans@[j].folder@,
                ),
        decreases orphan_count - i,
    {
        orphans.push((plan.orphans[i].filename.clone(), plan.orphans[i].folder.clone()));
        i += 1;
    }
    assert(orphans.deep_view() =~= made.orphans.map_values(
        |o: OrphanRomView| (o.filename, o.folder),
    ));
    state.to_copy = to_copy;
    state.conflicts = conflicts;
    state.orphans = orphans;
    state.stage = "preview".to_owned();
    assert(state.deep_view() == protocol::state_with_plan(before, made));
    let effects = and(nothing(), Effect::SaveState(state));
    assert(effects.deep_view() =~= seq![
        EffectView::SaveState(protocol::state_with_plan(before, made)),
    ]);
    finish(effects, screens::show_preview(copy_count, conflict_count, orphan_count))
}

fn reported(effects: Vec<Effect>, state: &PluginState) -> (r: Turn)
    ensures
        r.deep_view() == protocol::after(
            effects.deep_view(),
            protocol::reported(state.deep_view()),
        ),
{
    let ghost words = seq![EffectView::Print(screens::report(state.deep_view()))];
    proof {
        lemma_after(effects.deep_view(), words, protocol::finish(PluginMessageView::Exit));
        assert(effects.deep_view() + words =~= effects.deep_view().push(words[0]));
    }
    finish(and(effects, Effect::Print(screens::show_report(state))), PluginMessage::Exit)
}

fn copies_done(effects: Vec<Effect>, mut state: PluginState) -> (r: Turn)
    ensures
        r.deep_view() == protocol::after(
            effects.deep_view(),
            protocol::copies_done(state.deep_view()),
        ),
{
    let ghost before = state.deep_view();
    state.to_copy = Vec::new();
    let ghost done = PluginStateView { to_copy: Seq::empty(), ..before };
    assert(state.deep_view().to_copy =~= Seq::empty());
    assert(state.deep_view() == done);
    let ghost first = effects.deep_view();
    let ghost own = seq![protocol::line(""@), EffectView::SaveState(done)];
    let all = and(and(effects, line("")), Effect::SaveState(state.clone()));
    assert(all.deep_view() =~= first + own);
    if !state.orphans.is_empty() && state.settings.sync_deletions {
        proof {
            lemma_after(first, own, protocol::finish(screens::orphan_screen(done.orphans)));
        }
        finish(all, screens::show_orphan_screen(&state))
    } else {
        proof {
            lemma_after(first, own, protocol::reported(done));
        }
        reported(all, &state)
    }
}

fn next_copy(effects: Vec<Effect>, state: PluginState, mut roms: Vec<LocalRom>) -> (r: Turn)
    ensures
        r.deep_view() == protocol::after(
            effects.deep_view(),
            protocol::next_copy(state.deep_view(), roms.deep_view()),
        ),
{
    if roms.is_empty() {
        copies_done(effects, state)
    } else {
        let ghost all = roms.deep_view();
        let rom = roms.remove(0);
        assert(roms.deep_view() =~= all.skip(1));
        ask(effects, Request::ReadLibrary, Pending::Source { state, rom, rest: roms })
    }
}

/// Tries the files to copy, one after the other.
fn do_copy(effects: Vec<Effect>, state: PluginState) -> (r: Turn)
    ensures
        r.deep_view() == protocol::after(
            effects.deep_view(),
            protocol::copies_begun(state.deep_view()),
        ),
{
    let ghost pairs = state.to_copy.deep_view();
    let mut roms: Vec<LocalRom> = Vec::new();
    let mut i: usize = 0;
    while i < state.to_copy.len()
        invariant
            i <= state.to_copy@.len(),
            pairs == state.to_copy.deep_view(),
            roms@.len() == i,
            forall|j: int| 0 <= j < i ==> (#[trigger] roms@[j]).deep_view() == protocol::rom_to_copy(pairs[j]),
        decreases state.to_copy@.len() - i,
    {
        let filename = state.to_copy[i].0.clone();
        let extension = strings::after_last(filename.as_str(), '.');
        roms.push(LocalRom { filename, extension, dest_folder: state.to_copy[i].1.clone() });
        i += 1;
    }
    assert(roms.deep_view() =~= protocol::roms_to_copy(pairs));
    let mut words = "Copying ".to_owned();
    words.append(strings::decimal(state.to_copy.len()).as_str());
    words.append(" ROM(s) to your SD card...");
    let ghost first = effects.deep_view();
    let ghost own = seq![protocol::line(words@)];
    let all = and(effects, line(words.as_str()));
    proof {
        assert(all.deep_view() =~= first + own);
        lemma_after(
            first,
            own,
            protocol::next_copy(state.deep_view(), roms.deep_view()),
        );
    }
    next_copy(all, state, roms)
}

fn copy_tried(
    mut state: PluginState,
    rom: LocalRom,
    rest: Vec<LocalRom>,
    result: Result<(), String>,
) -> (r: Turn)
    requires
        result is Ok ==> state.copied < usize::MAX,
    ensures
        r.deep_view() == protocol::copy_tried(
            state.deep_view(),
            rom.deep_view(),
            rest.deep_view(),
            match result {
                Ok(()) => Ok(()),
                Err(error) => Err(error@),
            },
        ),
{
    match result {
        Ok(()) => {
            state.copied += 1;
            let effects = and(nothing(), Effect::Print("█".to_owned()));
            assert(effects.deep_view() =~= seq![EffectView::Print("█"@)]);
            next_copy(effects, state, rest)
        },
        Err(error) => {
            let mut words = "\nFailed to copy ".to_owned();
            words.append(rom.filename.as_str());
            words.append(": ");
            words.append(error.as_str());
            let effects = and(nothing(), line(words.as_str()));
            assert(effects.deep_view() =~= seq![protocol::line(words@)]);
            next_copy(effects, state, rest)
        },
    }
}

/// Looks in the library for the file that is copied next, and asks for the copy.
fn copy_rom_to_sd(
    state: PluginState,
    rom: LocalRom,
    rest: Vec<LocalRom>,
    library: &Vec<Entry>,
) -> (r: Turn)
    ensures
        r.deep_view() == protocol::source_sought(
            state.deep_view(),
            rom.deep_view(),
            rest.deep_view(),
            leaves(library@),
        ),
{
    match find_in_host(library, rom.filename.as_str()) {
        Some(source) => {
            let request = Request::CopyFile {
                source,
                folder: rom.dest_folder.clone(),
                filename: rom.filename.clone(),
            };
            let pending = Pending::Copy { state, rom, rest };
            proof {
                lemma_after(
                    Seq::empty(),
                    Seq::empty(),
                    protocol::ask(request.deep_view(), pending.deep_view()),
                );
            }
            ask(nothing(), request, pending)
        },
        None => {
            let mut error = "Could not find ".to_owned();
            error.append(rom.filename.as_str());
            error.append(" in host");
            copy_tried(state, rom, rest, Err(error))
        },
    }
}

fn plan_confirmed(state: PluginState) -> (r: Turn)
    ensures
        r.deep_view() == protocol::plan_confirmed(state.deep_view()),
{
    proof {
        lemma_after(
            Seq::empty(),
            Seq::empty(),
            protocol::plan_confirmed(state.deep_view()),
        );
    }
    if !state.conflicts.is_empty() && state.settings.smart_version_matching {
        finish(nothing(), screens::show_next_conflict(&state))
    } else {
        do_copy(nothing(), state)
    }
}

fn conflict_answered(mut state: PluginState, value: &str) -> (r: Turn)
    requires
        protocol::conflict_settled(state.deep_view(), value@).deleted <= usize::MAX,
        protocol::conflict_settled(state.deep_view(), value@).skipped <= usize::MAX,
    ensures
        r.deep_view() == protocol::conflict_answered(state.deep_view(), value@),
{
    let ghost before = state.deep_view();
    let ghost settled = protocol::conflict_settled(before, value@);
    let ghost replaced = protocol::files_replaced(before, value@);
    let mut effects = nothing();
    if !state.conflicts.is_empty() {
        let ghost first = before.conflicts[0];
        let conflict = state.conflicts.remove(0);
        assert(state.conflicts.deep_view() =~= before.conflicts.skip(1));
        assert(conflict.deep_view() == first);
        if strings::starts_with(value, screens::COPY_NEW) {
            proof {
                reveal_strlit("Copy new: ");
            }
            let filename = strings::trim_start_matches(value, screens::COPY_NEW);
            state.to_copy.push((filename, conflict.dest_folder.clone()));
            assert(state.to_copy.deep_view() =~= before.to_copy.push((filename@, first.dest_folder)));
            let mut i: usize = 0;
            while i < conflict.card_files.len()
                invariant
                    i <= conflict.card_files@.len() == replaced.len(),
                    conflict.deep_view() == first,
                    replaced == first.card_files.map_values(
                        |filename: Seq<char>| EffectView::RemoveFile {
                            folder: first.dest_folder,
                            filename,
                        },
                    ),
                    effects.deep_view() == replaced.take(i as int),
                decreases conflict.card_files@.len() - i,
            {
                assert(first.card_files[i as int] == conflict.card_files@[i as int]@);
                effects = and(
                    effects,
                    Effect::RemoveFile {
                        folder: conflict.dest_folder.clone(),
                        filename: conflict.card_files[i].clone(),
                    },
                );
                assert(effects.deep_view() =~= replaced.take(i + 1));
                i += 1;
            }
            assert(effects.deep_view() =~= replaced);
            state.deleted += conflict.card_files.len();
        } else if strings::equal(value, screens::SKIP_CONFLICT) {
            state.skipped += 1;
        }
    }
    assert(state.deep_view() == settled);
    assert(effects.deep_view() =~= replaced);
    let all = and(effects, Effect::SaveState(state.clone()));
    if !state.conflicts.is_empty() {
        finish(all, screens::show_next_conflict(&state))
    } else {
        do_copy(all, state)
    }
}

fn orphans_left(effects: Vec<Effect>, state: PluginState) -> (r: Turn)
    ensures
        r.deep_view() == protocol::after(
            effects.deep_view(),
            protocol::orphans_left(state.deep_view()),
        ),
{
    let ghost first = effects.deep_view();
    let ghost own = seq![EffectView::SaveState(state.deep_view())];
    let all = and(effects, Effect::SaveState(state.clone()));
    assert(all.deep_view() =~= first + own);
    if !state.orphans.is_empty() {
        proof {
            lemma_after(
                first,
                own,
                protocol::finish(screens::orphan_screen(state.deep_view().orphans)),
            );
        }
        finish(all, screens::show_orphan_screen(&state))
    } else {
        proof {
            lemma_after(first, own, protocol::reported(state.deep_view()));
        }
        reported(all, &state)
    }
}

fn orphan_position(orphans: &Vec<(String, String)>, filename: &str) -> (r: Option<usize>)
    ensures
        match protocol::orphan_at(orphans.deep_view(), filename@) {
            Some(i) => r is Some && r->0 == i && r->0 < orphans@.len(),
            None => r is None,
        },
{
    let ghost names = orphans.deep_view().map_values(|o: (Seq<char>, Seq<char>)| o.0);
    let mut i: usize = 0;
    while i < orphans.len()
        invariant
            i <= orphans@.len(),
            names == orphans.deep_view().map_values(|o: (Seq<char>, Seq<char>)| o.0),
            forall|j: int| 0 <= j < i ==> names[j] != filename@,
        decreases orphans@.len() - i,
    {
        assert(names[i as int] == orphans@[i as int].0@);
        if strings::equal(orphans[i].0.as_str(), filename) {
            proof {
                names.index_of_first_ensures(filename@);
                assert(names.contains(filename@));
            }
            return Some(i);
        }
        i += 1;
    }
    proof {
        names.index_of_first_ensures(filename@);
    }
    None
}

fn orphan_answered(mut state: PluginState, value: &str) -> (r: Turn)
    ensures
        r.deep_view() == protocol::orphan_answered(state.deep_view(), value@),
{
    let ghost before = state.deep_view();
    proof {
        lemma_after(
            Seq::empty(),
            Seq::empty(),
            protocol::orphan_answered(before, value@),
        );
    }
    if !strings::starts_with(value, screens::DELETE) {
        return reported(nothing(), &state);
    }
    proof {
        reveal_strlit("Delete: ");
    }
    let filename = strings::trim_start_matches(value, screens::DELETE);
    match orphan_position(&state.orphans, filename.as_str()) {
        Some(i) => {
            assert(before.orphans[i as int] == state.orphans@[i as int].deep_view());
            let (filename, folder) = state.orphans.remove(i);
            assert(state.orphans.deep_view() =~= before.orphans.remove(i as int));
            let request = Request::DeleteFile { folder: folder.clone(), filename: filename.clone() };
            ask(
                nothing(),
                request,
                Pending::Delete { state, orphan: OrphanRom { filename, folder } },
            )
        },
        None => orphans_left(nothing(), state),
    }
}

fn deletion_tried(mut state: PluginState, orphan: OrphanRom, result: Result<(), String>) -> (r: Turn)
    requires
        result is Ok ==> state.deleted < usize::MAX,
    ensures
        r.deep_view() == protocol::deletion_tried(
            state.deep_view(),
            orphan.deep_view(),
            match result {
                Ok(()) => Ok(()),
                Err(error) => Err(error@),
            },
        ),
{
    match result {
        Ok(()) => {
            state.deleted += 1;
            let words = strings::concat("Removed: ", orphan.filename.as_str());
            let effects = and(nothing(), line(words.as_str()));
            assert(effects.deep_view() =~= seq![protocol::line(words@)]);
            orphans_left(effects, state)
        },
        Err(error) => {
            let mut words = "Failed to remove ".to_owned();
            words.append(orphan.filename.as_str());
            words.append(": ");
            words.append(error.as_str());
            let effects = and(nothing(), line(words.as_str()));
            assert(effects.deep_view() =~= seq![protocol::line(words@)]);
            orphans_left(effects, state)
        },
    }
}

/// Whether the counters of a state have room for what the user's answer to the first conflict
/// adds to them.
fn conflict_fits(state: &PluginState, value: &str) -> (r: bool)
    ensures
        r == ({
            let settled = protocol::conflict_settled(state.deep_view(), value@);
            settled.deleted <= usize::MAX && settled.skipped <= usize::MAX
        }),
{
    if state.conflicts.is_empty() {
        return true;
    }
    assert(state.deep_view().conflicts[0] == state.conflicts@[0].deep_view());
    if strings::starts_with(value, screens::COPY_NEW) {
        state.conflicts[0].card_files.len() <= usize::MAX - state.deleted
    } else if strings::equal(value, screens::SKIP_CONFLICT) {
        state.skipped < usize::MAX
    } else {
        true
    }
}

/// Whether an event is an outcome of what the session waits for, and the counters have room
/// for it.
#[verifier::rlimit(40)]
pub fn can_resume(pending: &Pending, event: &Event) -> (r: bool)
    ensures
        r == (protocol::answers(pending.deep_view(), event.deep_view()) && protocol::counters_fit(
            pending.deep_view(),
            event.deep_view(),
        )),
{
    match (pending, event) {
        (Pending::Cores, Event::Cores(_)) => true,
        (Pending::SyncSettings { .. }, Event::Settings(_)) => true,
        (Pending::MenuSettings, Event::Settings(_)) => true,
        (Pending::ToggleSettings { .. }, Event::Settings(_)) => true,
        (Pending::PlatformState { .. }, Event::State(_)) => true,
        (Pending::PlatformSettings { .. }, Event::Settings(_)) => true,
        (Pending::ScanExtMap { .. }, Event::ExtMap(_)) => true,
        (Pending::ScanLibrary { .. }, Event::Library(_)) => true,
        (Pending::ScanCard { ext_map, .. }, Event::Folders(listings)) => {
            let asked = card_folders(ext_map);
            assert(asked.deep_view().len() == asked@.len());
            asked.len() == listings.len()
        },
        (Pending::PreviewState, Event::State(_)) => true,
        (Pending::ConflictState { value }, Event::State(state)) => match state {
            Some(state) => conflict_fits(state, value.as_str()),
            None => true,
        },
        (Pending::OrphanState { .. }, Event::State(_)) => true,
        (Pending::Source { .. }, Event::Library(_)) => true,
        (Pending::Copy { state, .. }, Event::Done(result)) => result.is_err() || state.copied < usize::MAX,
        (Pending::Delete { state, .. }, Event::Done(result)) => result.is_err() || state.deleted < usize::MAX,
        _ => false,
    }
}

/// The turn on the outcome of what the session waits for.
#[verifier::rlimit(40)]
pub fn resume(pending: Pending, event: Event) -> (r: Turn)
    requires
        protocol::answers(pending.deep_view(), event.deep_view()),
        protocol::counters_fit(pending.deep_view(), event.deep_view()),
    ensures
        r.deep_view() == protocol::resumed(pending.deep_view(), event.deep_view()),
{
    proof {
        lemma_after(
            Seq::empty(),
            Seq::empty(),
            protocol::resumed(pending.deep_view(), event.deep_view()),
        );
    }
    match (pending, event) {
        (Pending::Cores, Event::Cores(cores)) => cores_read(&cores),
        (Pending::SyncSettings { ext_map }, Event::Settings(settings)) => sync_begun(
            &ext_map,
            stored_settings(settings),
        ),
        (Pending::MenuSettings, Event::Settings(settings)) => finish(
            nothing(),
            screens::show_settings(stored_settings(settings)),
        ),
        (Pending::ToggleSettings { value }, Event::Settings(settings)) => setting_chosen(
            stored_settings(settings),
            value.as_str(),
        ),
        (Pending::PlatformState { value }, Event::State(state)) => match state {
            Some(state) => platform_chosen(state, value.as_str()),
            None => ask(nothing(), Request::ReadSettings, Pending::PlatformSettings { value }),
        },
        (Pending::PlatformSettings { value }, Event::Settings(settings)) => {
            let none: Vec<String> = Vec::new();
            assert(none.deep_view() =~= Seq::empty());
            platform_chosen(fresh_state(stored_settings(settings), none), value.as_str())
        },
        (Pending::ScanExtMap { state }, Event::ExtMap(bytes)) => {
            let ext_map = stored_ext_map(&bytes);
            ask(nothing(), Request::ReadLibrary, Pending::ScanLibrary { state, ext_map })
        },
        (Pending::ScanLibrary { state, ext_map }, Event::Library(entries)) => {
            let roms = scan_local_roms(&entries, &ext_map);
            let request = Request::ReadFolders(card_folders(&ext_map));
            ask(nothing(), request, Pending::ScanCard { state, ext_map, roms })
        },
        (Pending::ScanCard { state, ext_map, roms }, Event::Folders(listings)) => {
            let index = index_sd_card(&ext_map, &listings);
            let plan = build_sync_plan(&roms, &index, &state.settings, &state.selected_platforms);
            planned(state, plan)
        },
        (Pending::PreviewState, Event::State(state)) => match state {
            Some(state) => plan_confirmed(state),
            None => finish(nothing(), PluginMessage::Exit),
        },
        (Pending::ConflictState { value }, Event::State(state)) => match state {
            Some(state) => conflict_answered(state, value.as_str()),
            None => finish(nothing(), PluginMessage::Exit),
        },
        (Pending::OrphanState { value }, Event::State(state)) => match state {
            Some(state) => orphan_answered(state, value.as_str()),
            None => finish(nothing(), PluginMessage::Exit),
        },
        (Pending::Source { state, rom, rest }, Event::Library(entries)) => copy_rom_to_sd(
            state,
            rom,
            rest,
            &entries,
        ),
        (Pending::Copy { state, rom, rest }, Event::Done(result)) => copy_tried(
            state,
            rom,
            rest,
            result,
        ),
        (Pending::Delete { state, orphan }, Event::Done(result)) => deletion_tried(
            state,
            orphan,
            result,
        ),
        _ => finish(nothing(), PluginMessage::Exit),
    }
}

} // verus!
