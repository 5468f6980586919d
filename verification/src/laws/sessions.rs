//! Laws of sessions: what holds over turns and whatever the machine answers.
use vstd::prelude::*;

use crate::cores::ExtMap;
use crate::json::json_texts;
use crate::laws::names::law_words_before_a_name;
use crate::library::{first_named, Leaf};
use crate::plan::{plan, CardIndex};
use crate::protocol::{
    after, answered, answers, ask, conflict_answered, conflict_settled, copies_begun, copies_done,
    copy_tried, deletion_tried, files_replaced, finish, fresh_state, line, next_copy,
    orphan_answered, orphan_at, orphans_left, other_than, platform_chosen, reported, resumed,
    roms_to_copy, selection_changed, selection_toggled, setting_chosen, settings_or_default,
    source_sought, state_with_plan, sync_begun, toggled, EffectView, EventView, NextView,
    PendingView, RequestView, TurnView,
};
use crate::screens;
use crate::seqs::{lemma_filter_keeps, lemma_filter_push, lemma_push_contains};
use crate::text;
use crate::types::{LocalRomView, OrphanRomView, PluginMessageView, PluginStateView, Settings};

verus! {

/// The plugin has a turn for answers to a question of that name.
pub open spec fn is_handled(name: Seq<char>) -> bool {
    ||| name == screens::MAIN_MENU@
    ||| name == screens::SETTINGS_MENU@
    ||| name == screens::PLATFORM_SELECT@
    ||| name == screens::PREVIEW_CONFIRM@
    ||| name == screens::CONFLICT_RESOLVE@
    ||| name == screens::ORPHAN_REVIEW@
}

/// A turn that asks the user asks what the plugin handles.
pub open spec fn asks_what_is_handled(turn: TurnView) -> bool {
    match turn.next {
        NextView::Finish(PluginMessageView::Choice { name, .. }) => is_handled(name),
        NextView::Finish(PluginMessageView::Text { .. }) => false,
        _ => true,
    }
}

/// Every question that the plugin asks is a choice whose answer it handles.
#[verifier::rlimit(40)]
pub proof fn law_every_question_is_handled(
    name: Seq<char>,
    value: Seq<char>,
    pending: PendingView,
    event: EventView,
)
    ensures
        asks_what_is_handled(finish(screens::main_screen())),
        asks_what_is_handled(answered(name, value)),
        asks_what_is_handled(resumed(pending, event)),
{
}

/// An answer to any other question ends the plugin, and does nothing else.
pub proof fn law_other_answers_end_the_plugin(name: Seq<char>, value: Seq<char>)
    requires
        !is_handled(name),
    ensures
        answered(name, value) == finish(PluginMessageView::Exit),
{
}

/// Where the answer needs a stored state and there is none, the plugin ends, and does nothing
/// else.
pub proof fn law_without_a_state_the_plugin_ends(value: Seq<char>)
    ensures
        resumed(PendingView::PreviewState, EventView::State(None)) == finish(PluginMessageView::Exit),
        resumed(PendingView::ConflictState { value }, EventView::State(None)) == finish(
            PluginMessageView::Exit,
        ),
        resumed(PendingView::OrphanState { value }, EventView::State(None)) == finish(
            PluginMessageView::Exit,
        ),
{
}

/// An event is an outcome of a request.
pub open spec fn is_outcome(request: RequestView, event: EventView) -> bool {
    match request {
        RequestView::ReadCores => event is Cores,
        RequestView::ReadSettings => event is Settings,
        RequestView::ReadState => event is State,
        RequestView::ReadExtMap => event is ExtMap,
        RequestView::ReadLibrary => event is Library,
        RequestView::ReadFolders(asked) => match event {
            EventView::Folders(listings) => listings.len() == asked.len(),
            _ => false,
        },
        RequestView::CopyFile { .. } => event is Done,
        RequestView::DeleteFile { .. } => event is Done,
    }
}

/// The outcomes of the request with which a turn ends are what the session waits for.
pub open spec fn request_fits(turn: TurnView, outcome: EventView) -> bool {
    match turn.next {
        NextView::Ask { request, pending } => is_outcome(request, outcome) ==> answers(pending, outcome),
        NextView::Finish(_) => true,
    }
}

/// Whoever carries out the requests as they stand can always go on.
#[verifier::rlimit(40)]
pub proof fn law_outcomes_are_awaited(
    name: Seq<char>,
    value: Seq<char>,
    pending: PendingView,
    event: EventView,
    outcome: EventView,
)
    ensures
        request_fits(answered(name, value), outcome),
        request_fits(resumed(pending, event), outcome),
{
}

/// How far a session that waits is from its reply: a phase, and the requests that are left
/// within it.
pub open spec fn distance(pending: PendingView) -> (nat, nat) {
    match pending {
        PendingView::Cores => (3, 0),
        PendingView::SyncSettings { .. } => (1, 0),
        PendingView::MenuSettings => (1, 0),
        PendingView::ToggleSettings { .. } => (1, 0),
        PendingView::PlatformState { .. } => (6, 0),
        PendingView::PlatformSettings { .. } => (5, 0),
        PendingView::ScanExtMap { .. } => (4, 0),
        PendingView::ScanLibrary { .. } => (3, 0),
        PendingView::ScanCard { .. } => (2, 0),
        PendingView::PreviewState => (1, 0),
        PendingView::ConflictState { .. } => (1, 0),
        PendingView::OrphanState { .. } => (1, 0),
        PendingView::Source { rest, .. } => (0, 2 * rest.len() + 2),
        PendingView::Copy { rest, .. } => (0, 2 * rest.len() + 1),
        PendingView::Delete { .. } => (0, 0),
    }
}

/// Every outcome brings the session nearer to its reply, so each answer of the user gets one.
#[verifier::rlimit(40)]
pub proof fn law_sessions_come_to_a_reply(pending: PendingView, event: EventView)
    ensures
        match resumed(pending, event).next {
            NextView::Ask { pending: next, .. } => {
                let (phase, left) = distance(pending);
                let (next_phase, next_left) = distance(next);
                next_phase < phase || next_phase == phase && next_left < left
            },
            NextView::Finish(_) => true,
        },
{
}

/// Choosing the same setting twice leaves the settings as they were.
pub proof fn law_settings_switch_back(settings: Settings, value: Seq<char>)
    ensures
        toggled(toggled(settings, value), value) == settings,
{
}

/// Each line of the settings switches the setting that it shows, and the last none.
pub proof fn law_lines_switch_their_setting(settings: Settings)
    ensures
        settings_screen_line(settings, 0) == (Settings {
            smart_version_matching: !settings.smart_version_matching,
            ..settings
        }),
        settings_screen_line(settings, 1) == (Settings {
            sync_deletions: !settings.sync_deletions,
            ..settings
        }),
        settings_screen_line(settings, 2) == settings,
{
    reveal_strlit("Smart version matching: ");
    reveal_strlit("Smart version matching");
    reveal_strlit("Sync deletions from local library: ");
    reveal_strlit("Sync deletions");
    reveal_strlit("Back");
    let smart = "Smart version matching: "@ + screens::switch(settings.smart_version_matching);
    let sync = "Sync deletions from local library: "@ + screens::switch(settings.sync_deletions);
    assert(smart.subrange(0, 22) =~= screens::SMART_MATCHING@);
    assert(sync.subrange(0, 14) =~= screens::SYNC_DELETIONS@);
    assert(sync[1] == 'y');
    assert(screens::SMART_MATCHING@[1] == 'm');
    assert(!text::begins_with(sync, screens::SMART_MATCHING@)) by {
        if text::begins_with(sync, screens::SMART_MATCHING@) {
            assert(sync.subrange(0, 22)[1] == sync[1]);
        }
    }
}

/// The settings after the user chose a line of the settings as they stand.
pub open spec fn settings_screen_line(settings: Settings, i: int) -> Settings {
    toggled(settings, screens::settings_screen(settings)->Choice_choices[i])
}

/// A selection toggled at a platform differs in that platform, and in no other.
pub proof fn law_selection_changes_in_one_platform(
    selected: Seq<Seq<char>>,
    platform: Seq<char>,
    other: Seq<char>,
)
    ensures
        selection_toggled(selected, platform).contains(other) == if other == platform {
            !selected.contains(platform)
        } else {
            selected.contains(other)
        },
{
    if selected.contains(platform) {
        lemma_filter_keeps(selected, other, other_than(platform));
    } else {
        lemma_push_contains(selected, platform, other);
    }
}

proof fn lemma_filter_all<A>(s: Seq<A>, p: spec_fn(A) -> bool)
    requires
        forall|i: int| 0 <= i < s.len() ==> p(#[trigger] s[i]),
    ensures
        s.filter(p) == s,
    decreases s.len(),
{
    reveal(Seq::filter);
    if s.len() > 0 {
        let front = s.drop_last();
        assert forall|i: int| 0 <= i < front.len() implies p(#[trigger] front[i]) by {
            assert(front[i] == s[i]);
        }
        lemma_filter_all(front, p);
        assert(p(s[s.len() - 1]));
        assert(s =~= front.push(s.last()));
    }
}

/// Choosing a platform that is not selected twice leaves the selection as it was.
pub proof fn law_selection_switches_back(selected: Seq<Seq<char>>, platform: Seq<char>)
    requires
        !selected.contains(platform),
    ensures
        selection_toggled(selection_toggled(selected, platform), platform) == selected,
{
    let p = other_than(platform);
    assert(selected.push(platform)[selected.len() as int] == platform);
    lemma_filter_push(selected, platform, p);
    assert forall|i: int| 0 <= i < selected.len() implies p(#[trigger] selected[i]) by {
        assert(selected.contains(selected[i]));
    }
    lemma_filter_all(selected, p);
}

/// Choosing the line of a platform that is not selected selects and ticks it, if its name comes
/// back from upper to lower case.
pub proof fn law_chosen_platform_is_ticked(state: PluginStateView, platform: Seq<char>)
    requires
        text::lowercase(text::uppercase(platform)) == text::lowercase(platform),
        !state.selected_platforms.contains(text::lowercase(platform)),
        text::uppercase(platform) != screens::SELECT_ALL@,
        text::uppercase(platform) != screens::CONTINUE@,
    ensures
        ({
            let changed = PluginStateView {
                selected_platforms: state.selected_platforms.push(text::lowercase(platform)),
                ..state
            };
            &&& platform_chosen(state, text::uppercase(platform)) == selection_changed(changed)
            &&& screens::ticked(platform, changed.selected_platforms) == text::uppercase(platform)
                + " ✓"@
        }),
{
    let p = text::lowercase(platform);
    lemma_push_contains(state.selected_platforms, p, p);
}

/// Without a selected platform nothing is scanned: the user is asked again.
pub proof fn law_without_a_platform_nothing_is_scanned(state: PluginStateView)
    requires
        state.selected_platforms.len() == 0,
    ensures
        platform_chosen(state, screens::CONTINUE@) == after(
            seq![EffectView::SaveState(state)],
            finish(screens::no_platform_screen(state.available_platforms)),
        ),
{
    reveal_strlit("── Select All ──");
    reveal_strlit("── Continue ──");
    assert(screens::SELECT_ALL@.len() != screens::CONTINUE@.len());
}

/// Choosing to select all platforms stores a state in which all that are available are selected.
pub proof fn law_all_platforms_can_be_selected(state: PluginStateView)
    ensures
        platform_chosen(state, screens::SELECT_ALL@).effects.last() == EffectView::SaveState(
            PluginStateView { selected_platforms: state.available_platforms, ..state },
        ),
{
}

/// The map of extensions that was stored when a synchronisation began is the one with which the
/// library and the card are scanned.
pub proof fn law_stored_extensions_are_read_back(
    ext_map: ExtMap,
    settings: Settings,
    bytes: Seq<u8>,
    state: PluginStateView,
)
    requires
        sync_begun(ext_map, settings).effects.contains(EffectView::SaveExtMap(json_texts(bytes))),
    ensures
        resumed(PendingView::ScanExtMap { state }, EventView::ExtMap(Some(bytes))) == ask(
            RequestView::ReadLibrary,
            PendingView::ScanLibrary { state, ext_map },
        ),
{
    let effects = sync_begun(ext_map, settings).effects;
    let i = choose|i: int|
        0 <= i < effects.len() && effects[i] == EffectView::SaveExtMap(json_texts(bytes));
    assert(effects[i] == EffectView::SaveExtMap(Some(ext_map)));
}

/// The user chose a new file to copy for the first conflict of the stored state, and the conflict
/// has that file of the card.
pub open spec fn replaces(
    pending: PendingView,
    event: EventView,
    folder: Seq<char>,
    filename: Seq<char>,
) -> bool {
    match (pending, event) {
        (PendingView::ConflictState { value }, EventView::State(Some(state))) => {
            &&& state.conflicts.len() > 0
            &&& text::begins_with(value, screens::COPY_NEW@)
            &&& folder == state.conflicts[0].dest_folder
            &&& state.conflicts[0].card_files.contains(filename)
        },
        _ => false,
    }
}

/// The user chose to delete a file that the stored state lists as an orphan.
pub open spec fn deletes(
    pending: PendingView,
    event: EventView,
    folder: Seq<char>,
    filename: Seq<char>,
) -> bool {
    match (pending, event) {
        (PendingView::OrphanState { value }, EventView::State(Some(state))) => {
            &&& text::begins_with(value, screens::DELETE@)
            &&& text::without_prefixes(value, screens::DELETE@) == filename
            &&& state.orphans.contains((filename, folder))
        },
        _ => false,
    }
}

/// No effect of a list removes a file.
pub open spec fn removes_nothing(effects: Seq<EffectView>) -> bool {
    forall|i: int| 0 <= i < effects.len() ==> !((#[trigger] effects[i]) is RemoveFile)
}

proof fn lemma_removes_nothing_after(effects: Seq<EffectView>, turn: TurnView)
    requires
        removes_nothing(effects),
        removes_nothing(turn.effects),
    ensures
        removes_nothing(after(effects, turn).effects),
{
    let all = after(effects, turn).effects;
    assert forall|i: int| 0 <= i < all.len() implies !((#[trigger] all[i]) is RemoveFile) by {
        if i < effects.len() {
            assert(all[i] == effects[i]);
        } else {
            assert(all[i] == turn.effects[i - effects.len()]);
        }
    }
}

proof fn lemma_copies_remove_nothing(state: PluginStateView, roms: Seq<LocalRomView>)
    ensures
        removes_nothing(reported(state).effects),
        removes_nothing(copies_done(state).effects),
        removes_nothing(next_copy(state, roms).effects),
        removes_nothing(copies_begun(state).effects),
{
    let done = PluginStateView { to_copy: Seq::empty(), ..state };
    let last = if done.orphans.len() > 0 && done.settings.sync_deletions {
        finish(screens::orphan_screen(done.orphans))
    } else {
        reported(done)
    };
    lemma_removes_nothing_after(seq![line(""@), EffectView::SaveState(done)], last);
    assert(removes_nothing(next_copy(state, roms).effects));
    lemma_removes_nothing_after(
        seq![
            line("Copying "@ + text::decimal(state.to_copy.len()) + " ROM(s) to your SD card..."@),
        ],
        next_copy(state, roms_to_copy(state.to_copy)),
    );
}

proof fn lemma_copy_tried_removes_nothing(
    state: PluginStateView,
    rom: LocalRomView,
    rest: Seq<LocalRomView>,
    result: Result<(), Seq<char>>,
)
    ensures
        removes_nothing(copy_tried(state, rom, rest, result).effects),
{
    match result {
        Ok(()) => {
            let counted = PluginStateView { copied: state.copied + 1, ..state };
            lemma_copies_remove_nothing(counted, rest);
            lemma_removes_nothing_after(seq![EffectView::Print("█"@)], next_copy(counted, rest));
        },
        Err(error) => {
            lemma_copies_remove_nothing(state, rest);
            lemma_removes_nothing_after(
                seq![line("\nFailed to copy "@ + rom.filename + ": "@ + error)],
                next_copy(state, rest),
            );
        },
    }
}

proof fn lemma_orphans_left_removes_nothing(state: PluginStateView)
    ensures
        removes_nothing(orphans_left(state).effects),
{
    lemma_removes_nothing_after(
        seq![EffectView::SaveState(state)],
        if state.orphans.len() > 0 {
            finish(screens::orphan_screen(state.orphans))
        } else {
            reported(state)
        },
    );
}

proof fn lemma_deletion_removes_nothing(
    state: PluginStateView,
    orphan: OrphanRomView,
    result: Result<(), Seq<char>>,
)
    ensures
        removes_nothing(deletion_tried(state, orphan, result).effects),
{
    match result {
        Ok(()) => {
            let counted = PluginStateView { deleted: state.deleted + 1, ..state };
            lemma_orphans_left_removes_nothing(counted);
            lemma_removes_nothing_after(
                seq![line("Removed: "@ + orphan.filename)],
                orphans_left(counted),
            );
        },
        Err(error) => {
            lemma_orphans_left_removes_nothing(state);
            lemma_removes_nothing_after(
                seq![line("Failed to remove "@ + orphan.filename + ": "@ + error)],
                orphans_left(state),
            );
        },
    }
}

proof fn lemma_platforms_remove_nothing(state: PluginStateView, value: Seq<char>)
    ensures
        removes_nothing(platform_chosen(state, value).effects),
{
}

proof fn lemma_settings_remove_nothing(settings: Settings, value: Seq<char>)
    ensures
        removes_nothing(setting_chosen(settings, value).effects),
{
}

/// The effects of a turn remove only what the user chose to replace.
pub open spec fn removes_what_is_replaced(
    effects: Seq<EffectView>,
    pending: PendingView,
    event: EventView,
) -> bool {
    forall|i: int|
        0 <= i < effects.len() ==> match #[trigger] effects[i] {
            EffectView::RemoveFile { folder, filename } => replaces(pending, event, folder, filename),
            _ => true,
        }
}

proof fn lemma_conflict_removes_what_is_replaced(state: PluginStateView, value: Seq<char>)
    ensures
        removes_what_is_replaced(
            conflict_answered(state, value).effects,
            PendingView::ConflictState { value },
            EventView::State(Some(state)),
        ),
{
    let pending = PendingView::ConflictState { value };
    let event = EventView::State(Some(state));
    let effects = conflict_answered(state, value).effects;
    let replaced = files_replaced(state, value);
    let settled = conflict_settled(state, value);
    lemma_copies_remove_nothing(settled, Seq::empty());
    assert forall|i: int| 0 <= i < effects.len() implies match #[trigger] effects[i] {
        EffectView::RemoveFile { folder, filename } => replaces(pending, event, folder, filename),
        _ => true,
    } by {
        if i < replaced.len() {
            assert(effects[i] == replaced[i]);
            assert(state.conflicts[0].card_files.contains(state.conflicts[0].card_files[i]));
        } else if i == replaced.len() {
            assert(effects[i] == EffectView::SaveState(settled));
        } else if settled.conflicts.len() == 0 {
            assert(effects[i] == copies_begun(settled).effects[i - replaced.len() - 1]);
        }
    }
}

#[verifier::rlimit(40)]
proof fn lemma_others_remove_nothing(pending: PendingView, event: EventView)
    requires
        !(pending is ConflictState),
    ensures
        removes_nothing(resumed(pending, event).effects),
{
    match (pending, event) {
        (PendingView::ToggleSettings { value }, EventView::Settings(settings)) => {
            lemma_settings_remove_nothing(settings_or_default(settings), value);
        },
        (PendingView::PlatformState { value }, EventView::State(Some(state))) => {
            lemma_platforms_remove_nothing(state, value);
        },
        (PendingView::PlatformSettings { value }, EventView::Settings(settings)) => {
            lemma_platforms_remove_nothing(
                fresh_state(settings_or_default(settings), Seq::empty()),
                value,
            );
        },
        (PendingView::PreviewState, EventView::State(Some(state))) => {
            lemma_copies_remove_nothing(state, Seq::empty());
        },
        (PendingView::OrphanState { value }, EventView::State(Some(state))) => {
            lemma_orphans_left_removes_nothing(state);
            lemma_copies_remove_nothing(state, Seq::empty());
        },
        (PendingView::Source { state, rom, rest }, EventView::Library(found)) => {
            lemma_copy_tried_removes_nothing(
                state,
                rom,
                rest,
                Err("Could not find "@ + rom.filename + " in host"@),
            );
        },
        (PendingView::Copy { state, rom, rest }, EventView::Done(result)) => {
            lemma_copy_tried_removes_nothing(state, rom, rest, result);
        },
        (PendingView::Delete { state, orphan }, EventView::Done(result)) => {
            lemma_deletion_removes_nothing(state, orphan, result);
        },
        _ => {},
    }
}

#[verifier::rlimit(40)]
proof fn lemma_deletions_are_chosen(pending: PendingView, event: EventView)
    ensures
        match resumed(pending, event).next {
            NextView::Ask { request: RequestView::DeleteFile { folder, filename }, .. } => deletes(
                pending,
                event,
                folder,
                filename,
            ),
            _ => true,
        },
{
    match (pending, event) {
        (PendingView::OrphanState { value }, EventView::State(Some(state))) => {
            let filename = text::without_prefixes(value, screens::DELETE@);
            let names = state.orphans.map_values(|o: (Seq<char>, Seq<char>)| o.0);
            names.index_of_first_ensures(filename);
            if let Some(i) = orphan_at(state.orphans, filename) {
                assert(names[i] == state.orphans[i].0);
                assert(state.orphans.contains(state.orphans[i]));
            }
        },
        _ => {},
    }
}

/// Nothing is removed from the card, nor asked to be, but what the user chose: the files of the
/// conflict for which a new file was chosen, and the orphan that was named.
#[verifier::rlimit(40)]
pub proof fn law_removals_are_chosen(
    name: Seq<char>,
    value: Seq<char>,
    pending: PendingView,
    event: EventView,
)
    ensures
        removes_nothing(answered(name, value).effects),
        !(answered(name, value).next matches NextView::Ask { request: RequestView::DeleteFile { .. }, .. }),
        removes_what_is_replaced(resumed(pending, event).effects, pending, event),
        match resumed(pending, event).next {
            NextView::Ask { request: RequestView::DeleteFile { folder, filename }, .. } => deletes(
                pending,
                event,
                folder,
                filename,
            ),
            _ => true,
        },
{
    lemma_deletions_are_chosen(pending, event);
    match (pending, event) {
        (PendingView::ConflictState { value }, EventView::State(Some(state))) => {
            lemma_conflict_removes_what_is_replaced(state, value);
        },
        _ => {
            if !(pending is ConflictState) {
                lemma_others_remove_nothing(pending, event);
            }
        },
    }
}

/// With deletions switched off, a planned state lists no orphan: then no answer deletes one, and
/// the copies end with the report.
pub proof fn law_deletions_switched_off(
    state: PluginStateView,
    roms: Seq<LocalRomView>,
    index: CardIndex,
    value: Seq<char>,
)
    requires
        !state.settings.sync_deletions,
    ensures
        ({
            let made = plan(roms, index, state.settings, state.selected_platforms);
            let stored = state_with_plan(state, made);
            &&& stored.orphans.len() == 0
            &&& orphan_answered(stored, value).next == NextView::Finish(PluginMessageView::Exit)
            &&& copies_done(stored).next == NextView::Finish(PluginMessageView::Exit)
        }),
{
    let made = plan(roms, index, state.settings, state.selected_platforms);
    let stored = state_with_plan(state, made);
    let filename = text::without_prefixes(value, screens::DELETE@);
    let names = stored.orphans.map_values(|o: (Seq<char>, Seq<char>)| o.0);
    names.index_of_first_ensures(filename);
}

/// What the lines of a conflict do: a file of the card is kept, a file of the library is put on
/// the list of copies and the files of the card make way, or the conflict is skipped.
pub proof fn law_lines_of_a_conflict(state: PluginStateView, file: Seq<char>)
    requires
        state.conflicts.len() > 0,
    ensures
        ({
            let left = PluginStateView { conflicts: state.conflicts.skip(1), ..state };
            &&& conflict_settled(state, "Keep on card: "@ + file) == left
            &&& files_replaced(state, "Keep on card: "@ + file).len() == 0
            &&& conflict_settled(state, screens::SKIP_CONFLICT@) == (PluginStateView {
                skipped: state.skipped + 1,
                ..left
            })
            &&& files_replaced(state, screens::SKIP_CONFLICT@).len() == 0
            &&& !text::begins_with(file, screens::COPY_NEW@) ==> conflict_settled(
                state,
                screens::COPY_NEW@ + file,
            ) == (PluginStateView {
                to_copy: state.to_copy.push((file, state.conflicts[0].dest_folder)),
                deleted: state.deleted + state.conflicts[0].card_files.len(),
                ..left
            })
        }),
{
    reveal_strlit("Keep on card: ");
    reveal_strlit("Copy new: ");
    reveal_strlit("Skip this conflict");
    let keep = "Keep on card: "@ + file;
    let skip = screens::SKIP_CONFLICT@;
    assert(keep[0] == 'K');
    assert(skip[0] == 'S');
    assert(screens::COPY_NEW@[0] == 'C');
    assert(keep != skip);
    assert(!text::begins_with(keep, screens::COPY_NEW@)) by {
        if text::begins_with(keep, screens::COPY_NEW@) {
            assert(keep.subrange(0, 10)[0] == keep[0]);
        }
    }
    assert(!text::begins_with(skip, screens::COPY_NEW@)) by {
        if text::begins_with(skip, screens::COPY_NEW@) {
            assert(skip.subrange(0, 10)[0] == skip[0]);
        }
    }
    if !text::begins_with(file, screens::COPY_NEW@) {
        law_words_before_a_name(screens::COPY_NEW@, file);
    }
}

/// Choosing the line of an orphan asks for the deletion of the first one of that name, which
/// leaves the list, if the name does not itself begin with the words before it.
pub proof fn law_line_of_an_orphan(state: PluginStateView, i: int)
    requires
        0 <= i < state.orphans.len(),
        !text::begins_with(state.orphans[i].0, screens::DELETE@),
        forall|j: int| 0 <= j < i ==> (#[trigger] state.orphans[j]).0 != state.orphans[i].0,
    ensures
        orphan_answered(state, screens::DELETE@ + state.orphans[i].0) == ask(
            RequestView::DeleteFile { folder: state.orphans[i].1, filename: state.orphans[i].0 },
            PendingView::Delete {
                state: PluginStateView { orphans: state.orphans.remove(i), ..state },
                orphan: OrphanRomView { filename: state.orphans[i].0, folder: state.orphans[i].1 },
            },
        ),
{
    reveal_strlit("Delete: ");
    let filename = state.orphans[i].0;
    law_words_before_a_name(screens::DELETE@, filename);
    let names = state.orphans.map_values(|o: (Seq<char>, Seq<char>)| o.0);
    names.index_of_first_ensures(filename);
    assert(names[i] == filename);
    assert(names.contains(filename));
    assert forall|j: int| 0 <= j < i implies names[j] != filename by {
        assert(names[j] == state.orphans[j].0);
    }
    assert(orphan_at(state.orphans, filename) == Some(i));
}

/// The state after the user answered so many conflicts.
pub open spec fn conflicts_settled(state: PluginStateView, values: Seq<Seq<char>>) -> PluginStateView
    decreases values.len(),
{
    if values.len() == 0 {
        state
    } else {
        conflict_settled(conflicts_settled(state, values.drop_last()), values.last())
    }
}

/// How many of the answers choose a new file.
pub open spec fn copies_chosen(values: Seq<Seq<char>>) -> nat
    decreases values.len(),
{
    if values.len() == 0 {
        0
    } else {
        copies_chosen(values.drop_last()) + if text::begins_with(values.last(), screens::COPY_NEW@) {
            1nat
        } else {
            0nat
        }
    }
}

/// How many of the answers skip the conflict.
pub open spec fn skips_chosen(values: Seq<Seq<char>>) -> nat
    decreases values.len(),
{
    if values.len() == 0 {
        0
    } else {
        skips_chosen(values.drop_last()) + if values.last() == screens::SKIP_CONFLICT@ {
            1nat
        } else {
            0nat
        }
    }
}

/// Each answer settles one conflict: after as many answers as there are conflicts none is left.
/// Each skipped conflict is counted, each new file is put behind the files to copy, and the rest
/// of the state stays as it was.
pub proof fn law_answers_settle_the_conflicts(state: PluginStateView, values: Seq<Seq<char>>)
    requires
        values.len() <= state.conflicts.len(),
    ensures
        ({
            let settled = conflicts_settled(state, values);
            &&& settled.conflicts == state.conflicts.skip(values.len() as int)
            &&& settled.skipped == state.skipped + skips_chosen(values)
            &&& settled.to_copy.len() == state.to_copy.len() + copies_chosen(values)
            &&& settled.to_copy.take(state.to_copy.len() as int) == state.to_copy
            &&& settled.copied == state.copied
            &&& settled.orphans == state.orphans
            &&& settled.settings == state.settings
            &&& settled.stage == state.stage
            &&& settled.selected_platforms == state.selected_platforms
            &&& settled.available_platforms == state.available_platforms
        }),
    decreases values.len(),
{
    if values.len() == 0 {
        assert(state.conflicts.skip(0) =~= state.conflicts);
        assert(state.to_copy.take(state.to_copy.len() as int) =~= state.to_copy);
    } else {
        let front = values.drop_last();
        law_answers_settle_the_conflicts(state, front);
        let before = conflicts_settled(state, front);
        let settled = conflicts_settled(state, values);
        assert(before.conflicts.len() > 0);
        assert(before.conflicts.skip(1) =~= state.conflicts.skip(values.len() as int));
        assert(settled.to_copy.take(state.to_copy.len() as int) =~= before.to_copy.take(
            state.to_copy.len() as int,
        ));
        if text::begins_with(values.last(), screens::COPY_NEW@) && values.last() == screens::SKIP_CONFLICT@ {
            reveal_strlit("Copy new: ");
            reveal_strlit("Skip this conflict");
            assert(screens::SKIP_CONFLICT@.subrange(0, 10)[0] == 'S');
        }
    }
}

/// What the machine answers for one file to copy: the library as it is then, and the outcome of
/// the copy, if the file is found.
pub struct Attempt {
    pub library: Seq<Leaf>,
    pub result: Result<(), Seq<char>>,
}

/// A file is copied: it is found, and the copy succeeds.
pub open spec fn succeeds(rom: LocalRomView, attempt: Attempt) -> bool {
    first_named(attempt.library, rom.filename) is Some && attempt.result is Ok
}

/// How many of the files are copied.
pub open spec fn successes(roms: Seq<LocalRomView>, attempts: Seq<Attempt>) -> nat
    decreases roms.len(),
{
    if roms.len() == 0 || attempts.len() == 0 {
        0
    } else {
        (if succeeds(roms[0], attempts[0]) {
            1nat
        } else {
            0nat
        }) + successes(roms.skip(1), attempts.skip(1))
    }
}

/// The turn on the outcome of a copy, where the session waits for one.
pub open spec fn copy_outcome(turn: TurnView, result: Result<(), Seq<char>>) -> TurnView {
    match turn.next {
        NextView::Ask { pending, .. } => match pending {
            PendingView::Copy { .. } => resumed(pending, EventView::Done(result)),
            _ => turn,
        },
        NextView::Finish(_) => turn,
    }
}

/// The last turn of a session in which the files to copy are tried one after the other.
pub open spec fn after_attempts(turn: TurnView, attempts: Seq<Attempt>) -> TurnView
    decreases attempts.len(),
{
    if attempts.len() == 0 {
        turn
    } else {
        match turn.next {
            NextView::Ask { pending, .. } => {
                let sought = resumed(pending, EventView::Library(attempts[0].library));
                after_attempts(copy_outcome(sought, attempts[0].result), attempts.skip(1))
            },
            NextView::Finish(_) => turn,
        }
    }
}

/// The state after an attempt to copy a file.
spec fn counted(state: PluginStateView, rom: LocalRomView, attempt: Attempt) -> PluginStateView {
    if succeeds(rom, attempt) {
        PluginStateView { copied: state.copied + 1, ..state }
    } else {
        state
    }
}

/// What is printed after an attempt to copy a file.
spec fn attempt_notice(rom: LocalRomView, attempt: Attempt) -> Seq<EffectView> {
    if first_named(attempt.library, rom.filename) is None {
        let error = "Could not find "@ + rom.filename + " in host"@;
        seq![line("\nFailed to copy "@ + rom.filename + ": "@ + error)]
    } else {
        match attempt.result {
            Ok(()) => seq![EffectView::Print("█"@)],
            Err(error) => seq![line("\nFailed to copy "@ + rom.filename + ": "@ + error)],
        }
    }
}

proof fn lemma_attempt(
    state: PluginStateView,
    rom: LocalRomView,
    rest: Seq<LocalRomView>,
    attempt: Attempt,
)
    ensures
        ({
            let waiting = PendingView::Source { state, rom, rest };
            let sought = resumed(waiting, EventView::Library(attempt.library));
            copy_outcome(sought, attempt.result) == after(
                attempt_notice(rom, attempt),
                next_copy(counted(state, rom, attempt), rest),
            )
        }),
{
    let waiting = PendingView::Source { state, rom, rest };
    let sought = resumed(waiting, EventView::Library(attempt.library));
    assert(sought == source_sought(state, rom, rest, attempt.library));
    match first_named(attempt.library, rom.filename) {
        Some(source) => {
            assert(copy_outcome(sought, attempt.result) == copy_tried(state, rom, rest, attempt.result));
        },
        None => {
            let error = "Could not find "@ + rom.filename + " in host"@;
            assert(sought == copy_tried(state, rom, rest, Err(error)));
            assert(copy_outcome(sought, attempt.result) == sought);
        },
    }
}

proof fn lemma_first_attempt(
    effects: Seq<EffectView>,
    state: PluginStateView,
    roms: Seq<LocalRomView>,
    attempts: Seq<Attempt>,
)
    requires
        roms.len() > 0,
        attempts.len() > 0,
    ensures
        after_attempts(after(effects, next_copy(state, roms)), attempts) == after_attempts(
            after(
                attempt_notice(roms[0], attempts[0]),
                next_copy(counted(state, roms[0], attempts[0]), roms.skip(1)),
            ),
            attempts.skip(1),
        ),
{
    let turn = after(effects, next_copy(state, roms));
    let waiting = PendingView::Source { state, rom: roms[0], rest: roms.skip(1) };
    lemma_attempt(state, roms[0], roms.skip(1), attempts[0]);
    assert(turn.next == NextView::Ask { request: RequestView::ReadLibrary, pending: waiting });
    let sought = resumed(waiting, EventView::Library(attempts[0].library));
    assert(after_attempts(turn, attempts) == after_attempts(
        copy_outcome(sought, attempts[0].result),
        attempts.skip(1),
    ));
}

proof fn lemma_no_attempt(effects: Seq<EffectView>, state: PluginStateView)
    ensures
        ({
            let turn = after(effects, copies_done(state));
            let done = PluginStateView { to_copy: Seq::empty(), ..state };
            turn.effects.contains(EffectView::SaveState(done))
        }),
{
    let turn = after(effects, copies_done(state));
    let done = PluginStateView { to_copy: Seq::empty(), ..state };
    assert(copies_done(state).effects[1] == EffectView::SaveState(done));
    assert(turn.effects[effects.len() as int + 1] == copies_done(state).effects[1]);
}

/// The state when the files to copy have been tried.
spec fn tried(
    state: PluginStateView,
    roms: Seq<LocalRomView>,
    attempts: Seq<Attempt>,
) -> PluginStateView {
    PluginStateView {
        copied: state.copied + successes(roms, attempts),
        to_copy: Seq::empty(),
        ..state
    }
}

proof fn lemma_attempts(
    effects: Seq<EffectView>,
    state: PluginStateView,
    roms: Seq<LocalRomView>,
    attempts: Seq<Attempt>,
)
    requires
        attempts.len() == roms.len(),
    ensures
        ({
            let last = after_attempts(after(effects, next_copy(state, roms)), attempts);
            let done = tried(state, roms, attempts);
            &&& last.next == copies_done(done).next
            &&& last.effects.contains(EffectView::SaveState(done))
        }),
    decreases roms.len(),
{
    if roms.len() == 0 {
        lemma_no_attempt(effects, state);
        assert(tried(state, roms, attempts) == (PluginStateView { to_copy: Seq::empty(), ..state }));
    } else {
        let next = counted(state, roms[0], attempts[0]);
        lemma_first_attempt(effects, state, roms, attempts);
        lemma_attempts(attempt_notice(roms[0], attempts[0]), next, roms.skip(1), attempts.skip(1));
        assert(tried(next, roms.skip(1), attempts.skip(1)) == tried(state, roms, attempts));
    }
}

/// When the files to copy have been tried, whatever came of each, the state is stored with no
/// file to copy left, the files that were copied are counted, and the rest of it is as it was;
/// then the orphans are shown, if there are any and deletions are switched on, or else the
/// session ends with its report.
pub proof fn law_copies_are_tried_and_counted(state: PluginStateView, attempts: Seq<Attempt>)
    requires
        attempts.len() == state.to_copy.len(),
    ensures
        ({
            let last = after_attempts(copies_begun(state), attempts);
            let done = PluginStateView {
                copied: state.copied + successes(roms_to_copy(state.to_copy), attempts),
                to_copy: Seq::empty(),
                ..state
            };
            &&& last.effects.contains(EffectView::SaveState(done))
            &&& last.next == NextView::Finish(
                if done.orphans.len() > 0 && done.settings.sync_deletions {
                    screens::orphan_screen(done.orphans)
                } else {
                    PluginMessageView::Exit
                },
            )
        }),
{
    lemma_attempts(
        seq![
            line("Copying "@ + text::decimal(state.to_copy.len()) + " ROM(s) to your SD card..."@),
        ],
        state,
        roms_to_copy(state.to_copy),
        attempts,
    );
}

/// Each file is copied from the entry of the library that is found under its name, to its folder
/// of the card, under its name.
pub proof fn law_files_are_copied_to_their_folder(
    state: PluginStateView,
    rom: LocalRomView,
    rest: Seq<LocalRomView>,
    library: Seq<Leaf>,
)
    ensures
        match resumed(PendingView::Source { state, rom, rest }, EventView::Library(library)).next {
            NextView::Ask { request: RequestView::CopyFile { source, folder, filename }, .. } => {
                &&& first_named(library, rom.filename) == Some(source)
                &&& folder == rom.dest_folder
                &&& filename == rom.filename
            },
            _ => first_named(library, rom.filename) is None,
        },
{
}

} // verus!
