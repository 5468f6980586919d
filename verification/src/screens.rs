//! The questions that the plugin asks, and the texts that it prints.
use vstd::prelude::*;

use crate::types::{
    PluginMessage, PluginMessageView, PluginState, PluginStateView, SerialConflict,
    SerialConflictView, Settings,
};
use crate::{strings, text};

verus! {

/// The names of the questions.
pub const MAIN_MENU: &'static str = "main-menu";

pub const SETTINGS_MENU: &'static str = "settings-menu";

pub const PLATFORM_SELECT: &'static str = "platform-select";

pub const PREVIEW_CONFIRM: &'static str = "preview-confirm";

pub const CONFLICT_RESOLVE: &'static str = "conflict-resolve";

pub const ORPHAN_REVIEW: &'static str = "orphan-review";

/// Answers that the plugin knows.
pub const SYNC_ROMS: &'static str = "Sync ROMs";

pub const SETTINGS: &'static str = "Settings";

pub const SELECT_ALL: &'static str = "── Select All ──";

pub const CONTINUE: &'static str = "── Continue ──";

pub const CANCEL: &'static str = "Cancel";

pub const SKIP_CONFLICT: &'static str = "Skip this conflict";

/// The beginnings of answers that name a file or a setting.
pub const COPY_NEW: &'static str = "Copy new: ";

pub const DELETE: &'static str = "Delete: ";

pub const SMART_MATCHING: &'static str = "Smart version matching";

pub const SYNC_DELETIONS: &'static str = "Sync deletions";

/// The first question.
pub open spec fn main_screen() -> PluginMessageView {
    PluginMessageView::Choice {
        name: MAIN_MENU@,
        query: "🎮 Pocket ROM Sync"@,
        choices: seq![SYNC_ROMS@, SETTINGS@, "Exit"@],
    }
}

/// A switch as it is shown.
pub open spec fn switch(on: bool) -> Seq<char> {
    if on {
        "ON ✓"@
    } else {
        "OFF"@
    }
}

/// The settings as they stand.
pub open spec fn settings_screen(settings: Settings) -> PluginMessageView {
    PluginMessageView::Choice {
        name: SETTINGS_MENU@,
        query: "Settings"@,
        choices: seq![
            "Smart version matching: "@ + switch(settings.smart_version_matching),
            "Sync deletions from local library: "@ + switch(settings.sync_deletions),
            "Back"@,
        ],
    }
}

/// The platforms in upper case, with the two ways on behind them.
pub open spec fn plain_choices(available: Seq<Seq<char>>) -> Seq<Seq<char>> {
    available.map_values(|p: Seq<char>| text::uppercase(p)).push(SELECT_ALL@).push(CONTINUE@)
}

/// The line of a platform in upper case, ticked where it is selected.
pub open spec fn platform_line(upper: Seq<char>, is_selected: bool) -> Seq<char> {
    if is_selected {
        upper + " ✓"@
    } else {
        upper
    }
}

/// A platform in upper case, ticked where its name in lower case is selected.
pub open spec fn ticked(platform: Seq<char>, selected: Seq<Seq<char>>) -> Seq<char> {
    platform_line(text::uppercase(platform), selected.contains(text::lowercase(platform)))
}

/// The platforms, ticked where they are selected, with the two ways on behind them.
pub open spec fn ticked_choices(
    available: Seq<Seq<char>>,
    selected: Seq<Seq<char>>,
) -> Seq<Seq<char>> {
    available.map_values(|p: Seq<char>| ticked(p, selected)).push(SELECT_ALL@).push(CONTINUE@)
}

/// The question for platforms when none is selected yet.
pub open spec fn first_platform_screen(available: Seq<Seq<char>>) -> PluginMessageView {
    PluginMessageView::Choice {
        name: PLATFORM_SELECT@,
        query: "Which platforms would you like to sync?\n(Select platforms then choose Continue)"@,
        choices: plain_choices(available),
    }
}

/// The question for platforms after an attempt to go on without any.
pub open spec fn no_platform_screen(available: Seq<Seq<char>>) -> PluginMessageView {
    PluginMessageView::Choice {
        name: PLATFORM_SELECT@,
        query: "Please select at least one platform to sync."@,
        choices: plain_choices(available),
    }
}

/// The selected platforms as they are shown.
pub open spec fn selection(selected: Seq<Seq<char>>) -> Seq<char> {
    if selected.len() == 0 {
        "None selected"@
    } else {
        text::join(selected.map_values(|p: Seq<char>| text::uppercase(p)), ", "@)
    }
}

/// The question for platforms with the selection so far.
pub open spec fn platform_screen(state: PluginStateView) -> PluginMessageView {
    PluginMessageView::Choice {
        name: PLATFORM_SELECT@,
        query: "Which platforms would you like to sync?\nSelected: "@ + selection(
            state.selected_platforms,
        ),
        choices: ticked_choices(state.available_platforms, state.selected_platforms),
    }
}

/// What a synchronisation would do, in numbers.
pub open spec fn preview_screen(copies: nat, conflicts: nat, orphans: nat) -> PluginMessageView {
    PluginMessageView::Choice {
        name: PREVIEW_CONFIRM@,
        query: "Ready to sync\n\n  "@ + text::decimal(copies) + " ROM(s) to copy\n  "@
            + text::decimal(conflicts) + " version conflict(s) to review\n  "@ + text::decimal(orphans)
            + " SD-only file(s) found\n\nContinue?"@,
        choices: seq!["Yes, start sync"@, CANCEL@],
    }
}

/// The question about a conflict.
pub open spec fn conflict_screen(conflict: SerialConflictView) -> PluginMessageView {
    PluginMessageView::Choice {
        name: CONFLICT_RESOLVE@,
        query: "Version conflict: \""@ + conflict.base + "\"\n\nOn SD card:\n"@ + text::join(
            conflict.card_files,
            "\n"@,
        ) + "\n\nIn your library:\n"@ + text::join(conflict.local_files, "\n"@)
            + "\n\nWhat would you like to do?"@,
        choices: (conflict.card_files.map_values(|f: Seq<char>| "Keep on card: "@ + f)
            + conflict.local_files.map_values(|f: Seq<char>| COPY_NEW@ + f)).push(SKIP_CONFLICT@),
    }
}

/// The question about the files of the card that the library lacks.
pub open spec fn orphan_screen(orphans: Seq<(Seq<char>, Seq<char>)>) -> PluginMessageView {
    PluginMessageView::Choice {
        name: ORPHAN_REVIEW@,
        query: "These "@ + text::decimal(orphans.len())
            + " file(s) are on your SD card but not in your local library.\nSelect any you'd like to remove:"@,
        choices: orphans.map_values(|o: (Seq<char>, Seq<char>)| DELETE@ + o.0).push("Done"@),
    }
}

/// The closing report, as it is printed.
pub open spec fn report(state: PluginStateView) -> Seq<char> {
    "\n✓ Sync complete\n  Copied:  "@ + text::decimal(state.copied) + "\n  Removed: "@ + text::decimal(
        state.deleted,
    ) + "\n  Skipped: "@ + text::decimal(state.skipped) + "\n"@
}

/// The first question.
pub fn start() -> (r: PluginMessage)
    ensures
        r.deep_view() == main_screen(),
{
    let mut choices: Vec<String> = Vec::new();
    choices.push(SYNC_ROMS.to_owned());
    choices.push(SETTINGS.to_owned());
    choices.push("Exit".to_owned());
    assert(choices.deep_view() =~= seq![SYNC_ROMS@, SETTINGS@, "Exit"@]);
    PluginMessage::Choice {
        name: MAIN_MENU.to_owned(),
        query: "🎮 Pocket ROM Sync".to_owned(),
        choices,
    }
}

fn show_switch(on: bool) -> (r: &'static str)
    ensures
        r@ == switch(on),
{
    if on {
        "ON ✓"
    } else {
        "OFF"
    }
}

/// The settings as they stand.
pub fn show_settings(settings: Settings) -> (r: PluginMessage)
    ensures
        r.deep_view() == settings_screen(settings),
{
    let mut choices: Vec<String> = Vec::new();
    choices.push(
        strings::concat("Smart version matching: ", show_switch(settings.smart_version_matching)),
    );
    choices.push(
        strings::concat("Sync deletions from local library: ", show_switch(settings.sync_deletions)),
    );
    choices.push("Back".to_owned());
    assert(choices.deep_view() =~= seq![
        "Smart version matching: "@ + switch(settings.smart_version_matching),
        "Sync deletions from local library: "@ + switch(settings.sync_deletions),
        "Back"@,
    ]);
    PluginMessage::Choice {
        name: SETTINGS_MENU.to_owned(),
        query: "Settings".to_owned(),
        choices,
    }
}

fn upper_case(texts: &Vec<String>) -> (r: Vec<String>)
    ensures
        r.deep_view() == texts.deep_view().map_values(|p: Seq<char>| text::uppercase(p)),
{
    let mut out: Vec<String> = Vec::new();
    let mut i: usize = 0;
    while i < texts.len()
        invariant
            i <= texts@.len(),
            out@.len() == i,
            forall|j: int| 0 <= j < i ==> (#[trigger] out@[j])@ == text::uppercase(texts@[j]@),
        decreases texts@.len() - i,
    {
        out.push(texts[i].to_uppercase());
        i += 1;
    }
    assert(out.deep_view() =~= texts.deep_view().map_values(|p: Seq<char>| text::uppercase(p)));
    out
}

/// The line of a platform in upper case, ticked where it is selected.
pub fn show_platform_line(upper: String, is_selected: bool) -> (r: String)
    ensures
        r@ == platform_line(upper@, is_selected),
{
    if is_selected {
        upper.concat(" ✓")
    } else {
        upper
    }
}

fn list_plain(available: &Vec<String>) -> (r: Vec<String>)
    ensures
        r.deep_view() == plain_choices(available.deep_view()),
{
    let mut choices = upper_case(available);
    let ghost upper = choices.deep_view();
    choices.push(SELECT_ALL.to_owned());
    choices.push(CONTINUE.to_owned());
    assert(choices.deep_view() =~= upper.push(SELECT_ALL@).push(CONTINUE@));
    choices
}

fn list_ticked(available: &Vec<String>, selected: &Vec<String>) -> (r: Vec<String>)
    ensures
        r.deep_view() == ticked_choices(available.deep_view(), selected.deep_view()),
{
    let ghost shown = |p: Seq<char>| ticked(p, selected.deep_view());
    let mut choices: Vec<String> = Vec::new();
    let mut i: usize = 0;
    while i < available.len()
        invariant
            i <= available@.len(),
            choices@.len() == i,
            forall|j: int|
                0 <= j < i ==> (#[trigger] choices@[j])@ == ticked(available@[j]@, selected.deep_view()),
        decreases available@.len() - i,
    {
        let is_selected = strings::holds(selected, available[i].to_lowercase().as_str());
        choices.push(show_platform_line(available[i].to_uppercase(), is_selected));
        i += 1;
    }
    assert(choices.deep_view() =~= available.deep_view().map_values(shown));
    let ghost listed = choices.deep_view();
    choices.push(SELECT_ALL.to_owned());
    choices.push(CONTINUE.to_owned());
    assert(choices.deep_view() =~= listed.push(SELECT_ALL@).push(CONTINUE@));
    choices
}

/// The question for platforms when none is selected yet.
pub fn show_first_platforms(available: &Vec<String>) -> (r: PluginMessage)
    ensures
        r.deep_view() == first_platform_screen(available.deep_view()),
{
    PluginMessage::Choice {
        name: PLATFORM_SELECT.to_owned(),
        query: "Which platforms would you like to sync?\n(Select platforms then choose Continue)".to_owned(),
        choices: list_plain(available),
    }
}

/// The question for platforms after an attempt to go on without any.
pub fn show_no_platform(available: &Vec<String>) -> (r: PluginMessage)
    ensures
        r.deep_view() == no_platform_screen(available.deep_view()),
{
    PluginMessage::Choice {
        name: PLATFORM_SELECT.to_owned(),
        query: "Please select at least one platform to sync.".to_owned(),
        choices: list_plain(available),
    }
}

/// The question for platforms with the selection so far.
pub fn show_platforms(state: &PluginState) -> (r: PluginMessage)
    ensures
        r.deep_view() == platform_screen(state.deep_view()),
{
    let shown = if state.selected_platforms.is_empty() {
        "None selected".to_owned()
    } else {
        strings::join(&upper_case(&state.selected_platforms), ", ")
    };
    PluginMessage::Choice {
        name: PLATFORM_SELECT.to_owned(),
        query: strings::concat(
            "Which platforms would you like to sync?\nSelected: ",
            shown.as_str(),
        ),
        choices: list_ticked(&state.available_platforms, &state.selected_platforms),
    }
}

/// What a synchronisation would do, in numbers.
pub fn show_preview(copies: usize, conflicts: usize, orphans: usize) -> (r: PluginMessage)
    ensures
        r.deep_view() == preview_screen(copies as nat, conflicts as nat, orphans as nat),
{
    let mut query = "Ready to sync\n\n  ".to_owned();
    query.append(strings::decimal(copies).as_str());
    query.append(" ROM(s) to copy\n  ");
    query.append(strings::decimal(conflicts).as_str());
    query.append(" version conflict(s) to review\n  ");
    query.append(strings::decimal(orphans).as_str());
    query.append(" SD-only file(s) found\n\nContinue?");
    let mut choices: Vec<String> = Vec::new();
    choices.push("Yes, start sync".to_owned());
    choices.push(CANCEL.to_owned());
    assert(choices.deep_view() =~= seq!["Yes, start sync"@, CANCEL@]);
    PluginMessage::Choice { name: PREVIEW_CONFIRM.to_owned(), query, choices }
}

/// Appends the files to a list of choices, each behind the same words.
fn list_files(choices: &mut Vec<String>, words: &str, files: &Vec<String>)
    ensures
        final(choices).deep_view() == old(choices).deep_view() + files.deep_view().map_values(
            |f: Seq<char>| words@ + f,
        ),
{
    let ghost shown = files.deep_view().map_values(|f: Seq<char>| words@ + f);
    let ghost start = choices.deep_view();
    let mut i: usize = 0;
    assert(start + shown.take(0) =~= start);
    while i < files.len()
        invariant
            i <= files@.len(),
            shown == files.deep_view().map_values(|f: Seq<char>| words@ + f),
            choices.deep_view() == start + shown.take(i as int),
        decreases files@.len() - i,
    {
        let ghost before = choices.deep_view();
        choices.push(strings::concat(words, files[i].as_str()));
        assert(choices.deep_view() =~= before.push(shown[i as int]));
        assert(choices.deep_view() =~= start + shown.take(i + 1));
        i += 1;
    }
    assert(shown.take(i as int) =~= shown);
}

/// The question about a conflict.
pub fn show_conflict(conflict: &SerialConflict) -> (r: PluginMessage)
    ensures
        r.deep_view() == conflict_screen(conflict.deep_view()),
{
    let mut query = "Version conflict: \"".to_owned();
    query.append(conflict.base.as_str());
    query.append("\"\n\nOn SD card:\n");
    query.append(strings::join(&conflict.card_files, "\n").as_str());
    query.append("\n\nIn your library:\n");
    query.append(strings::join(&conflict.local_files, "\n").as_str());
    query.append("\n\nWhat would you like to do?");
    let mut choices: Vec<String> = Vec::new();
    let ghost kept = conflict.card_files.deep_view().map_values(|f: Seq<char>| "Keep on card: "@ + f);
    let ghost new = conflict.local_files.deep_view().map_values(|f: Seq<char>| COPY_NEW@ + f);
    list_files(&mut choices, "Keep on card: ", &conflict.card_files);
    assert(choices.deep_view() =~= kept);
    list_files(&mut choices, COPY_NEW, &conflict.local_files);
    assert(choices.deep_view() =~= kept + new);
    choices.push(SKIP_CONFLICT.to_owned());
    assert(choices.deep_view() =~= (kept + new).push(SKIP_CONFLICT@));
    PluginMessage::Choice { name: CONFLICT_RESOLVE.to_owned(), query, choices }
}

/// The question about the first conflict of a state.
pub fn show_next_conflict(state: &PluginState) -> (r: PluginMessage)
    requires
        state.conflicts@.len() > 0,
    ensures
        r.deep_view() == conflict_screen(state.deep_view().conflicts[0]),
{
    show_conflict(&state.conflicts[0])
}

/// The question about the files of the card that the library lacks.
pub fn show_orphan_screen(state: &PluginState) -> (r: PluginMessage)
    ensures
        r.deep_view() == orphan_screen(state.deep_view().orphans),
{
    let ghost orphans = state.orphans.deep_view();
    let ghost shown = orphans.map_values(|o: (Seq<char>, Seq<char>)| DELETE@ + o.0);
    let mut choices: Vec<String> = Vec::new();
    let mut i: usize = 0;
    while i < state.orphans.len()
        invariant
            i <= state.orphans@.len(),
            choices@.len() == i,
            forall|j: int| 0 <= j < i ==> (#[trigger] choices@[j])@ == DELETE@ + state.orphans@[j].0@,
        decreases state.orphans@.len() - i,
    {
        choices.push(strings::concat(DELETE, state.orphans[i].0.as_str()));
        i += 1;
    }
    assert(choices.deep_view() =~= shown);
    choices.push("Done".to_owned());
    assert(choices.deep_view() =~= shown.push("Done"@));
    let mut query = "These ".to_owned();
    query.append(strings::decimal(state.orphans.len()).as_str());
    query.append(
        " file(s) are on your SD card but not in your local library.\nSelect any you'd like to remove:",
    );
    PluginMessage::Choice { name: ORPHAN_REVIEW.to_owned(), query, choices }
}

/// The closing report, as it is printed.
pub fn show_report(state: &PluginState) -> (r: String)
    ensures
        r@ == report(state.deep_view()),
{
    let mut out = "\n✓ Sync complete\n  Copied:  ".to_owned();
    out.append(strings::decimal(state.copied).as_str());
    out.append("\n  Removed: ");
    out.append(strings::decimal(state.deleted).as_str());
    out.append("\n  Skipped: ");
    out.append(strings::decimal(state.skipped).as_str());
    out.append("\n");
    out
}

} // verus!
