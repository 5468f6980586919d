//! Laws of the questions and texts: what the user sees of a state.
use vstd::prelude::*;

use crate::laws::texts::law_joined_lists;
use crate::screens::{
    conflict_screen, first_platform_screen, no_platform_screen, orphan_screen, platform_line,
    platform_screen, preview_screen, report, selection, settings_screen,
};
use crate::text::{decimal, join, lowercase, uppercase};
use crate::types::{PluginMessageView, PluginStateView, SerialConflictView, Settings};

verus! {

/// A question of this name and wording.
pub open spec fn asks(message: PluginMessageView, name: Seq<char>, query: Seq<char>) -> bool {
    message is Choice && message->Choice_name == name && message->Choice_query == query
}

/// The choices of a question.
pub open spec fn choices_of(message: PluginMessageView) -> Seq<Seq<char>> {
    message->Choice_choices
}

/// Each setting is shown as it stands.
pub proof fn law_settings_are_shown(settings: Settings)
    ensures
        asks(settings_screen(settings), "settings-menu"@, "Settings"@),
        choices_of(settings_screen(settings)) == seq![
            if settings.smart_version_matching {
                "Smart version matching: "@ + "ON ✓"@
            } else {
                "Smart version matching: "@ + "OFF"@
            },
            if settings.sync_deletions {
                "Sync deletions from local library: "@ + "ON ✓"@
            } else {
                "Sync deletions from local library: "@ + "OFF"@
            },
            "Back"@,
        ],
{
}

/// The choices are a line for each platform, in order, and behind them the two ways on.
pub open spec fn offers_platforms(choices: Seq<Seq<char>>, available: Seq<Seq<char>>) -> bool {
    let n = available.len() as int;
    &&& choices.len() == n + 2
    &&& choices[n] == "── Select All ──"@
    &&& choices[n + 1] == "── Continue ──"@
}

/// All available platforms are offered, in upper case.
pub proof fn law_all_platforms_are_offered(available: Seq<Seq<char>>)
    ensures
        asks(
            first_platform_screen(available),
            "platform-select"@,
            "Which platforms would you like to sync?\n(Select platforms then choose Continue)"@,
        ),
        asks(
            no_platform_screen(available),
            "platform-select"@,
            "Please select at least one platform to sync."@,
        ),
        offers_platforms(choices_of(first_platform_screen(available)), available),
        choices_of(no_platform_screen(available)) == choices_of(first_platform_screen(available)),
        forall|i: int|
            0 <= i < available.len() ==> #[trigger] choices_of(first_platform_screen(available))[i]
                == uppercase(available[i]),
{
}

/// All available platforms are offered, in upper case, and just those are ticked whose lower-case
/// form is selected.
pub proof fn law_selected_platforms_are_ticked(state: PluginStateView)
    ensures
        asks(
            platform_screen(state),
            "platform-select"@,
            "Which platforms would you like to sync?\nSelected: "@ + selection(state.selected_platforms),
        ),
        offers_platforms(choices_of(platform_screen(state)), state.available_platforms),
        forall|i: int|
            0 <= i < state.available_platforms.len() ==> #[trigger] choices_of(platform_screen(state))[i]
                == if state.selected_platforms.contains(lowercase(state.available_platforms[i])) {
                uppercase(state.available_platforms[i]) + " ✓"@
            } else {
                uppercase(state.available_platforms[i])
            },
{
}

/// A line is ticked if and only if its platform is selected.
pub proof fn law_lines_are_ticked(upper: Seq<char>)
    ensures
        platform_line(upper, true) == upper + " ✓"@,
        platform_line(upper, false) == upper,
{
}

/// The selection is shown platform by platform, in upper case.
pub proof fn law_the_selection_is_shown(selected: Seq<Seq<char>>, platform: Seq<char>)
    ensures
        selection(Seq::empty()) == "None selected"@,
        selection(seq![platform]) == uppercase(platform),
        selected.len() > 0 ==> selection(selected.push(platform)) == selection(selected) + ", "@ + uppercase(
            platform,
        ),
{
    let f = |p: Seq<char>| uppercase(p);
    assert(seq![platform].map_values(f) =~= seq![uppercase(platform)]);
    if selected.len() > 0 {
        let last = seq![uppercase(platform)];
        assert(selected.push(platform).map_values(f) =~= selected.map_values(f) + last);
        law_joined_lists(selected.map_values(f), last, ", "@, uppercase(platform));
    }
    law_joined_lists(seq![platform], seq![platform], ", "@, uppercase(platform));
}

/// A plan is shown in its three numbers, in this order: copies, conflicts, files only on the card.
pub proof fn law_the_plan_is_shown_in_numbers(copies: nat, conflicts: nat, orphans: nat)
    ensures
        asks(
            preview_screen(copies, conflicts, orphans),
            "preview-confirm"@,
            "Ready to sync\n\n  "@ + decimal(copies) + " ROM(s) to copy\n  "@ + decimal(conflicts)
                + " version conflict(s) to review\n  "@ + decimal(orphans)
                + " SD-only file(s) found\n\nContinue?"@,
        ),
        choices_of(preview_screen(copies, conflicts, orphans)) == seq!["Yes, start sync"@, "Cancel"@],
{
}

/// A conflict is shown with its name and both lists of files; each file of the card can be kept,
/// each file of the library copied, and the conflict skipped.
pub proof fn law_conflicts_are_shown_with_their_files(conflict: SerialConflictView)
    ensures
        ({
            let choices = choices_of(conflict_screen(conflict));
            let kept = conflict.card_files.len() as int;
            let new = conflict.local_files.len() as int;
            &&& asks(
                conflict_screen(conflict),
                "conflict-resolve"@,
                "Version conflict: \""@ + conflict.base + "\"\n\nOn SD card:\n"@ + join(
                    conflict.card_files,
                    "\n"@,
                ) + "\n\nIn your library:\n"@ + join(conflict.local_files, "\n"@)
                    + "\n\nWhat would you like to do?"@,
            )
            &&& choices.len() == kept + new + 1
            &&& forall|i: int|
                0 <= i < kept ==> #[trigger] choices[i] == "Keep on card: "@ + conflict.card_files[i]
            &&& forall|i: int|
                kept <= i < kept + new ==> #[trigger] choices[i] == "Copy new: "@ + conflict.local_files[i - kept]
            &&& choices[kept + new] == "Skip this conflict"@
        }),
{
}

/// Each file that is offered for removal has its line, in order.
pub proof fn law_orphans_are_shown_line_by_line(orphans: Seq<(Seq<char>, Seq<char>)>)
    ensures
        asks(
            orphan_screen(orphans),
            "orphan-review"@,
            "These "@ + decimal(orphans.len())
                + " file(s) are on your SD card but not in your local library.\nSelect any you'd like to remove:"@,
        ),
        choices_of(orphan_screen(orphans)).len() == orphans.len() + 1,
        forall|i: int|
            0 <= i < orphans.len() ==> #[trigger] choices_of(orphan_screen(orphans))[i] == "Delete: "@ + orphans[i].0,
        choices_of(orphan_screen(orphans))[orphans.len() as int] == "Done"@,
{
}

/// The report tells the three counters, each by its name.
pub proof fn law_the_report_tells_the_counters(state: PluginStateView)
    ensures
        report(state) == "\n✓ Sync complete\n  Copied:  "@ + decimal(state.copied) + "\n  Removed: "@ + decimal(
            state.deleted,
        ) + "\n  Skipped: "@ + decimal(state.skipped) + "\n"@,
{
}

} // verus!
