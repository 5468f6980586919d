//! The course of a session: what the plugin does on each answer of the user, and on each answer
//! of the machine to what it asks.
//!
//! A turn is a list of effects, to be carried out in order, and then either the reply that ends
//! it or a request to the machine, whose answer goes into the next turn.
use vstd::prelude::*;

use crate::cores::{core_extensions, folders, platforms, CoreFile, CoreFileView, ExtMap};
use crate::json::json_texts;
use crate::library::{card_index, first_named, leaves, names_in, roms_among, Entry, Leaf};
use crate::plan::plan;
use crate::screens;
use crate::strmap::StrMap;
use crate::text;
use crate::types::{
    ConflictGroupView, LocalRom, LocalRomView, OrphanRom, OrphanRomView, PluginMessage,
    PluginMessageView, PluginState, PluginStateView, SerialConflictView, Settings, SyncPlanView,
};

verus! {

/// Something to be done that needs no answer.
#[derive(Debug, PartialEq, Eq)]
pub enum Effect {
    /// Show a text to the user.
    Print(String),
    /// Store the settings.
    SaveSettings(Settings),
    /// Store the state.
    SaveState(PluginState),
    /// Store the map of extensions, as bytes.
    SaveExtMap(Vec<u8>),
    /// Remove a file of the card; it does not matter whether that succeeds.
    RemoveFile { folder: String, filename: String },
}

pub enum EffectView {
    Print(Seq<char>),
    SaveSettings(Settings),
    SaveState(PluginStateView),
    /// The map that the stored bytes hold.
    SaveExtMap(Option<ExtMap>),
    RemoveFile { folder: Seq<char>, filename: Seq<char> },
}

impl DeepView for Effect {
    type V = EffectView;

    open spec fn deep_view(&self) -> EffectView {
        match self {
            Effect::Print(words) => EffectView::Print(words@),
            Effect::SaveSettings(settings) => EffectView::SaveSettings(*settings),
            Effect::SaveState(state) => EffectView::SaveState(state.deep_view()),
            Effect::SaveExtMap(bytes) => EffectView::SaveExtMap(json_texts(bytes@)),
            Effect::RemoveFile { folder, filename } => EffectView::RemoveFile {
                folder: folder@,
                filename: filename@,
            },
        }
    }
}

/// Something to be done whose outcome decides how the session goes on.
#[derive(Debug, PartialEq, Eq)]
pub enum Request {
    /// Read the cores of the card.
    ReadCores,
    /// Read the stored settings.
    ReadSettings,
    /// Read the stored state.
    ReadState,
    /// Read the stored map of extensions, as bytes.
    ReadExtMap,
    /// Read the local library.
    ReadLibrary,
    /// Read these folders of the card.
    ReadFolders(Vec<String>),
    /// Copy the entry of the library with that number to a folder of the card.
    CopyFile { source: usize, folder: String, filename: String },
    /// Delete a file of the card.
    DeleteFile { folder: String, filename: String },
}

pub enum RequestView {
    ReadCores,
    ReadSettings,
    ReadState,
    ReadExtMap,
    ReadLibrary,
    ReadFolders(Seq<Seq<char>>),
    CopyFile { source: usize, folder: Seq<char>, filename: Seq<char> },
    DeleteFile { folder: Seq<char>, filename: Seq<char> },
}

impl DeepView for Request {
    type V = RequestView;

    open spec fn deep_view(&self) -> RequestView {
        match self {
            Request::ReadCores => RequestView::ReadCores,
            Request::ReadSettings => RequestView::ReadSettings,
            Request::ReadState => RequestView::ReadState,
            Request::ReadExtMap => RequestView::ReadExtMap,
            Request::ReadLibrary => RequestView::ReadLibrary,
            Request::ReadFolders(folders) => RequestView::ReadFolders(folders.deep_view()),
            Request::CopyFile { source, folder, filename } => RequestView::CopyFile {
                source: *source,
                folder: folder@,
                filename: filename@,
            },
            Request::DeleteFile { folder, filename } => RequestView::DeleteFile {
                folder: folder@,
                filename: filename@,
            },
        }
    }
}

/// The outcome of a request.
#[derive(Debug, PartialEq, Eq)]
pub enum Event {
    /// The cores of the card.
    Cores(Vec<CoreFile>),
    /// The stored settings, if there are any that can be read.
    Settings(Option<Settings>),
    /// The stored state, if there is one that can be read.
    State(Option<PluginState>),
    /// The stored bytes of the map of extensions, if there are any.
    ExtMap(Option<Vec<u8>>),
    /// The entries of the local library.
    Library(Vec<Entry>),
    /// The entries of each folder that was asked for; none for one that cannot be read.
    Folders(Vec<Vec<Entry>>),
    /// Whether a file was copied or deleted, or what went wrong.
    Done(Result<(), String>),
}

pub enum EventView {
    Cores(Seq<CoreFileView>),
    Settings(Option<Settings>),
    State(Option<PluginStateView>),
    ExtMap(Option<Seq<u8>>),
    /// What the walk through the library comes by.
    Library(Seq<Leaf>),
    /// The names of the files in each folder.
    Folders(Seq<Seq<Seq<char>>>),
    Done(Result<(), Seq<char>>),
}

impl DeepView for Event {
    type V = EventView;

    open spec fn deep_view(&self) -> EventView {
        match self {
            Event::Cores(cores) => EventView::Cores(cores.deep_view()),
            Event::Settings(settings) => EventView::Settings(*settings),
            Event::State(state) => EventView::State(state.deep_view()),
            Event::ExtMap(bytes) => EventView::ExtMap(
                match bytes {
                    Some(bytes) => Some(bytes@),
                    None => None,
                },
            ),
            Event::Library(entries) => EventView::Library(leaves(entries@)),
            Event::Folders(listings) => EventView::Folders(names_in(listings@)),
            Event::Done(result) => EventView::Done(
                match result {
                    Ok(()) => Ok(()),
                    Err(error) => Err(error@),
                },
            ),
        }
    }
}

/// What the session keeps in mind while it waits for an outcome.
#[derive(Debug, PartialEq, Eq)]
pub enum Pending {
    /// The cores, to begin a synchronisation.
    Cores,
    /// The settings, to begin a synchronisation with these extensions.
    SyncSettings { ext_map: StrMap<String> },
    /// The settings, to show them.
    MenuSettings,
    /// The settings, to change the one that the user chose.
    ToggleSettings { value: String },
    /// The state, to change the selection of platforms.
    PlatformState { value: String },
    /// The settings, for a state in place of the one that is missing.
    PlatformSettings { value: String },
    /// The extensions, to scan the library and the card.
    ScanExtMap { state: PluginState },
    /// The library, to plan.
    ScanLibrary { state: PluginState, ext_map: StrMap<String> },
    /// The folders of the card, to plan.
    ScanCard { state: PluginState, ext_map: StrMap<String>, roms: Vec<LocalRom> },
    /// The state, to begin to copy.
    PreviewState,
    /// The state, to settle a conflict.
    ConflictState { value: String },
    /// The state, to go on with the files that the library lacks.
    OrphanState { value: String },
    /// The library, to find the file that is copied next.
    Source { state: PluginState, rom: LocalRom, rest: Vec<LocalRom> },
    /// The outcome of a copy.
    Copy { state: PluginState, rom: LocalRom, rest: Vec<LocalRom> },
    /// The outcome of a deletion.
    Delete { state: PluginState, orphan: OrphanRom },
}

pub enum PendingView {
    Cores,
    SyncSettings { ext_map: ExtMap },
    MenuSettings,
    ToggleSettings { value: Seq<char> },
    PlatformState { value: Seq<char> },
    PlatformSettings { value: Seq<char> },
    ScanExtMap { state: PluginStateView },
    ScanLibrary { state: PluginStateView, ext_map: ExtMap },
    ScanCard { state: PluginStateView, ext_map: ExtMap, roms: Seq<LocalRomView> },
    PreviewState,
    ConflictState { value: Seq<char> },
    OrphanState { value: Seq<char> },
    Source { state: PluginStateView, rom: LocalRomView, rest: Seq<LocalRomView> },
    Copy { state: PluginStateView, rom: LocalRomView, rest: Seq<LocalRomView> },
    Delete { state: PluginStateView, orphan: OrphanRomView },
}

impl DeepView for Pending {
    type V = PendingView;

    open spec fn deep_view(&self) -> PendingView {
        match self {
            Pending::Cores => PendingView::Cores,
            Pending::SyncSettings { ext_map } => PendingView::SyncSettings { ext_map: ext_map.map() },
            Pending::MenuSettings => PendingView::MenuSettings,
            Pending::ToggleSettings { value } => PendingView::ToggleSettings { value: value@ },
            Pending::PlatformState { value } => PendingView::PlatformState { value: value@ },
            Pending::PlatformSettings { value } => PendingView::PlatformSettings { value: value@ },
            Pending::ScanExtMap { state } => PendingView::ScanExtMap { state: state.deep_view() },
            Pending::ScanLibrary { state, ext_map } => PendingView::ScanLibrary {
                state: state.deep_view(),
                ext_map: ext_map.map(),
            },
            Pending::ScanCard { state, ext_map, roms } => PendingView::ScanCard {
                state: state.deep_view(),
                ext_map: ext_map.map(),
                roms: roms.deep_view(),
            },
            Pending::PreviewState => PendingView::PreviewState,
            Pending::ConflictState { value } => PendingView::ConflictState { value: value@ },
            Pending::OrphanState { value } => PendingView::OrphanState { value: value@ },
            Pending::Source { state, rom, rest } => PendingView::Source {
                state: state.deep_view(),
                rom: rom.deep_view(),
                rest: rest.deep_view(),
            },
            Pending::Copy { state, rom, rest } => PendingView::Copy {
                state: state.deep_view(),
                rom: rom.deep_view(),
                rest: rest.deep_view(),
            },
            Pending::Delete { state, orphan } => PendingView::Delete {
                state: state.deep_view(),
                orphan: orphan.deep_view(),
            },
        }
    }
}

/// How a turn ends.
#[derive(Debug, PartialEq, Eq)]
pub enum Next {
    /// With the reply to the host.
    Finish(PluginMessage),
    /// With a request, and what the session keeps in mind meanwhile.
    Ask { request: Request, pending: Pending },
}

pub enum NextView {
    Finish(PluginMessageView),
    Ask { request: RequestView, pending: PendingView },
}

impl DeepView for Next {
    type V = NextView;

    open spec fn deep_view(&self) -> NextView {
        match self {
            Next::Finish(message) => NextView::Finish(message.deep_view()),
            Next::Ask { request, pending } => NextView::Ask {
                request: request.deep_view(),
                pending: pending.deep_view(),
            },
        }
    }
}

/// One turn of a session.
#[derive(Debug, PartialEq, Eq)]
pub struct Turn {
    pub effects: Vec<Effect>,
    pub next: Next,
}

pub struct TurnView {
    pub effects: Seq<EffectView>,
    pub next: NextView,
}

impl DeepView for Turn {
    type V = TurnView;

    open spec fn deep_view(&self) -> TurnView {
        TurnView { effects: self.effects.deep_view(), next: self.next.deep_view() }
    }
}

/// A line as it is printed.
pub open spec fn line(words: Seq<char>) -> EffectView {
    EffectView::Print(words + "\n"@)
}

/// A turn that only replies.
pub open spec fn finish(message: PluginMessageView) -> TurnView {
    TurnView { effects: Seq::empty(), next: NextView::Finish(message) }
}

/// A turn that only asks.
pub open spec fn ask(request: RequestView, pending: PendingView) -> TurnView {
    TurnView { effects: Seq::empty(), next: NextView::Ask { request, pending } }
}

/// A turn with these effects before its own.
pub open spec fn after(effects: Seq<EffectView>, turn: TurnView) -> TurnView {
    TurnView { effects: effects + turn.effects, next: turn.next }
}

/// The settings that were stored, or else everything off.
pub open spec fn settings_or_default(settings: Option<Settings>) -> Settings {
    match settings {
        Some(settings) => settings,
        None => Settings { smart_version_matching: false, sync_deletions: false },
    }
}

/// The first turn on an answer of the user.
pub open spec fn answered(name: Seq<char>, value: Seq<char>) -> TurnView {
    if name == screens::MAIN_MENU@ {
        if value == screens::SYNC_ROMS@ {
            after(
                seq![line("Reading cores from your SD card..."@)],
                ask(RequestView::ReadCores, PendingView::Cores),
            )
        } else if value == screens::SETTINGS@ {
            ask(RequestView::ReadSettings, PendingView::MenuSettings)
        } else {
            finish(PluginMessageView::Exit)
        }
    } else if name == screens::SETTINGS_MENU@ {
        ask(RequestView::ReadSettings, PendingView::ToggleSettings { value })
    } else if name == screens::PLATFORM_SELECT@ {
        ask(RequestView::ReadState, PendingView::PlatformState { value })
    } else if name == screens::PREVIEW_CONFIRM@ {
        if value == screens::CANCEL@ {
            after(seq![line("Sync cancelled."@)], finish(PluginMessageView::Exit))
        } else {
            ask(RequestView::ReadState, PendingView::PreviewState)
        }
    } else if name == screens::CONFLICT_RESOLVE@ {
        ask(RequestView::ReadState, PendingView::ConflictState { value })
    } else if name == screens::ORPHAN_REVIEW@ {
        ask(RequestView::ReadState, PendingView::OrphanState { value })
    } else {
        finish(PluginMessageView::Exit)
    }
}

/// The cores were read: without any the session ends.
pub open spec fn cores_read(ext_map: ExtMap) -> TurnView {
    if ext_map == Map::<Seq<char>, Seq<char>>::empty() {
        after(
            seq![line("No cores found. Please insert your Pocket SD card and try again."@)],
            finish(PluginMessageView::Exit),
        )
    } else {
        ask(RequestView::ReadSettings, PendingView::SyncSettings { ext_map })
    }
}

/// The state with which a choice of platforms begins.
pub open spec fn fresh_state(settings: Settings, available: Seq<Seq<char>>) -> PluginStateView {
    PluginStateView {
        stage: "platform-select"@,
        settings,
        selected_platforms: Seq::empty(),
        available_platforms: available,
        to_copy: Seq::empty(),
        conflicts: Seq::empty(),
        orphans: Seq::empty(),
        copied: 0,
        deleted: 0,
        skipped: 0,
    }
}

/// A synchronisation begins with the choice of platforms.
pub open spec fn sync_begun(ext_map: ExtMap, settings: Settings) -> TurnView {
    after(
        seq![
            EffectView::SaveState(fresh_state(settings, platforms(ext_map))),
            EffectView::SaveExtMap(Some(ext_map)),
        ],
        finish(screens::first_platform_screen(platforms(ext_map))),
    )
}

/// The settings after the user chose one of them, or something else.
pub open spec fn toggled(settings: Settings, value: Seq<char>) -> Settings {
    if text::begins_with(value, screens::SMART_MATCHING@) {
        Settings { smart_version_matching: !settings.smart_version_matching, ..settings }
    } else if text::begins_with(value, screens::SYNC_DELETIONS@) {
        Settings { sync_deletions: !settings.sync_deletions, ..settings }
    } else {
        settings
    }
}

/// What is printed about a setting that has changed.
pub open spec fn toggle_notice(settings: Settings, value: Seq<char>) -> Seq<EffectView> {
    if text::begins_with(value, screens::SMART_MATCHING@) {
        seq![
            line(
                "Smart version matching: "@ + if settings.smart_version_matching {
                    "ON — ROMs with similar names but different version numbers will be flagged for review."@
                } else {
                    "OFF — Only exact filename matches will be skipped."@
                },
            ),
        ]
    } else if text::begins_with(value, screens::SYNC_DELETIONS@) {
        seq![
            line(
                "Sync deletions: "@ + if settings.sync_deletions {
                    "ON — ROMs missing from your local library will be listed for optional removal."@
                } else {
                    "OFF — Nothing will be removed from your SD card."@
                },
            ),
        ]
    } else {
        Seq::empty()
    }
}

/// The user chose a setting.
pub open spec fn setting_chosen(settings: Settings, value: Seq<char>) -> TurnView {
    let changed = toggled(settings, value);
    after(
        toggle_notice(changed, value).push(EffectView::SaveSettings(changed)),
        finish(screens::settings_screen(changed)),
    )
}

/// A platform is another one than this.
pub open spec fn other_than(platform: Seq<char>) -> spec_fn(Seq<char>) -> bool {
    |p: Seq<char>| p != platform
}

/// A selection without a platform that it held, or with one that it did not hold.
pub open spec fn selection_toggled(selected: Seq<Seq<char>>, platform: Seq<char>) -> Seq<Seq<char>> {
    if selected.contains(platform) {
        selected.filter(other_than(platform))
    } else {
        selected.push(platform)
    }
}

/// A changed selection is stored and shown.
pub open spec fn selection_changed(state: PluginStateView) -> TurnView {
    after(seq![EffectView::SaveState(state)], finish(screens::platform_screen(state)))
}

/// The user chose a platform, all of them, or to go on.
pub open spec fn platform_chosen(state: PluginStateView, value: Seq<char>) -> TurnView {
    if value == screens::SELECT_ALL@ {
        after(
            seq![line("All platforms selected."@)],
            selection_changed(
                PluginStateView { selected_platforms: state.available_platforms, ..state },
            ),
        )
    } else if value == screens::CONTINUE@ {
        if state.selected_platforms.len() == 0 {
            after(
                seq![EffectView::SaveState(state)],
                finish(screens::no_platform_screen(state.available_platforms)),
            )
        } else {
            after(
                seq![
                    line(
                        "Scanning your ROM library — this may take a moment for large collections..."@,
                    ),
                ],
                ask(RequestView::ReadExtMap, PendingView::ScanExtMap { state }),
            )
        }
    } else {
        selection_changed(
            PluginStateView {
                selected_platforms: selection_toggled(
                    state.selected_platforms,
                    text::lowercase(value),
                ),
                ..state
            },
        )
    }
}

/// The map that the stored bytes hold; empty where there is none.
pub open spec fn stored_ext_map(bytes: Option<Seq<u8>>) -> ExtMap {
    match bytes {
        Some(bytes) => match json_texts(bytes) {
            Some(ext_map) => ext_map,
            None => Map::empty(),
        },
        None => Map::empty(),
    }
}

/// A conflict as it is stored: its files go to the folder of the first of them.
pub open spec fn stored_conflict(group: ConflictGroupView) -> SerialConflictView {
    SerialConflictView {
        base: group.base,
        local_files: group.local.map_values(|rom: LocalRomView| rom.filename),
        card_files: group.on_card,
        dest_folder: if group.local.len() > 0 {
            group.local[0].dest_folder
        } else {
            Seq::empty()
        },
    }
}

/// The state with a plan.
pub open spec fn state_with_plan(state: PluginStateView, made: SyncPlanView) -> PluginStateView {
    PluginStateView {
        stage: "preview"@,
        to_copy: made.to_copy.map_values(|rom: LocalRomView| (rom.filename, rom.dest_folder)),
        conflicts: made.conflicts.map_values(|group: ConflictGroupView| stored_conflict(group)),
        orphans: made.orphans.map_values(|o: OrphanRomView| (o.filename, o.folder)),
        ..state
    }
}

/// The plan is stored, and shown in numbers.
pub open spec fn planned(state: PluginStateView, made: SyncPlanView) -> TurnView {
    after(
        seq![EffectView::SaveState(state_with_plan(state, made))],
        finish(
            screens::preview_screen(made.to_copy.len(), made.conflicts.len(), made.orphans.len()),
        ),
    )
}

/// The file of the library that stands for a file to copy.
pub open spec fn rom_to_copy(pair: (Seq<char>, Seq<char>)) -> LocalRomView {
    LocalRomView {
        filename: pair.0,
        extension: text::after_last(pair.0, '.'),
        dest_folder: pair.1,
    }
}

/// The files of the library that stand for the files to copy.
pub open spec fn roms_to_copy(pairs: Seq<(Seq<char>, Seq<char>)>) -> Seq<LocalRomView> {
    pairs.map_values(|pair: (Seq<char>, Seq<char>)| rom_to_copy(pair))
}

/// The session ends with its report.
pub open spec fn reported(state: PluginStateView) -> TurnView {
    after(seq![EffectView::Print(screens::report(state))], finish(PluginMessageView::Exit))
}

/// All files were tried: what the library lacks is shown, if that is switched on.
pub open spec fn copies_done(state: PluginStateView) -> TurnView {
    let done = PluginStateView { to_copy: Seq::empty(), ..state };
    after(
        seq![line(""@), EffectView::SaveState(done)],
        if done.orphans.len() > 0 && done.settings.sync_deletions {
            finish(screens::orphan_screen(done.orphans))
        } else {
            reported(done)
        },
    )
}

/// The next of these files is looked for, if there is one.
pub open spec fn next_copy(state: PluginStateView, roms: Seq<LocalRomView>) -> TurnView {
    if roms.len() == 0 {
        copies_done(state)
    } else {
        ask(
            RequestView::ReadLibrary,
            PendingView::Source { state, rom: roms[0], rest: roms.skip(1) },
        )
    }
}

/// The files to copy are tried, one after the other.
pub open spec fn copies_begun(state: PluginStateView) -> TurnView {
    after(
        seq![
            line("Copying "@ + text::decimal(state.to_copy.len()) + " ROM(s) to your SD card..."@),
        ],
        next_copy(state, roms_to_copy(state.to_copy)),
    )
}

/// A file was copied, or could not be.
pub open spec fn copy_tried(
    state: PluginStateView,
    rom: LocalRomView,
    rest: Seq<LocalRomView>,
    result: Result<(), Seq<char>>,
) -> TurnView {
    match result {
        Ok(()) => after(
            seq![EffectView::Print("█"@)],
            next_copy(PluginStateView { copied: state.copied + 1, ..state }, rest),
        ),
        Err(error) => after(
            seq![line("\nFailed to copy "@ + rom.filename + ": "@ + error)],
            next_copy(state, rest),
        ),
    }
}

/// The library was read, to find the file that is copied next.
pub open spec fn source_sought(
    state: PluginStateView,
    rom: LocalRomView,
    rest: Seq<LocalRomView>,
    found: Seq<Leaf>,
) -> TurnView {
    match first_named(found, rom.filename) {
        Some(source) => ask(
            RequestView::CopyFile { source, folder: rom.dest_folder, filename: rom.filename },
            PendingView::Copy { state, rom, rest },
        ),
        None => copy_tried(
            state,
            rom,
            rest,
            Err("Could not find "@ + rom.filename + " in host"@),
        ),
    }
}

/// The user confirmed a plan: first come its conflicts, then the copies.
pub open spec fn plan_confirmed(state: PluginStateView) -> TurnView {
    if state.conflicts.len() > 0 && state.settings.smart_version_matching {
        finish(screens::conflict_screen(state.conflicts[0]))
    } else {
        copies_begun(state)
    }
}

/// The state after the user settled the first conflict.
pub open spec fn conflict_settled(state: PluginStateView, value: Seq<char>) -> PluginStateView {
    if state.conflicts.len() == 0 {
        state
    } else {
        let conflict = state.conflicts[0];
        let left = PluginStateView { conflicts: state.conflicts.skip(1), ..state };
        if text::begins_with(value, screens::COPY_NEW@) {
            PluginStateView {
                to_copy: state.to_copy.push(
                    (text::without_prefixes(value, screens::COPY_NEW@), conflict.dest_folder),
                ),
                deleted: state.deleted + conflict.card_files.len(),
                ..left
            }
        } else if value == screens::SKIP_CONFLICT@ {
            PluginStateView { skipped: state.skipped + 1, ..left }
        } else {
            left
        }
    }
}

/// The files of the card that make way when the user settles the first conflict.
pub open spec fn files_replaced(state: PluginStateView, value: Seq<char>) -> Seq<EffectView> {
    if state.conflicts.len() > 0 && text::begins_with(value, screens::COPY_NEW@) {
        let folder = state.conflicts[0].dest_folder;
        state.conflicts[0].card_files.map_values(
            |filename: Seq<char>| EffectView::RemoveFile { folder, filename },
        )
    } else {
        Seq::empty()
    }
}

/// The user settled the first conflict: the next one follows, or the copies.
pub open spec fn conflict_answered(state: PluginStateView, value: Seq<char>) -> TurnView {
    let settled = conflict_settled(state, value);
    after(
        files_replaced(state, value).push(EffectView::SaveState(settled)),
        if settled.conflicts.len() > 0 {
            finish(screens::conflict_screen(settled.conflicts[0]))
        } else {
            copies_begun(settled)
        },
    )
}

/// The position of the first orphan of that name.
pub open spec fn orphan_at(
    orphans: Seq<(Seq<char>, Seq<char>)>,
    filename: Seq<char>,
) -> Option<int> {
    orphans.map_values(|o: (Seq<char>, Seq<char>)| o.0).index_of_first(filename)
}

/// The state is stored; the orphans that are left are shown, or else the report.
pub open spec fn orphans_left(state: PluginStateView) -> TurnView {
    after(
        seq![EffectView::SaveState(state)],
        if state.orphans.len() > 0 {
            finish(screens::orphan_screen(state.orphans))
        } else {
            reported(state)
        },
    )
}

/// The user chose an orphan to delete, or to end.
pub open spec fn orphan_answered(state: PluginStateView, value: Seq<char>) -> TurnView {
    if text::begins_with(value, screens::DELETE@) {
        match orphan_at(state.orphans, text::without_prefixes(value, screens::DELETE@)) {
            Some(i) => {
                let (filename, folder) = state.orphans[i];
                ask(
                    RequestView::DeleteFile { folder, filename },
                    PendingView::Delete {
                        state: PluginStateView { orphans: state.orphans.remove(i), ..state },
                        orphan: OrphanRomView { filename, folder },
                    },
                )
            },
            None => orphans_left(state),
        }
    } else {
        reported(state)
    }
}

/// An orphan was deleted, or could not be.
pub open spec fn deletion_tried(
    state: PluginStateView,
    orphan: OrphanRomView,
    result: Result<(), Seq<char>>,
) -> TurnView {
    match result {
        Ok(()) => after(
            seq![line("Removed: "@ + orphan.filename)],
            orphans_left(PluginStateView { deleted: state.deleted + 1, ..state }),
        ),
        Err(error) => after(
            seq![line("Failed to remove "@ + orphan.filename + ": "@ + error)],
            orphans_left(state),
        ),
    }
}

/// An event is an outcome of what a session waits for.
pub open spec fn answers(pending: PendingView, event: EventView) -> bool {
    match pending {
        PendingView::Cores => event is Cores,
        PendingView::SyncSettings { .. } => event is Settings,
        PendingView::MenuSettings => event is Settings,
        PendingView::ToggleSettings { .. } => event is Settings,
        PendingView::PlatformState { .. } => event is State,
        PendingView::PlatformSettings { .. } => event is Settings,
        PendingView::ScanExtMap { .. } => event is ExtMap,
        PendingView::ScanLibrary { .. } => event is Library,
        PendingView::ScanCard { ext_map, .. } => match event {
            EventView::Folders(listings) => listings.len() == folders(ext_map).len(),
            _ => false,
        },
        PendingView::PreviewState => event is State,
        PendingView::ConflictState { .. } => event is State,
        PendingView::OrphanState { .. } => event is State,
        PendingView::Source { .. } => event is Library,
        PendingView::Copy { .. } => event is Done,
        PendingView::Delete { .. } => event is Done,
    }
}

/// The counters have room for what an event adds to them.
pub open spec fn counters_fit(pending: PendingView, event: EventView) -> bool {
    match (pending, event) {
        (PendingView::ConflictState { value }, EventView::State(Some(state))) => {
            let settled = conflict_settled(state, value);
            settled.deleted <= usize::MAX && settled.skipped <= usize::MAX
        },
        (PendingView::Copy { state, .. }, EventView::Done(Ok(()))) => state.copied < usize::MAX,
        (PendingView::Delete { state, .. }, EventView::Done(Ok(()))) => state.deleted < usize::MAX,
        _ => true,
    }
}

/// The turn on an outcome.
pub open spec fn resumed(pending: PendingView, event: EventView) -> TurnView
    recommends
        answers(pending, event),
{
    match (pending, event) {
        (PendingView::Cores, EventView::Cores(cores)) => cores_read(core_extensions(cores)),
        (PendingView::SyncSettings { ext_map }, EventView::Settings(settings)) => sync_begun(
            ext_map,
            settings_or_default(settings),
        ),
        (PendingView::MenuSettings, EventView::Settings(settings)) => finish(
            screens::settings_screen(settings_or_default(settings)),
        ),
        (PendingView::ToggleSettings { value }, EventView::Settings(settings)) => setting_chosen(
            settings_or_default(settings),
            value,
        ),
        (PendingView::PlatformState { value }, EventView::State(state)) => match state {
            Some(state) => platform_chosen(state, value),
            None => ask(RequestView::ReadSettings, PendingView::PlatformSettings { value }),
        },
        (PendingView::PlatformSettings { value }, EventView::Settings(settings)) => platform_chosen(
            fresh_state(settings_or_default(settings), Seq::empty()),
            value,
        ),
        (PendingView::ScanExtMap { state }, EventView::ExtMap(bytes)) => ask(
            RequestView::ReadLibrary,
            PendingView::ScanLibrary { state, ext_map: stored_ext_map(bytes) },
        ),
        (PendingView::ScanLibrary { state, ext_map }, EventView::Library(found)) => ask(
            RequestView::ReadFolders(folders(ext_map)),
            PendingView::ScanCard { state, ext_map, roms: roms_among(found, ext_map) },
        ),
        (PendingView::ScanCard { state, ext_map, roms }, EventView::Folders(listings)) => planned(
            state,
            plan(roms, card_index(ext_map, listings), state.settings, state.selected_platforms),
        ),
        (PendingView::PreviewState, EventView::State(state)) => match state {
            Some(state) => plan_confirmed(state),
            None => finish(PluginMessageView::Exit),
        },
        (PendingView::ConflictState { value }, EventView::State(state)) => match state {
            Some(state) => conflict_answered(state, value),
            None => finish(PluginMessageView::Exit),
        },
        (PendingView::OrphanState { value }, EventView::State(state)) => match state {
            Some(state) => orphan_answered(state, value),
            None => finish(PluginMessageView::Exit),
        },
        (PendingView::Source { state, rom, rest }, EventView::Library(found)) => source_sought(
            state,
            rom,
            rest,
            found,
        ),
        (PendingView::Copy { state, rom, rest }, EventView::Done(result)) => copy_tried(
            state,
            rom,
            rest,
            result,
        ),
        (PendingView::Delete { state, orphan }, EventView::Done(result)) => deletion_tried(
            state,
            orphan,
            result,
        ),
        _ => finish(PluginMessageView::Exit),
    }
}

} // verus!
