//! The values that the plugin exchanges with its host, plans with and stores.
//!
//! Each type stands beside its model, in which texts are sequences of characters.
use vstd::prelude::*;

verus! {

/// What the plugin says to the host.
#[derive(Debug, PartialEq, Eq)]
pub enum PluginMessage {
    /// Asks the user to choose.
    Choice { name: String, query: String, choices: Vec<String> },
    /// Asks the user for a text.
    Text { name: String, query: String },
    /// Ends the plugin.
    Exit,
}

pub enum PluginMessageView {
    Choice { name: Seq<char>, query: Seq<char>, choices: Seq<Seq<char>> },
    Text { name: Seq<char>, query: Seq<char> },
    Exit,
}

impl DeepView for PluginMessage {
    type V = PluginMessageView;

    open spec fn deep_view(&self) -> PluginMessageView {
        match self {
            PluginMessage::Choice { name, query, choices } => PluginMessageView::Choice {
                name: name@,
                query: query@,
                choices: choices.deep_view(),
            },
            PluginMessage::Text { name, query } => PluginMessageView::Text {
                name: name@,
                query: query@,
            },
            PluginMessage::Exit => PluginMessageView::Exit,
        }
    }
}

/// What the host says to the plugin.
#[derive(Debug, PartialEq, Eq)]
pub enum HostMessage {
    /// The user's answer to the question of that name.
    Answer { name: String, value: String },
    /// The host ends the plugin.
    Kill,
}

/// What the user can switch on and off.
#[derive(Debug, Clone, Copy, PartialEq, Eq)]
pub struct Settings {
    /// Flag files of the card that look like another version of a file of the library.
    pub smart_version_matching: bool,
    /// List files of the card that the library lacks.
    pub sync_deletions: bool,
}

impl Default for Settings {
    /// Everything is off.
    fn default() -> (r: Settings)
        ensures
            r == (Settings { smart_version_matching: false, sync_deletions: false }),
    {
        Settings { smart_version_matching: false, sync_deletions: false }
    }
}

/// A file of the local library that belongs on the card.
#[derive(Debug, PartialEq, Eq)]
pub struct LocalRom {
    pub filename: String,
    pub extension: String,
    /// The folder of the card in which it belongs.
    pub dest_folder: String,
}

pub struct LocalRomView {
    pub filename: Seq<char>,
    pub extension: Seq<char>,
    pub dest_folder: Seq<char>,
}

impl DeepView for LocalRom {
    type V = LocalRomView;

    open spec fn deep_view(&self) -> LocalRomView {
        LocalRomView {
            filename: self.filename@,
            extension: self.extension@,
            dest_folder: self.dest_folder@,
        }
    }
}

impl Clone for LocalRom {
    fn clone(&self) -> (r: LocalRom)
        ensures
            r.deep_view() == self.deep_view(),
    {
        LocalRom {
            filename: self.filename.clone(),
            extension: self.extension.clone(),
            dest_folder: self.dest_folder.clone(),
        }
    }
}

/// Files of the library that share a name, up to the version, with files of the card.
#[derive(Debug, PartialEq, Eq)]
pub struct ConflictGroup {
    /// The name that they share.
    pub base: String,
    pub local: Vec<LocalRom>,
    pub on_card: Vec<String>,
}

pub struct ConflictGroupView {
    pub base: Seq<char>,
    pub local: Seq<LocalRomView>,
    pub on_card: Seq<Seq<char>>,
}

impl DeepView for ConflictGroup {
    type V = ConflictGroupView;

    open spec fn deep_view(&self) -> ConflictGroupView {
        ConflictGroupView {
            base: self.base@,
            local: self.local.deep_view(),
            on_card: self.on_card.deep_view(),
        }
    }
}

/// A file of the card that the library lacks.
#[derive(Debug, PartialEq, Eq)]
pub struct OrphanRom {
    pub filename: String,
    pub folder: String,
}

pub struct OrphanRomView {
    pub filename: Seq<char>,
    pub folder: Seq<char>,
}

impl DeepView for OrphanRom {
    type V = OrphanRomView;

    open spec fn deep_view(&self) -> OrphanRomView {
        OrphanRomView { filename: self.filename@, folder: self.folder@ }
    }
}

/// What a synchronisation would do.
#[derive(Debug, PartialEq, Eq)]
pub struct SyncPlan {
    pub to_copy: Vec<LocalRom>,
    pub conflicts: Vec<ConflictGroup>,
    pub orphans: Vec<OrphanRom>,
}

pub struct SyncPlanView {
    pub to_copy: Seq<LocalRomView>,
    pub conflicts: Seq<ConflictGroupView>,
    pub orphans: Seq<OrphanRomView>,
}

impl DeepView for SyncPlan {
    type V = SyncPlanView;

    open spec fn deep_view(&self) -> SyncPlanView {
        SyncPlanView {
            to_copy: self.to_copy.deep_view(),
            conflicts: self.conflicts.deep_view(),
            orphans: self.orphans.deep_view(),
        }
    }
}

/// A conflict as it is stored.
#[derive(Debug, PartialEq, Eq)]
pub struct SerialConflict {
    pub base: String,
    pub local_files: Vec<String>,
    pub card_files: Vec<String>,
    pub dest_folder: String,
}

pub struct SerialConflictView {
    pub base: Seq<char>,
    pub local_files: Seq<Seq<char>>,
    pub card_files: Seq<Seq<char>>,
    pub dest_folder: Seq<char>,
}

impl DeepView for SerialConflict {
    type V = SerialConflictView;

    open spec fn deep_view(&self) -> SerialConflictView {
        SerialConflictView {
            base: self.base@,
            local_files: self.local_files.deep_view(),
            card_files: self.card_files.deep_view(),
            dest_folder: self.dest_folder@,
        }
    }
}

impl Clone for SerialConflict {
    fn clone(&self) -> (r: SerialConflict)
        ensures
            r.deep_view() == self.deep_view(),
    {
        SerialConflict {
            base: self.base.clone(),
            local_files: self.local_files.clone(),
            card_files: self.card_files.clone(),
            dest_folder: self.dest_folder.clone(),
        }
    }
}

/// What the plugin stores from one answer of the user to the next.
#[derive(Debug, PartialEq, Eq)]
pub struct PluginState {
    pub stage: String,
    pub settings: Settings,
    pub selected_platforms: Vec<String>,
    pub available_platforms: Vec<String>,
    /// The files to copy, each with its folder of the card.
    pub to_copy: Vec<(String, String)>,
    pub conflicts: Vec<SerialConflict>,
    /// The files of the card that may be removed, each with its folder.
    pub orphans: Vec<(String, String)>,
    pub copied: usize,
    pub deleted: usize,
    pub skipped: usize,
}

pub struct PluginStateView {
    pub stage: Seq<char>,
    pub settings: Settings,
    pub selected_platforms: Seq<Seq<char>>,
    pub available_platforms: Seq<Seq<char>>,
    pub to_copy: Seq<(Seq<char>, Seq<char>)>,
    pub conflicts: Seq<SerialConflictView>,
    pub orphans: Seq<(Seq<char>, Seq<char>)>,
    pub copied: nat,
    pub deleted: nat,
    pub skipped: nat,
}

impl DeepView for PluginState {
    type V = PluginStateView;

    open spec fn deep_view(&self) -> PluginStateView {
        PluginStateView {
            stage: self.stage@,
            settings: self.settings,
            selected_platforms: self.selected_platforms.deep_view(),
            available_platforms: self.available_platforms.deep_view(),
            to_copy: self.to_copy.deep_view(),
            conflicts: self.conflicts.deep_view(),
            orphans: self.orphans.deep_view(),
            copied: self.copied as nat,
            deleted: self.deleted as nat,
            skipped: self.skipped as nat,
        }
    }
}

/// A copy of a list of pairs of texts.
fn copy_pairs(pairs: &Vec<(String, String)>) -> (r: Vec<(String, String)>)
    ensures
        r.deep_view() == pairs.deep_view(),
{
    let mut out: Vec<(String, String)> = Vec::new();
    let mut i: usize = 0;
    while i < pairs.len()
        invariant
            i <= pairs@.len(),
            out.deep_view() == pairs.deep_view().take(i as int),
        decreases pairs@.len() - i,
    {
        let ghost before = out.deep_view();
        out.push((pairs[i].0.clone(), pairs[i].1.clone()));
        assert(out.deep_view() =~= before.push(pairs.deep_view()[i as int]));
        assert(out.deep_view() =~= pairs.deep_view().take(i + 1));
        i += 1;
    }
    assert(out.deep_view() =~= pairs.deep_view());
    out
}

impl Clone for PluginState {
    fn clone(&self) -> (r: PluginState)
        ensures
            r.deep_view() == self.deep_view(),
    {
        let conflicts = self.conflicts.clone();
        assert(conflicts.deep_view() =~= self.conflicts.deep_view());
        PluginState {
            stage: self.stage.clone(),
            settings: self.settings,
            selected_platforms: self.selected_platforms.clone(),
            available_platforms: self.available_platforms.clone(),
            to_copy: copy_pairs(&self.to_copy),
            conflicts,
            orphans: copy_pairs(&self.orphans),
            copied: self.copied,
            deleted: self.deleted,
            skipped: self.skipped,
        }
    }
}

} // verus!
