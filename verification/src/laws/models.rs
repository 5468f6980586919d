//! Laws of the models: each says of a value what the value holds, field by field.
use vstd::prelude::*;

use crate::cores::CoreFile;
use crate::json::{json_texts, DataSlot};
use crate::library::{leaves, names_in};
use crate::protocol::{
    Effect, EffectView, Event, EventView, Next, NextView, Pending, PendingView, Request, RequestView,
    Turn,
};
use crate::strmap::{lemma_entry_in_map, map_of, StrMap};
use crate::types::{
    ConflictGroup, LocalRom, LocalRomView, OrphanRom, PluginMessage, PluginMessageView, PluginState,
    SerialConflict, SyncPlan,
};

verus! {

/// A list of texts is modelled text by text.
pub open spec fn same_texts(texts: Vec<String>, model: Seq<Seq<char>>) -> bool {
    model.len() == texts@.len() && forall|i: int| 0 <= i < model.len() ==> #[trigger] model[i] == texts@[i]@
}

/// A list of pairs of texts is modelled pair by pair.
pub open spec fn same_pairs(pairs: Vec<(String, String)>, model: Seq<(Seq<char>, Seq<char>)>) -> bool {
    model.len() == pairs@.len() && forall|i: int|
        0 <= i < model.len() ==> #[trigger] model[i] == (pairs@[i].0@, pairs@[i].1@)
}

/// Files of the library and of the card are modelled by their names and folders.
pub proof fn law_models_of_files(rom: LocalRom, orphan: OrphanRom, core_file: CoreFile)
    ensures
        rom.deep_view().filename == rom.filename@,
        rom.deep_view().extension == rom.extension@,
        rom.deep_view().dest_folder == rom.dest_folder@,
        orphan.deep_view().filename == orphan.filename@,
        orphan.deep_view().folder == orphan.folder@,
        core_file.deep_view().name == core_file.name@,
        core_file.deep_view().data == core_file.data@,
{
}

/// A slot is modelled by what it says.
pub proof fn law_model_of_a_slot(slot: DataSlot)
    ensures
        slot.deep_view().parameters == slot.parameters,
        match slot.filename {
            Some(path) => slot.deep_view().filename == Some(path@),
            None => slot.deep_view().filename is None,
        },
        match slot.extensions {
            Some(list) => {
                &&& slot.deep_view().extensions is Some
                &&& slot.deep_view().extensions->0.len() == list@.len()
                &&& forall|i: int|
                    0 <= i < list@.len() ==> match list@[i] {
                        Some(extension) => #[trigger] slot.deep_view().extensions->0[i] == Some(extension@),
                        None => slot.deep_view().extensions->0[i] is None,
                    }
            },
            None => slot.deep_view().extensions is None,
        },
{
}

/// A plan is modelled by its files, groups and orphans, in order.
pub proof fn law_model_of_a_plan(made: SyncPlan, group: ConflictGroup)
    ensures
        made.deep_view().to_copy.len() == made.to_copy@.len(),
        made.deep_view().conflicts.len() == made.conflicts@.len(),
        made.deep_view().orphans.len() == made.orphans@.len(),
        forall|i: int|
            0 <= i < made.to_copy@.len() ==> #[trigger] made.deep_view().to_copy[i] == made.to_copy@[i].deep_view(),
        forall|i: int|
            0 <= i < made.conflicts@.len() ==> #[trigger] made.deep_view().conflicts[i]
                == made.conflicts@[i].deep_view(),
        forall|i: int|
            0 <= i < made.orphans@.len() ==> #[trigger] made.deep_view().orphans[i] == made.orphans@[i].deep_view(),
        group.deep_view().base == group.base@,
        group.deep_view().local.len() == group.local@.len(),
        forall|i: int|
            0 <= i < group.local@.len() ==> #[trigger] group.deep_view().local[i] == group.local@[i].deep_view(),
        same_texts(group.on_card, group.deep_view().on_card),
{
}

/// A state is modelled field by field.
pub proof fn law_model_of_a_state(state: PluginState, conflict: SerialConflict)
    ensures
        state.deep_view().stage == state.stage@,
        state.deep_view().settings == state.settings,
        same_texts(state.selected_platforms, state.deep_view().selected_platforms),
        same_texts(state.available_platforms, state.deep_view().available_platforms),
        same_pairs(state.to_copy, state.deep_view().to_copy),
        same_pairs(state.orphans, state.deep_view().orphans),
        state.deep_view().conflicts.len() == state.conflicts@.len(),
        forall|i: int|
            0 <= i < state.conflicts@.len() ==> #[trigger] state.deep_view().conflicts[i]
                == state.conflicts@[i].deep_view(),
        state.deep_view().copied == state.copied,
        state.deep_view().deleted == state.deleted,
        state.deep_view().skipped == state.skipped,
        conflict.deep_view().base == conflict.base@,
        same_texts(conflict.local_files, conflict.deep_view().local_files),
        same_texts(conflict.card_files, conflict.deep_view().card_files),
        conflict.deep_view().dest_folder == conflict.dest_folder@,
{
}

/// A message is modelled by its words and choices.
pub proof fn law_model_of_a_message(message: PluginMessage)
    ensures
        match message {
            PluginMessage::Choice { name, query, choices } => match message.deep_view() {
                PluginMessageView::Choice { name: n, query: q, choices: c } => n == name@ && q == query@
                    && same_texts(choices, c),
                _ => false,
            },
            PluginMessage::Text { name, query } => match message.deep_view() {
                PluginMessageView::Text { name: n, query: q } => n == name@ && q == query@,
                _ => false,
            },
            PluginMessage::Exit => message.deep_view() is Exit,
        },
{
}

/// A turn is modelled by its effects, in order, and its end.
pub proof fn law_model_of_a_turn(turn: Turn)
    ensures
        turn.deep_view().effects.len() == turn.effects@.len(),
        forall|i: int|
            0 <= i < turn.effects@.len() ==> #[trigger] turn.deep_view().effects[i] == turn.effects@[i].deep_view(),
        turn.deep_view().next == match turn.next {
            Next::Finish(message) => NextView::Finish(message.deep_view()),
            Next::Ask { request, pending } => NextView::Ask {
                request: request.deep_view(),
                pending: pending.deep_view(),
            },
        },
{
}

/// An effect is modelled by what it does.
pub proof fn law_model_of_an_effect(effect: Effect)
    ensures
        match effect {
            Effect::Print(words) => effect.deep_view() == EffectView::Print(words@),
            Effect::SaveSettings(settings) => effect.deep_view() == EffectView::SaveSettings(settings),
            Effect::SaveState(state) => effect.deep_view() == EffectView::SaveState(state.deep_view()),
            Effect::SaveExtMap(bytes) => effect.deep_view() == EffectView::SaveExtMap(json_texts(bytes@)),
            Effect::RemoveFile { folder, filename } => match effect.deep_view() {
                EffectView::RemoveFile { folder: d, filename: f } => d == folder@ && f == filename@,
                _ => false,
            },
        },
{
}

/// A request is modelled by what it asks for.
pub proof fn law_model_of_a_request(request: Request)
    ensures
        match request {
            Request::ReadCores => request.deep_view() is ReadCores,
            Request::ReadSettings => request.deep_view() is ReadSettings,
            Request::ReadState => request.deep_view() is ReadState,
            Request::ReadExtMap => request.deep_view() is ReadExtMap,
            Request::ReadLibrary => request.deep_view() is ReadLibrary,
            Request::ReadFolders(folders) => match request.deep_view() {
                RequestView::ReadFolders(model) => same_texts(folders, model),
                _ => false,
            },
            Request::CopyFile { source, folder, filename } => match request.deep_view() {
                RequestView::CopyFile { source: s, folder: d, filename: f } => s == source && d == folder@ && f
                    == filename@,
                _ => false,
            },
            Request::DeleteFile { folder, filename } => match request.deep_view() {
                RequestView::DeleteFile { folder: d, filename: f } => d == folder@ && f == filename@,
                _ => false,
            },
        },
{
}

/// An outcome is modelled by what was read, or by whether something was done.
pub proof fn law_model_of_an_outcome(event: Event)
    ensures
        match event {
            Event::Cores(cores) => match event.deep_view() {
                EventView::Cores(model) => model.len() == cores@.len() && forall|i: int|
                    0 <= i < model.len() ==> #[trigger] model[i] == cores@[i].deep_view(),
                _ => false,
            },
            Event::Settings(settings) => event.deep_view() == EventView::Settings(settings),
            Event::State(state) => match event.deep_view() {
                EventView::State(model) => match state {
                    Some(state) => model == Some(state.deep_view()),
                    None => model is None,
                },
                _ => false,
            },
            Event::ExtMap(bytes) => match event.deep_view() {
                EventView::ExtMap(model) => match bytes {
                    Some(bytes) => model == Some(bytes@),
                    None => model is None,
                },
                _ => false,
            },
            Event::Library(entries) => event.deep_view() == EventView::Library(leaves(entries@)),
            Event::Folders(listings) => event.deep_view() == EventView::Folders(names_in(listings@)),
            Event::Done(result) => match event.deep_view() {
                EventView::Done(model) => match result {
                    Ok(()) => model is Ok,
                    Err(error) => model is Err && model->Err_0 == error@,
                },
                _ => false,
            },
        },
{
}

/// What a session keeps in mind is modelled part by part.
pub proof fn law_model_of_what_is_kept_in_mind(pending: Pending)
    ensures
        match (pending, pending.deep_view()) {
            (Pending::Cores, PendingView::Cores) => true,
            (Pending::SyncSettings { ext_map }, PendingView::SyncSettings { ext_map: m }) => m == ext_map.map(),
            (Pending::MenuSettings, PendingView::MenuSettings) => true,
            (Pending::ToggleSettings { value }, PendingView::ToggleSettings { value: v }) => v == value@,
            (Pending::PlatformState { value }, PendingView::PlatformState { value: v }) => v == value@,
            (Pending::PlatformSettings { value }, PendingView::PlatformSettings { value: v }) => v == value@,
            (Pending::ScanExtMap { state }, PendingView::ScanExtMap { state: s }) => s == state.deep_view(),
            (
                Pending::ScanLibrary { state, ext_map },
                PendingView::ScanLibrary { state: s, ext_map: m },
            ) => s == state.deep_view() && m == ext_map.map(),
            (
                Pending::ScanCard { state, ext_map, roms },
                PendingView::ScanCard { state: s, ext_map: m, roms: r },
            ) => s == state.deep_view() && m == ext_map.map() && same_roms(roms, r),
            (Pending::PreviewState, PendingView::PreviewState) => true,
            (Pending::ConflictState { value }, PendingView::ConflictState { value: v }) => v == value@,
            (Pending::OrphanState { value }, PendingView::OrphanState { value: v }) => v == value@,
            (Pending::Source { state, rom, rest }, PendingView::Source { state: s, rom: o, rest: r }) => s
                == state.deep_view() && o == rom.deep_view() && same_roms(rest, r),
            (Pending::Copy { state, rom, rest }, PendingView::Copy { state: s, rom: o, rest: r }) => s
                == state.deep_view() && o == rom.deep_view() && same_roms(rest, r),
            (Pending::Delete { state, orphan }, PendingView::Delete { state: s, orphan: o }) => s
                == state.deep_view() && o == orphan.deep_view(),
            _ => false,
        },
{
}

/// A list of files is modelled file by file.
pub open spec fn same_roms(roms: Vec<LocalRom>, model: Seq<LocalRomView>) -> bool {
    model.len() == roms@.len() && forall|i: int|
        0 <= i < model.len() ==> #[trigger] model[i] == roms@[i].deep_view()
}

/// A map has just the keys of its entries, each with the value of its entry, if no key occurs
/// twice.
pub proof fn law_maps_hold_their_entries<X>(entries: Seq<(Seq<char>, X)>, key: Seq<char>)
    requires
        forall|i: int, j: int|
            0 <= i < j < entries.len() ==> (#[trigger] entries[i]).0 != (#[trigger] entries[j]).0,
    ensures
        map_of(entries).dom().contains(key) == exists|i: int|
            0 <= i < entries.len() && (#[trigger] entries[i]).0 == key,
        forall|i: int|
            0 <= i < entries.len() && (#[trigger] entries[i]).0 == key ==> map_of(entries)[key] == entries[i].1,
{
    assert forall|i: int| 0 <= i < entries.len() && (#[trigger] entries[i]).0 == key implies map_of(entries)[key]
        == entries[i].1 by {
        lemma_entry_in_map(entries, i);
    }
}

/// A map with texts as keys is modelled by its entries.
pub proof fn law_model_of_a_map<X: DeepView>(map: StrMap<X>)
    ensures
        map.map() == map_of(map.entries()),
{
}

} // verus!
