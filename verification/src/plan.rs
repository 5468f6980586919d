//! What a synchronisation would copy, ask about and offer to remove.
use vstd::prelude::*;

use crate::seqs::{lemma_filter_empty, lemma_filter_push, lemma_take_push};
use crate::strmap::{has_key, value_of, StrMap};
use crate::types::{
    ConflictGroup, ConflictGroupView, LocalRom, LocalRomView, OrphanRom, OrphanRomView, Settings,
    SyncPlan, SyncPlanView,
};
use crate::version::{base, base_name};
use crate::{strings, text};

verus! {

/// The files of the card, folder by folder.
pub type CardIndex = Seq<(Seq<char>, Seq<Seq<char>>)>;

/// A folder belongs to one of the platforms: its path holds the platform's name.
pub open spec fn is_selected(folder: Seq<char>, platforms: Seq<Seq<char>>) -> bool {
    exists|i: int| 0 <= i < platforms.len() && text::contains(folder, #[trigger] platforms[i])
}

/// The files in a folder of the card; none where the folder is not listed.
pub open spec fn files_in(index: CardIndex, folder: Seq<char>) -> Seq<Seq<char>> {
    if has_key(index, folder) {
        value_of(index, folder)
    } else {
        Seq::empty()
    }
}

/// The card has the file under its very name.
pub open spec fn on_card(rom: LocalRomView, index: CardIndex) -> bool {
    files_in(index, rom.dest_folder).contains(rom.filename)
}

/// A file of the card looks like another version of a file.
pub open spec fn is_close(card_file: Seq<char>, filename: Seq<char>) -> bool {
    base(card_file).len() > 0 && base(card_file) == base(filename) && card_file != filename
}

/// The files of the card, in the folder of a file, that look like another version of it.
pub open spec fn close_matches(rom: LocalRomView, index: CardIndex) -> Seq<Seq<char>> {
    files_in(index, rom.dest_folder).filter(|f: Seq<char>| is_close(f, rom.filename))
}

/// A file has to be asked about: the card lacks it, but has what looks like another version.
pub open spec fn is_conflict(rom: LocalRomView, index: CardIndex, smart: bool) -> bool {
    !on_card(rom, index) && smart && close_matches(rom, index).len() > 0
}

/// A file is copied without a question.
pub open spec fn is_new(rom: LocalRomView, index: CardIndex, smart: bool) -> bool {
    !on_card(rom, index) && !(smart && close_matches(rom, index).len() > 0)
}

/// The files that belong to one of the platforms.
pub open spec fn selected_roms(
    roms: Seq<LocalRomView>,
    platforms: Seq<Seq<char>>,
) -> Seq<LocalRomView> {
    roms.filter(|rom: LocalRomView| is_selected(rom.dest_folder, platforms))
}

/// The position of the group with that name.
pub open spec fn group_at(groups: Seq<ConflictGroupView>, name: Seq<char>) -> Option<int> {
    groups.map_values(|group: ConflictGroupView| group.base).index_of_first(name)
}

/// The groups after a file joined the one that has its name, or opened one with the files of
/// the card that look like it.
pub open spec fn with_conflict(
    groups: Seq<ConflictGroupView>,
    rom: LocalRomView,
    index: CardIndex,
) -> Seq<ConflictGroupView> {
    match group_at(groups, base(rom.filename)) {
        Some(i) => groups.update(
            i,
            ConflictGroupView { local: groups[i].local.push(rom), ..groups[i] },
        ),
        None => groups.push(
            ConflictGroupView {
                base: base(rom.filename),
                local: seq![rom],
                on_card: close_matches(rom, index),
            },
        ),
    }
}

/// The groups that files make up, taken in in order.
pub open spec fn grouped(roms: Seq<LocalRomView>, index: CardIndex) -> Seq<ConflictGroupView>
    decreases roms.len(),
{
    if roms.len() == 0 {
        Seq::empty()
    } else {
        with_conflict(grouped(roms.drop_last(), index), roms.last(), index)
    }
}

/// The library has a file of that name.
pub open spec fn in_library(roms: Seq<LocalRomView>, filename: Seq<char>) -> bool {
    exists|i: int| 0 <= i < roms.len() && (#[trigger] roms[i]).filename == filename
}

/// The files of a folder that the library lacks.
pub open spec fn orphans_of(
    folder: Seq<char>,
    files: Seq<Seq<char>>,
    roms: Seq<LocalRomView>,
) -> Seq<OrphanRomView> {
    files.filter(|f: Seq<char>| !in_library(roms, f)).map_values(
        |f: Seq<char>| OrphanRomView { filename: f, folder },
    )
}

/// The files of the card that the library lacks, in the folders of the platforms.
pub open spec fn orphans_among(
    index: CardIndex,
    roms: Seq<LocalRomView>,
    platforms: Seq<Seq<char>>,
) -> Seq<OrphanRomView>
    decreases index.len(),
{
    if index.len() == 0 {
        Seq::empty()
    } else {
        let before = orphans_among(index.drop_last(), roms, platforms);
        if is_selected(index.last().0, platforms) {
            before + orphans_of(index.last().0, index.last().1, roms)
        } else {
            before
        }
    }
}

/// What a synchronisation would do.
pub open spec fn plan(
    roms: Seq<LocalRomView>,
    index: CardIndex,
    settings: Settings,
    platforms: Seq<Seq<char>>,
) -> SyncPlanView {
    let smart = settings.smart_version_matching;
    let selected = selected_roms(roms, platforms);
    SyncPlanView {
        to_copy: selected.filter(|rom: LocalRomView| is_new(rom, index, smart)),
        conflicts: grouped(selected.filter(|rom: LocalRomView| is_conflict(rom, index, smart)), index),
        orphans: if settings.sync_deletions {
            orphans_among(index, roms, platforms)
        } else {
            Seq::empty()
        },
    }
}

fn folder_is_selected(folder: &str, platforms: &Vec<String>) -> (r: bool)
    ensures
        r == is_selected(folder@, platforms.deep_view()),
{
    let ghost names = platforms.deep_view();
    let mut i: usize = 0;
    while i < platforms.len()
        invariant
            i <= platforms@.len(),
            names == platforms.deep_view(),
            forall|j: int| 0 <= j < i ==> !text::contains(folder@, #[trigger] names[j]),
        decreases platforms@.len() - i,
    {
        if strings::contains(folder, platforms[i].as_str()) {
            assert(text::contains(folder@, names[i as int]));
            return true;
        }
        i += 1;
    }
    false
}

/// The files of a list that look like another version of a file with that base name.
fn matches_among(files: &Vec<String>, filename: &str, local_base: &str) -> (r: Vec<String>)
    requires
        local_base@ == base(filename@),
    ensures
        r.deep_view() == files.deep_view().filter(|f: Seq<char>| is_close(f, filename@)),
{
    let ghost p = |f: Seq<char>| is_close(f, filename@);
    let ghost all = files.deep_view();
    let mut out: Vec<String> = Vec::new();
    let mut i: usize = 0;
    proof {
        lemma_filter_empty(p);
        assert(all.take(0) =~= Seq::empty());
        assert(out.deep_view() =~= Seq::empty());
    }
    while i < files.len()
        invariant
            i <= files@.len(),
            all == files.deep_view(),
            local_base@ == base(filename@),
            p == (|f: Seq<char>| is_close(f, filename@)),
            out.deep_view() == all.take(i as int).filter(p),
        decreases files@.len() - i,
    {
        let ghost before = out.deep_view();
        proof {
            lemma_take_push(all, i as int);
            lemma_filter_push(all.take(i as int), all[i as int], p);
        }
        let card_base = base_name(files[i].as_str());
        if !card_base.as_str().is_empty() && strings::equal(card_base.as_str(), local_base)
            && !strings::equal(files[i].as_str(), filename) {
            out.push(files[i].clone());
            assert(out.deep_view() =~= before.push(all[i as int]));
        }
        i += 1;
    }
    assert(all.take(i as int) =~= all);
    out
}

/// Puts a file into the group that has its name, or opens one.
fn add_conflict(
    conflicts: &mut Vec<ConflictGroup>,
    rom: &LocalRom,
    local_base: String,
    on_card: Vec<String>,
    Ghost(index): Ghost<CardIndex>,
)
    requires
        local_base@ == base(rom.filename@),
        on_card.deep_view() == close_matches(rom.deep_view(), index),
    ensures
        final(conflicts).deep_view() == with_conflict(
            old(conflicts).deep_view(),
            rom.deep_view(),
            index,
        ),
{
    let ghost groups = conflicts.deep_view();
    let ghost names = groups.map_values(|group: ConflictGroupView| group.base);
    let mut i: usize = 0;
    while i < conflicts.len()
        invariant
            i <= conflicts@.len(),
            groups == conflicts.deep_view(),
            groups == old(conflicts).deep_view(),
            local_base@ == base(rom.filename@),
            names == groups.map_values(|group: ConflictGroupView| group.base),
            forall|j: int| 0 <= j < i ==> names[j] != local_base@,
        decreases conflicts@.len() - i,
    {
        if strings::equal(conflicts[i].base.as_str(), local_base.as_str()) {
            proof {
                assert(names[i as int] == local_base@);
                names.index_of_first_ensures(local_base@);
                assert(names.contains(local_base@));
                assert(group_at(groups, local_base@) == Some(i as int));
            }
            conflicts[i].local.push(rom.clone());
            proof {
                let group = ConflictGroupView {
                    local: groups[i as int].local.push(rom.deep_view()),
                    ..groups[i as int]
                };
                assert(conflicts@[i as int].local.deep_view() =~= groups[i as int].local.push(rom.deep_view()));
                assert(conflicts@[i as int].deep_view() == group);
                assert(conflicts.deep_view() =~= groups.update(i as int, group));
            }
            return;
        }
        i += 1;
    }
    proof {
        names.index_of_first_ensures(local_base@);
        assert(group_at(groups, local_base@) is None);
    }
    let mut local: Vec<LocalRom> = Vec::new();
    local.push(rom.clone());
    assert(local.deep_view() =~= seq![rom.deep_view()]);
    conflicts.push(ConflictGroup { base: local_base, local, on_card });
    assert(conflicts.deep_view() =~= with_conflict(groups, rom.deep_view(), index));
}

fn library_has(roms: &Vec<LocalRom>, filename: &str) -> (r: bool)
    ensures
        r == in_library(roms.deep_view(), filename@),
{
    let ghost all = roms.deep_view();
    let mut i: usize = 0;
    while i < roms.len()
        invariant
            i <= roms@.len(),
            all == roms.deep_view(),
            forall|j: int| 0 <= j < i ==> (#[trigger] all[j]).filename != filename@,
        decreases roms@.len() - i,
    {
        if strings::equal(roms[i].filename.as_str(), filename) {
            assert(all[i as int].filename == filename@);
            return true;
        }
        i += 1;
    }
    false
}

fn add_orphans(orphans: &mut Vec<OrphanRom>, folder: &str, files: &Vec<String>, roms: &Vec<LocalRom>)
    ensures
        final(orphans).deep_view() == old(orphans).deep_view() + orphans_of(
            folder@,
            files.deep_view(),
            roms.deep_view(),
        ),
{
    let ghost p = |f: Seq<char>| !in_library(roms.deep_view(), f);
    let ghost all = files.deep_view();
    let ghost start = orphans.deep_view();
    let mut i: usize = 0;
    proof {
        lemma_filter_empty(p);
        assert(all.take(0) =~= Seq::empty());
        assert(start + orphans_of(folder@, all.take(0), roms.deep_view()) =~= start);
    }
    while i < files.len()
        invariant
            i <= files@.len(),
            all == files.deep_view(),
            p == (|f: Seq<char>| !in_library(roms.deep_view(), f)),
            orphans.deep_view() == start + orphans_of(folder@, all.take(i as int), roms.deep_view()),
        decreases files@.len() - i,
    {
        let ghost before = orphans.deep_view();
        proof {
            lemma_take_push(all, i as int);
            lemma_filter_push(all.take(i as int), all[i as int], p);
        }
        if !library_has(roms, files[i].as_str()) {
            orphans.push(OrphanRom { filename: files[i].clone(), folder: folder.to_owned() });
            proof {
                let added = OrphanRomView { filename: all[i as int], folder: folder@ };
                assert(orphans.deep_view() =~= before.push(added));
                assert(orphans_of(folder@, all.take(i + 1), roms.deep_view()) =~= orphans_of(
                    folder@,
                    all.take(i as int),
                    roms.deep_view(),
                ).push(added));
            }
        }
        assert(orphans.deep_view() =~= start + orphans_of(folder@, all.take(i + 1), roms.deep_view()));
        i += 1;
    }
    assert(all.take(i as int) =~= all);
}

/// What a synchronisation of the library with the card would do.
pub fn build_sync_plan(
    local_roms: &Vec<LocalRom>,
    sd_index: &StrMap<Vec<String>>,
    settings: &Settings,
    selected_platforms: &Vec<String>,
) -> (r: SyncPlan)
    ensures
        r.deep_view() == plan(
            local_roms.deep_view(),
            sd_index.entries(),
            *settings,
            selected_platforms.deep_view(),
        ),
{
    let ghost roms = local_roms.deep_view();
    let ghost index = sd_index.entries();
    let ghost smart = settings.smart_version_matching;
    let ghost platforms = selected_platforms.deep_view();
    let ghost chosen = |rom: LocalRomView| is_selected(rom.dest_folder, platforms);
    let ghost new = |rom: LocalRomView| is_new(rom, index, smart);
    let ghost asked = |rom: LocalRomView| is_conflict(rom, index, smart);
    let mut to_copy: Vec<LocalRom> = Vec::new();
    let mut conflicts: Vec<ConflictGroup> = Vec::new();
    let mut i: usize = 0;
    proof {
        lemma_filter_empty(chosen);
        lemma_filter_empty(new);
        lemma_filter_empty(asked);
        assert(roms.take(0) =~= Seq::empty());
        assert(to_copy.deep_view() =~= Seq::empty());
        assert(conflicts.deep_view() =~= Seq::empty());
    }
    while i < local_roms.len()
        invariant
            i <= local_roms@.len(),
            roms == local_roms.deep_view(),
            index == sd_index.entries(),
            smart == settings.smart_version_matching,
            platforms == selected_platforms.deep_view(),
            chosen == (|rom: LocalRomView| is_selected(rom.dest_folder, platforms)),
            new == (|rom: LocalRomView| is_new(rom, index, smart)),
            asked == (|rom: LocalRomView| is_conflict(rom, index, smart)),
            to_copy.deep_view() == roms.take(i as int).filter(chosen).filter(new),
            conflicts.deep_view() == grouped(roms.take(i as int).filter(chosen).filter(asked), index),
        decreases local_roms@.len() - i,
    {
        let rom = &local_roms[i];
        let ghost it = roms[i as int];
        let ghost selected = roms.take(i as int).filter(chosen);
        proof {
            lemma_take_push(roms, i as int);
            lemma_filter_push(roms.take(i as int), it, chosen);
            lemma_filter_push(selected, it, new);
            lemma_filter_push(selected, it, asked);
            assert(selected.filter(asked).push(it).drop_last() =~= selected.filter(asked));
        }
        i += 1;
        if !folder_is_selected(rom.dest_folder.as_str(), selected_platforms) {
            continue;
        }
        let none: Vec<String> = Vec::new();
        let sd_files = match sd_index.get(rom.dest_folder.as_str()) {
            Some(files) => files,
            None => &none,
        };
        assert(sd_files.deep_view() =~= files_in(index, it.dest_folder));
        if strings::holds(sd_files, rom.filename.as_str()) {
            continue;
        }
        if settings.smart_version_matching {
            let local_base = base_name(rom.filename.as_str());
            let close = matches_among(sd_files, rom.filename.as_str(), local_base.as_str());
            if close.len() > 0 {
                add_conflict(&mut conflicts, rom, local_base, close, Ghost(index));
                continue;
            }
        }
        let ghost before = to_copy.deep_view();
        to_copy.push(rom.clone());
        assert(to_copy.deep_view() =~= before.push(it));
    }
    assert(roms.take(i as int) =~= roms);
    let mut orphans: Vec<OrphanRom> = Vec::new();
    assert(orphans.deep_view() =~= Seq::empty());
    if settings.sync_deletions {
        let mut k: usize = 0;
        assert(index.take(0) =~= Seq::empty());
        while k < sd_index.len()
            invariant
                k <= index.len(),
                index == sd_index.entries(),
                roms == local_roms.deep_view(),
                platforms == selected_platforms.deep_view(),
                orphans.deep_view() == orphans_among(index.take(k as int), roms, platforms),
            decreases index.len() - k,
        {
            let (folder, files) = sd_index.entry(k);
            assert(index.take(k + 1).drop_last() =~= index.take(k as int));
            assert(index.take(k + 1).last() == index[k as int]);
            if folder_is_selected(folder.as_str(), selected_platforms) {
                add_orphans(&mut orphans, folder.as_str(), files, local_roms);
            }
            k += 1;
        }
        assert(index.take(k as int) =~= index);
    }
    SyncPlan { to_copy, conflicts, orphans }
}

} // verus!
