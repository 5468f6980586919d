//! Laws of plans: what becomes of each file of the library and of the card.
use vstd::prelude::*;

use crate::plan::{
    close_matches, files_in, group_at, grouped, in_library, is_close, is_conflict, is_new,
    is_selected, on_card, orphans_among, orphans_of, plan, selected_roms, with_conflict, CardIndex,
};
use crate::seqs::{lemma_filter_keeps, lemma_push_contains};
use crate::types::{ConflictGroupView, LocalRomView, OrphanRomView, Settings};
use crate::version::base;

verus! {

/// A file is asked about in one of the groups.
pub open spec fn asked_about(groups: Seq<ConflictGroupView>, rom: LocalRomView) -> bool {
    exists|i: int| 0 <= i < groups.len() && (#[trigger] groups[i]).local.contains(rom)
}

/// What holds of the groups that files make up.
pub open spec fn well_grouped(groups: Seq<ConflictGroupView>, index: CardIndex) -> bool {
    &&& forall|i: int, j: int|
        0 <= i < j < groups.len() ==> (#[trigger] groups[i]).base != (#[trigger] groups[j]).base
    &&& forall|i: int| 0 <= i < groups.len() ==> well_formed_group(#[trigger] groups[i], index)
}

/// A group has a name, files of the library with that name, and the files of the card that look
/// like the first of them.
pub open spec fn well_formed_group(group: ConflictGroupView, index: CardIndex) -> bool {
    &&& group.base.len() > 0
    &&& group.local.len() > 0
    &&& group.on_card.len() > 0
    &&& group.on_card == close_matches(group.local[0], index)
    &&& forall|k: int| 0 <= k < group.local.len() ==> base((#[trigger] group.local[k]).filename) == group.base
}

pub(crate) proof fn lemma_group_at(groups: Seq<ConflictGroupView>, name: Seq<char>)
    ensures
        match group_at(groups, name) {
            Some(i) => 0 <= i < groups.len() && groups[i].base == name,
            None => forall|i: int| 0 <= i < groups.len() ==> (#[trigger] groups[i]).base != name,
        },
{
    let names = groups.map_values(|group: ConflictGroupView| group.base);
    names.index_of_first_ensures(name);
    if group_at(groups, name) is None {
        assert forall|i: int| 0 <= i < groups.len() implies (#[trigger] groups[i]).base != name by {
            assert(names[i] == groups[i].base);
        }
    }
}

proof fn lemma_with_conflict_asks(
    groups: Seq<ConflictGroupView>,
    rom: LocalRomView,
    index: CardIndex,
    other: LocalRomView,
)
    ensures
        asked_about(with_conflict(groups, rom, index), other) == (asked_about(groups, other) || other == rom),
{
    lemma_group_at(groups, base(rom.filename));
    let after = with_conflict(groups, rom, index);
    match group_at(groups, base(rom.filename)) {
        Some(i) => {
            lemma_push_contains(groups[i].local, rom, other);
            if asked_about(after, other) {
                let k = choose|k: int| 0 <= k < after.len() && (#[trigger] after[k]).local.contains(other);
                assert(k != i ==> groups[k].local.contains(other));
                assert(k == i ==> groups[i].local.contains(other) || other == rom);
            }
            if asked_about(groups, other) {
                let k = choose|k: int| 0 <= k < groups.len() && (#[trigger] groups[k]).local.contains(other);
                assert(after[k].local.contains(other));
            }
            assert(other == rom ==> after[i].local.contains(other));
        },
        None => {
            let n = groups.len() as int;
            assert(after[n].local == seq![rom]);
            assert(after[n].local[0] == rom);
            if asked_about(after, other) {
                let k = choose|k: int| 0 <= k < after.len() && (#[trigger] after[k]).local.contains(other);
                if k < n {
                    assert(groups[k].local.contains(other));
                }
            }
            if asked_about(groups, other) {
                let k = choose|k: int| 0 <= k < groups.len() && (#[trigger] groups[k]).local.contains(other);
                assert(after[k].local.contains(other));
            }
            assert(other == rom ==> after[n].local.contains(other));
        },
    }
}

pub(crate) proof fn lemma_grouped_asks(roms: Seq<LocalRomView>, index: CardIndex, rom: LocalRomView)
    ensures
        asked_about(grouped(roms, index), rom) == roms.contains(rom),
    decreases roms.len(),
{
    if roms.len() > 0 {
        let front = roms.drop_last();
        lemma_grouped_asks(front, index, rom);
        lemma_with_conflict_asks(grouped(front, index), roms.last(), index, rom);
        assert(roms =~= front.push(roms.last()));
        lemma_push_contains(front, roms.last(), rom);
    }
}

proof fn lemma_close_base(rom: LocalRomView, index: CardIndex)
    requires
        close_matches(rom, index).len() > 0,
    ensures
        base(rom.filename).len() > 0,
{
    let p = |f: Seq<char>| is_close(f, rom.filename);
    files_in(index, rom.dest_folder).lemma_filter_pred(p, 0);
    assert(p(close_matches(rom, index)[0]));
}

proof fn lemma_well_grouped(roms: Seq<LocalRomView>, index: CardIndex)
    requires
        forall|i: int| 0 <= i < roms.len() ==> close_matches(#[trigger] roms[i], index).len() > 0,
    ensures
        well_grouped(grouped(roms, index), index),
    decreases roms.len(),
{
    if roms.len() > 0 {
        let front = roms.drop_last();
        assert forall|i: int| 0 <= i < front.len() implies close_matches(#[trigger] front[i], index).len() > 0 by {
            assert(front[i] == roms[i]);
        }
        lemma_well_grouped(front, index);
        let groups = grouped(front, index);
        let rom = roms.last();
        let after = with_conflict(groups, rom, index);
        assert(roms[roms.len() - 1] == rom);
        lemma_close_base(rom, index);
        lemma_group_at(groups, base(rom.filename));
        match group_at(groups, base(rom.filename)) {
            Some(i) => {
                assert forall|a: int, b: int| 0 <= a < b < after.len() implies (#[trigger] after[a]).base != (#[trigger] after[b]).base by {
                    assert(groups[a].base != groups[b].base);
                }
                assert forall|k: int| 0 <= k < after.len() implies well_formed_group(#[trigger] after[k], index) by {
                    assert(well_formed_group(groups[k], index));
                    if k == i {
                        assert(after[i].local[0] == groups[i].local[0]);
                        assert forall|m: int| 0 <= m < after[i].local.len() implies base((#[trigger] after[i].local[m]).filename) == after[i].base by {
                            if m < groups[i].local.len() {
                                assert(after[i].local[m] == groups[i].local[m]);
                            }
                        }
                    }
                }
            },
            None => {
                let n = groups.len() as int;
                assert forall|a: int, b: int| 0 <= a < b < after.len() implies (#[trigger] after[a]).base != (#[trigger] after[b]).base by {
                    assert(groups[a].base != base(rom.filename));
                    if b < n {
                        assert(groups[a].base != groups[b].base);
                    }
                }
                assert forall|k: int| 0 <= k < after.len() implies well_formed_group(#[trigger] after[k], index) by {
                    if k < n {
                        assert(well_formed_group(groups[k], index));
                    } else {
                        assert(after[n].local[0] == rom);
                    }
                }
            },
        }
    }
}

/// Each file of the library that belongs to a selected platform has one fate: the card has it,
/// or it is copied, or the user is asked about it.
pub proof fn law_selected_file_has_one_fate(
    roms: Seq<LocalRomView>,
    index: CardIndex,
    settings: Settings,
    platforms: Seq<Seq<char>>,
    rom: LocalRomView,
)
    requires
        roms.contains(rom),
        is_selected(rom.dest_folder, platforms),
    ensures
        ({
            let made = plan(roms, index, settings, platforms);
            let present = on_card(rom, index);
            let copied = made.to_copy.contains(rom);
            let asked = asked_about(made.conflicts, rom);
            ||| present && !copied && !asked
            ||| !present && copied && !asked
            ||| !present && !copied && asked
        }),
{
    let smart = settings.smart_version_matching;
    let selected = selected_roms(roms, platforms);
    let asked = |r: LocalRomView| is_conflict(r, index, smart);
    lemma_filter_keeps(roms, rom, |r: LocalRomView| is_selected(r.dest_folder, platforms));
    lemma_filter_keeps(selected, rom, |r: LocalRomView| is_new(r, index, smart));
    lemma_filter_keeps(selected, rom, asked);
    lemma_grouped_asks(selected.filter(asked), index, rom);
}

/// Nothing else is copied or asked about: such a file is one of the library, belongs to a
/// selected platform, and is not on the card under its name.
pub proof fn law_only_missing_files_are_planned(
    roms: Seq<LocalRomView>,
    index: CardIndex,
    settings: Settings,
    platforms: Seq<Seq<char>>,
    rom: LocalRomView,
)
    requires
        ({
            let made = plan(roms, index, settings, platforms);
            made.to_copy.contains(rom) || asked_about(made.conflicts, rom)
        }),
    ensures
        roms.contains(rom),
        is_selected(rom.dest_folder, platforms),
        !files_in(index, rom.dest_folder).contains(rom.filename),
{
    let smart = settings.smart_version_matching;
    let selected = selected_roms(roms, platforms);
    let asked = |r: LocalRomView| is_conflict(r, index, smart);
    lemma_filter_keeps(roms, rom, |r: LocalRomView| is_selected(r.dest_folder, platforms));
    lemma_filter_keeps(selected, rom, |r: LocalRomView| is_new(r, index, smart));
    lemma_filter_keeps(selected, rom, asked);
    lemma_grouped_asks(selected.filter(asked), index, rom);
}

/// The groups of a plan have different names; each has at least one file of the library, all of
/// that name, and the files of the card that look like the first of them, at least one.
pub proof fn law_conflicts_are_grouped_by_name(
    roms: Seq<LocalRomView>,
    index: CardIndex,
    settings: Settings,
    platforms: Seq<Seq<char>>,
)
    ensures
        well_grouped(plan(roms, index, settings, platforms).conflicts, index),
{
    let smart = settings.smart_version_matching;
    let selected = selected_roms(roms, platforms);
    let asked = |r: LocalRomView| is_conflict(r, index, smart);
    let kept = selected.filter(asked);
    assert forall|i: int| 0 <= i < kept.len() implies close_matches(#[trigger] kept[i], index).len() > 0 by {
        selected.lemma_filter_pred(asked, i);
    }
    lemma_well_grouped(kept, index);
}

/// Without smart matching only exact file names count: nothing is asked about, and every
/// selected file is copied unless the card has it under its name.
pub proof fn law_without_smart_matching_names_are_exact(
    roms: Seq<LocalRomView>,
    index: CardIndex,
    settings: Settings,
    platforms: Seq<Seq<char>>,
)
    requires
        !settings.smart_version_matching,
    ensures
        plan(roms, index, settings, platforms).conflicts.len() == 0,
        plan(roms, index, settings, platforms).to_copy == selected_roms(roms, platforms).filter(
            |rom: LocalRomView| !on_card(rom, index),
        ),
{
    let selected = selected_roms(roms, platforms);
    let asked = |r: LocalRomView| is_conflict(r, index, false);
    let new = |r: LocalRomView| is_new(r, index, false);
    if selected.filter(asked).len() > 0 {
        selected.lemma_filter_pred(asked, 0);
    }
    assert(new =~= (|rom: LocalRomView| !on_card(rom, index)));
}

/// With smart matching, a selected file that the card lacks is asked about, and not just copied,
/// where its folder of the card has a file with the same base name.
pub proof fn law_other_versions_are_flagged(
    roms: Seq<LocalRomView>,
    index: CardIndex,
    settings: Settings,
    platforms: Seq<Seq<char>>,
    rom: LocalRomView,
    card_file: Seq<char>,
)
    requires
        settings.smart_version_matching,
        roms.contains(rom),
        is_selected(rom.dest_folder, platforms),
        !on_card(rom, index),
        files_in(index, rom.dest_folder).contains(card_file),
        base(card_file) == base(rom.filename),
        base(card_file).len() > 0,
    ensures
        asked_about(plan(roms, index, settings, platforms).conflicts, rom),
        !plan(roms, index, settings, platforms).to_copy.contains(rom),
{
    let close = |f: Seq<char>| is_close(f, rom.filename);
    lemma_filter_keeps(files_in(index, rom.dest_folder), card_file, close);
    assert(close_matches(rom, index).contains(card_file));
    law_selected_file_has_one_fate(roms, index, settings, platforms, rom);
    let selected = selected_roms(roms, platforms);
    let asked = |r: LocalRomView| is_conflict(r, index, true);
    lemma_filter_keeps(roms, rom, |r: LocalRomView| is_selected(r.dest_folder, platforms));
    lemma_filter_keeps(selected, rom, asked);
    lemma_grouped_asks(selected.filter(asked), index, rom);
}

/// Once the card has, beside what it had, the files that a plan copies, the next plan has nothing
/// to copy.
pub proof fn law_copied_files_are_not_planned_again(
    roms: Seq<LocalRomView>,
    index: CardIndex,
    later: CardIndex,
    settings: Settings,
    platforms: Seq<Seq<char>>,
)
    requires
        forall|folder: Seq<char>, file: Seq<char>|
            files_in(index, folder).contains(file) ==> #[trigger] files_in(later, folder).contains(file),
        forall|rom: LocalRomView|
            plan(roms, index, settings, platforms).to_copy.contains(rom) ==> #[trigger] on_card(rom, later),
    ensures
        plan(roms, later, settings, platforms).to_copy.len() == 0,
{
    let smart = settings.smart_version_matching;
    let selected = selected_roms(roms, platforms);
    let new = |r: LocalRomView| is_new(r, index, smart);
    let new_later = |r: LocalRomView| is_new(r, later, smart);
    if selected.filter(new_later).len() > 0 {
        let rom = selected.filter(new_later)[0];
        lemma_filter_keeps(selected, rom, new_later);
        lemma_filter_keeps(selected, rom, new);
        assert(selected.filter(new_later).contains(rom));
        assert(!on_card(rom, later));
        assert(!files_in(index, rom.dest_folder).contains(rom.filename));
        if !is_new(rom, index, smart) {
            let close = |f: Seq<char>| is_close(f, rom.filename);
            let card_file = close_matches(rom, index)[0];
            lemma_filter_keeps(files_in(index, rom.dest_folder), card_file, close);
            lemma_filter_keeps(files_in(later, rom.dest_folder), card_file, close);
            assert(close_matches(rom, index).contains(card_file));
            assert(files_in(later, rom.dest_folder).contains(card_file));
            assert(close_matches(rom, later).contains(card_file));
        }
    }
}

/// A folder of the index belongs to a selected platform and holds a file.
pub open spec fn lists(index: CardIndex, platforms: Seq<Seq<char>>, orphan: OrphanRomView) -> bool {
    exists|k: int|
        0 <= k < index.len() && (#[trigger] index[k]).0 == orphan.folder && is_selected(
            orphan.folder,
            platforms,
        ) && index[k].1.contains(orphan.filename)
}

proof fn lemma_orphans_of(
    folder: Seq<char>,
    files: Seq<Seq<char>>,
    roms: Seq<LocalRomView>,
    orphan: OrphanRomView,
)
    ensures
        orphans_of(folder, files, roms).contains(orphan) == (orphan.folder == folder && files.contains(
            orphan.filename,
        ) && !in_library(roms, orphan.filename)),
{
    let p = |f: Seq<char>| !in_library(roms, f);
    let kept = files.filter(p);
    let all = orphans_of(folder, files, roms);
    lemma_filter_keeps(files, orphan.filename, p);
    if all.contains(orphan) {
        let i = choose|i: int| 0 <= i < all.len() && all[i] == orphan;
        assert(kept[i] == orphan.filename);
    }
    if orphan.folder == folder && kept.contains(orphan.filename) {
        let i = choose|i: int| 0 <= i < kept.len() && kept[i] == orphan.filename;
        assert(all[i] == orphan);
    }
}

proof fn lemma_orphans_among(
    index: CardIndex,
    roms: Seq<LocalRomView>,
    platforms: Seq<Seq<char>>,
    orphan: OrphanRomView,
)
    ensures
        orphans_among(index, roms, platforms).contains(orphan) == (lists(index, platforms, orphan)
            && !in_library(roms, orphan.filename)),
    decreases index.len(),
{
    if index.len() > 0 {
        let front = index.drop_last();
        let n = front.len() as int;
        lemma_orphans_among(front, roms, platforms, orphan);
        lemma_orphans_of(index.last().0, index.last().1, roms, orphan);
        let before = orphans_among(front, roms, platforms);
        let added = orphans_of(index.last().0, index.last().1, roms);
        let both = before + added;
        assert(both.contains(orphan) == (before.contains(orphan) || added.contains(orphan))) by {
            if both.contains(orphan) {
                let i = choose|i: int| 0 <= i < both.len() && both[i] == orphan;
                if i < before.len() {
                    assert(before[i] == orphan);
                } else {
                    assert(added[i - before.len()] == orphan);
                }
            }
            if before.contains(orphan) {
                let i = choose|i: int| 0 <= i < before.len() && before[i] == orphan;
                assert(both[i] == orphan);
            }
            if added.contains(orphan) {
                let i = choose|i: int| 0 <= i < added.len() && added[i] == orphan;
                assert(both[i + before.len()] == orphan);
            }
        }
        if lists(index, platforms, orphan) {
            let k = choose|k: int|
                0 <= k < index.len() && (#[trigger] index[k]).0 == orphan.folder && is_selected(
                    orphan.folder,
                    platforms,
                ) && index[k].1.contains(orphan.filename);
            if k < n {
                assert(front[k] == index[k]);
            }
        }
        if lists(front, platforms, orphan) {
            let k = choose|k: int|
                0 <= k < front.len() && (#[trigger] front[k]).0 == orphan.folder && is_selected(
                    orphan.folder,
                    platforms,
                ) && front[k].1.contains(orphan.filename);
            assert(index[k] == front[k]);
        }
        assert(index[n] == index.last());
    }
}

/// With deletions switched on, the orphans are the files of the card, in folders of selected
/// platforms, whose names no file of the library has; with deletions switched off there is none.
pub proof fn law_orphans_are_what_the_library_lacks(
    roms: Seq<LocalRomView>,
    index: CardIndex,
    settings: Settings,
    platforms: Seq<Seq<char>>,
    orphan: OrphanRomView,
)
    ensures
        plan(roms, index, settings, platforms).orphans.contains(orphan) == (settings.sync_deletions
            && lists(index, platforms, orphan) && !in_library(roms, orphan.filename)),
        !settings.sync_deletions ==> plan(roms, index, settings, platforms).orphans.len() == 0,
{
    lemma_orphans_among(index, roms, platforms, orphan);
}

} // verus!
