//! Laws of plans, file by file: when a file is copied, asked about or offered for removal, told
//! from the library, the card and the selection alone.
use vstd::prelude::*;

use crate::laws::files::law_files_in_a_folder;
use crate::laws::plans::{
    asked_about, law_conflicts_are_grouped_by_name, law_orphans_are_what_the_library_lacks,
    lemma_group_at, lemma_grouped_asks, lists, well_formed_group,
};
use crate::laws::texts::{between, law_contained_text_stands_between_two};
use crate::plan::{
    close_matches, files_in, group_at, grouped, in_library, is_close, is_conflict, is_new,
    is_selected, on_card, orphans_among, orphans_of, plan, selected_roms, CardIndex,
};
use crate::seqs::{lemma_filter_empty, lemma_filter_keeps, lemma_filter_push};
use crate::strmap::distinct_keys;
use crate::text;
use crate::types::{ConflictGroupView, LocalRomView, OrphanRomView, Settings, SyncPlanView};
use crate::version::base;

verus! {

/// The name of a selected platform stands in the path of a folder.
pub open spec fn in_platform(folder: Seq<char>, platforms: Seq<Seq<char>>) -> bool {
    exists|i: int, a: Seq<char>, b: Seq<char>|
        0 <= i < platforms.len() && folder == #[trigger] between(a, platforms[i], b)
}

/// An entry of the index lists the file under the folder.
pub open spec fn listed_at(index: CardIndex, folder: Seq<char>, file: Seq<char>) -> bool {
    exists|k: int| 0 <= k < index.len() && (#[trigger] index[k]).0 == folder && index[k].1.contains(file)
}

/// A file of the card, in the folder of a file of the library, has the same base name, which is
/// not empty.
pub open spec fn same_game_on_card(index: CardIndex, rom: LocalRomView) -> bool {
    exists|file: Seq<char>|
        #[trigger] listed_at(index, rom.dest_folder, file) && base(file) == base(rom.filename) && base(
            file,
        ).len() > 0
}

/// No file of the library has the name.
pub open spec fn no_file_named(roms: Seq<LocalRomView>, name: Seq<char>) -> bool {
    forall|i: int| 0 <= i < roms.len() ==> (#[trigger] roms[i]).filename != name
}

/// A file of the library is to be copied: it belongs to a selected platform, the card does not list
/// it, and, if versions are matched, has no file with the same base name.
pub open spec fn to_be_copied(
    rom: LocalRomView,
    index: CardIndex,
    settings: Settings,
    platforms: Seq<Seq<char>>,
) -> bool {
    &&& in_platform(rom.dest_folder, platforms)
    &&& !listed_at(index, rom.dest_folder, rom.filename)
    &&& !(settings.smart_version_matching && same_game_on_card(index, rom))
}

/// A file of the library is to be asked about: it belongs to a selected platform, the card does not
/// list it, and, versions being matched, has a file with the same base name.
pub open spec fn to_be_asked_about(
    rom: LocalRomView,
    index: CardIndex,
    settings: Settings,
    platforms: Seq<Seq<char>>,
) -> bool {
    &&& in_platform(rom.dest_folder, platforms)
    &&& !listed_at(index, rom.dest_folder, rom.filename)
    &&& settings.smart_version_matching
    &&& same_game_on_card(index, rom)
}

/// A folder is selected if and only if the name of a selected platform stands in its path.
pub proof fn law_folders_are_selected_by_platform(folder: Seq<char>, platforms: Seq<Seq<char>>)
    ensures
        is_selected(folder, platforms) == in_platform(folder, platforms),
{
    if is_selected(folder, platforms) {
        let i = choose|i: int| 0 <= i < platforms.len() && text::contains(folder, #[trigger] platforms[i]);
        law_contained_text_stands_between_two(folder, platforms[i]);
        let (a, b) = choose|a: Seq<char>, b: Seq<char>| folder == #[trigger] between(a, platforms[i], b);
        assert(folder == between(a, platforms[i], b));
    }
    if in_platform(folder, platforms) {
        let (i, a, b) = choose|i: int, a: Seq<char>, b: Seq<char>|
            0 <= i < platforms.len() && folder == #[trigger] between(a, platforms[i], b);
        law_contained_text_stands_between_two(folder, platforms[i]);
        assert(text::contains(folder, platforms[i]));
    }
}

proof fn lemma_listed(index: CardIndex, folder: Seq<char>, file: Seq<char>)
    requires
        distinct_keys(index),
    ensures
        files_in(index, folder).contains(file) == listed_at(index, folder, file),
{
    law_files_in_a_folder(index, folder);
    if files_in(index, folder).contains(file) {
        if forall|k: int| 0 <= k < index.len() ==> (#[trigger] index[k]).0 != folder {
            assert(false);
        }
        let k = choose|k: int| 0 <= k < index.len() && (#[trigger] index[k]).0 == folder;
        assert(index[k].1.contains(file));
    }
}

proof fn lemma_close(index: CardIndex, rom: LocalRomView)
    requires
        distinct_keys(index),
        !listed_at(index, rom.dest_folder, rom.filename),
    ensures
        (close_matches(rom, index).len() > 0) == same_game_on_card(index, rom),
{
    let p = |f: Seq<char>| is_close(f, rom.filename);
    let files = files_in(index, rom.dest_folder);
    if close_matches(rom, index).len() > 0 {
        let file = close_matches(rom, index)[0];
        assert(files.filter(p).contains(file));
        lemma_filter_keeps(files, file, p);
        lemma_listed(index, rom.dest_folder, file);
    }
    if same_game_on_card(index, rom) {
        let file = choose|file: Seq<char>|
            #[trigger] listed_at(index, rom.dest_folder, file) && base(file) == base(rom.filename) && base(
                file,
            ).len() > 0;
        lemma_listed(index, rom.dest_folder, file);
        lemma_filter_keeps(files, file, p);
        assert(close_matches(rom, index).contains(file));
    }
}

proof fn lemma_fate(rom: LocalRomView, index: CardIndex, settings: Settings, platforms: Seq<Seq<char>>)
    requires
        distinct_keys(index),
    ensures
        (is_selected(rom.dest_folder, platforms) && is_new(rom, index, settings.smart_version_matching))
            == to_be_copied(rom, index, settings, platforms),
        (is_selected(rom.dest_folder, platforms) && is_conflict(
            rom,
            index,
            settings.smart_version_matching,
        )) == to_be_asked_about(rom, index, settings, platforms),
{
    law_folders_are_selected_by_platform(rom.dest_folder, platforms);
    lemma_listed(index, rom.dest_folder, rom.filename);
    assert(on_card(rom, index) == files_in(index, rom.dest_folder).contains(rom.filename));
    if !listed_at(index, rom.dest_folder, rom.filename) {
        lemma_close(index, rom);
    }
}

/// A file is copied if and only if it is a file of the library that is to be copied.
pub proof fn law_what_is_copied(
    roms: Seq<LocalRomView>,
    index: CardIndex,
    settings: Settings,
    platforms: Seq<Seq<char>>,
    rom: LocalRomView,
)
    requires
        distinct_keys(index),
    ensures
        plan(roms, index, settings, platforms).to_copy.contains(rom) == (roms.contains(rom)
            && to_be_copied(rom, index, settings, platforms)),
{
    let smart = settings.smart_version_matching;
    lemma_fate(rom, index, settings, platforms);
    lemma_filter_keeps(roms, rom, |r: LocalRomView| is_selected(r.dest_folder, platforms));
    lemma_filter_keeps(
        selected_roms(roms, platforms),
        rom,
        |r: LocalRomView| is_new(r, index, smart),
    );
}

/// The user is asked about a file if and only if it is a file of the library that is to be asked
/// about.
pub proof fn law_what_is_asked_about(
    roms: Seq<LocalRomView>,
    index: CardIndex,
    settings: Settings,
    platforms: Seq<Seq<char>>,
    rom: LocalRomView,
)
    requires
        distinct_keys(index),
    ensures
        asked_about(plan(roms, index, settings, platforms).conflicts, rom) == (roms.contains(rom)
            && to_be_asked_about(rom, index, settings, platforms)),
{
    let smart = settings.smart_version_matching;
    let selected = selected_roms(roms, platforms);
    let asked = |r: LocalRomView| is_conflict(r, index, smart);
    lemma_fate(rom, index, settings, platforms);
    lemma_filter_keeps(roms, rom, |r: LocalRomView| is_selected(r.dest_folder, platforms));
    lemma_filter_keeps(selected, rom, asked);
    lemma_grouped_asks(selected.filter(asked), index, rom);
}

/// The groups with one more file: it joins the group that has its base name, or opens one.
pub open spec fn joined(
    before: Seq<ConflictGroupView>,
    after: Seq<ConflictGroupView>,
    rom: LocalRomView,
) -> bool {
    if exists|i: int| 0 <= i < before.len() && (#[trigger] before[i]).base == base(rom.filename) {
        exists|i: int|
            #![trigger before[i]]
            0 <= i < before.len() && before[i].base == base(rom.filename) && after == before.update(
                i,
                ConflictGroupView {
                    base: before[i].base,
                    local: before[i].local.push(rom),
                    on_card: before[i].on_card,
                },
            )
    } else {
        &&& after.len() == before.len() + 1
        &&& after.take(before.len() as int) == before
        &&& after.last().base == base(rom.filename)
        &&& after.last().local == seq![rom]
    }
}

/// A plan is made file by file, in the order of the library: one more file is put behind the files
/// to copy, or joins the conflicts, or changes nothing of them. Without files there are none.
pub proof fn law_plan_goes_file_by_file(
    roms: Seq<LocalRomView>,
    rom: LocalRomView,
    index: CardIndex,
    settings: Settings,
    platforms: Seq<Seq<char>>,
)
    requires
        distinct_keys(index),
    ensures
        ({
            let none = plan(Seq::empty(), index, settings, platforms);
            let before = plan(roms, index, settings, platforms);
            let after = plan(roms.push(rom), index, settings, platforms);
            &&& none.to_copy.len() == 0
            &&& none.conflicts.len() == 0
            &&& after.to_copy == if to_be_copied(rom, index, settings, platforms) {
                before.to_copy.push(rom)
            } else {
                before.to_copy
            }
            &&& if to_be_asked_about(rom, index, settings, platforms) {
                joined(before.conflicts, after.conflicts, rom)
            } else {
                after.conflicts == before.conflicts
            }
        }),
{
    let smart = settings.smart_version_matching;
    let chosen = |r: LocalRomView| is_selected(r.dest_folder, platforms);
    let new = |r: LocalRomView| is_new(r, index, smart);
    let asked = |r: LocalRomView| is_conflict(r, index, smart);
    let selected = selected_roms(roms, platforms);
    lemma_fate(rom, index, settings, platforms);
    lemma_filter_empty(chosen);
    lemma_filter_empty(new);
    lemma_filter_empty(asked);
    lemma_filter_push(roms, rom, chosen);
    lemma_filter_push(selected, rom, new);
    lemma_filter_push(selected, rom, asked);
    if chosen(rom) && asked(rom) {
        let before = grouped(selected.filter(asked), index);
        let pushed = selected.filter(asked).push(rom);
        assert(pushed.drop_last() =~= selected.filter(asked));
        let after = grouped(pushed, index);
        lemma_group_at(before, base(rom.filename));
        match group_at(before, base(rom.filename)) {
            Some(i) => {
                assert(before[i].base == base(rom.filename));
            },
            None => {
                assert(after.take(before.len() as int) =~= before);
            },
        }
    }
}

proof fn lemma_filter_same<A>(s: Seq<A>, p: spec_fn(A) -> bool, q: spec_fn(A) -> bool)
    requires
        forall|i: int| 0 <= i < s.len() ==> p(#[trigger] s[i]) == q(s[i]),
    ensures
        s.filter(p) == s.filter(q),
    decreases s.len(),
{
    reveal(Seq::filter);
    if s.len() > 0 {
        let front = s.drop_last();
        assert forall|i: int| 0 <= i < front.len() implies p(#[trigger] front[i]) == q(front[i]) by {
            assert(front[i] == s[i]);
        }
        lemma_filter_same(front, p, q);
        assert(s.last() == s[s.len() - 1]);
    }
}

/// What a group of conflicts holds: files of the library that all have its base name, which is not
/// empty, and of the card, from the folder of the first of them, just the files that have that base
/// name, in the order of the card. No two groups have one name.
pub proof fn law_groups_hold_one_game(
    roms: Seq<LocalRomView>,
    index: CardIndex,
    settings: Settings,
    platforms: Seq<Seq<char>>,
    i: int,
)
    requires
        distinct_keys(index),
        0 <= i < plan(roms, index, settings, platforms).conflicts.len(),
    ensures
        ({
            let groups = plan(roms, index, settings, platforms).conflicts;
            let group = groups[i];
            &&& group.base.len() > 0
            &&& group.local.len() > 0
            &&& group.on_card.len() > 0
            &&& forall|m: int|
                0 <= m < group.local.len() ==> base((#[trigger] group.local[m]).filename) == group.base
            &&& forall|m: int| 0 <= m < group.on_card.len() ==> base(#[trigger] group.on_card[m]) == group.base
            &&& forall|file: Seq<char>|
                #[trigger] group.on_card.contains(file) == (listed_at(index, group.local[0].dest_folder, file)
                    && base(file) == group.base)
            &&& exists|k: int|
                0 <= k < index.len() && (#[trigger] index[k]).0 == group.local[0].dest_folder && group.on_card
                    == index[k].1.filter(|file: Seq<char>| base(file) == group.base)
            &&& forall|j: int| 0 <= j < groups.len() && (#[trigger] groups[j]).base == group.base ==> i == j
        }),
{
    let groups = plan(roms, index, settings, platforms).conflicts;
    let group = groups[i];
    law_conflicts_are_grouped_by_name(roms, index, settings, platforms);
    assert(well_formed_group(group, index));
    let first = group.local[0];
    assert(group.local.contains(first));
    assert(asked_about(groups, first));
    law_what_is_asked_about(roms, index, settings, platforms, first);
    let folder = first.dest_folder;
    let files = files_in(index, folder);
    let close = |f: Seq<char>| is_close(f, first.filename);
    let same = |file: Seq<char>| base(file) == group.base;
    assert forall|m: int| 0 <= m < files.len() implies close(#[trigger] files[m]) == same(files[m]) by {
        assert(files.contains(files[m]));
        lemma_listed(index, folder, files[m]);
    }
    lemma_filter_same(files, close, same);
    assert(group.on_card == files.filter(same));
    assert forall|file: Seq<char>| #[trigger] group.on_card.contains(file) == (listed_at(index, folder, file)
        && base(file) == group.base) by {
        lemma_filter_keeps(files, file, same);
        lemma_listed(index, folder, file);
    }
    assert forall|m: int| 0 <= m < group.on_card.len() implies base(#[trigger] group.on_card[m]) == group.base by {
        assert(group.on_card.contains(group.on_card[m]));
    }
    law_files_in_a_folder(index, folder);
    assert(group.on_card.contains(group.on_card[0]));
    let k = choose|k: int|
        0 <= k < index.len() && (#[trigger] index[k]).0 == folder && index[k].1.contains(group.on_card[0]);
    assert(index[k].1 == files);
    assert forall|j: int| 0 <= j < groups.len() && (#[trigger] groups[j]).base == group.base implies i == j by {
        if i < j {
            assert(groups[i].base != groups[j].base);
        }
        if j < i {
            assert(groups[j].base != groups[i].base);
        }
    }
}

/// A file of the card is offered for removal if and only if deletions are switched on, it is listed
/// in a folder of a selected platform, and no file of the library has its name.
pub proof fn law_what_is_offered_for_removal(
    roms: Seq<LocalRomView>,
    index: CardIndex,
    settings: Settings,
    platforms: Seq<Seq<char>>,
    orphan: OrphanRomView,
)
    ensures
        plan(roms, index, settings, platforms).orphans.contains(orphan) == (settings.sync_deletions
            && in_platform(orphan.folder, platforms) && listed_at(
            index,
            orphan.folder,
            orphan.filename,
        ) && no_file_named(roms, orphan.filename)),
{
    law_orphans_are_what_the_library_lacks(roms, index, settings, platforms, orphan);
    law_folders_are_selected_by_platform(orphan.folder, platforms);
    lemma_in_library(roms, orphan.filename);
    if listed_at(index, orphan.folder, orphan.filename) && in_platform(orphan.folder, platforms) {
        let k = choose|k: int|
            0 <= k < index.len() && (#[trigger] index[k]).0 == orphan.folder && index[k].1.contains(
                orphan.filename,
            );
        assert(index[k].0 == orphan.folder);
        assert(lists(index, platforms, orphan));
    }
}

proof fn lemma_in_library(roms: Seq<LocalRomView>, name: Seq<char>)
    ensures
        in_library(roms, name) == !no_file_named(roms, name),
{
}

/// The files that are offered for removal come folder by folder and file by file, in the order of
/// the card: one more file in the last folder is put behind the others, if it is to be offered.
pub proof fn law_removals_are_offered_in_order(
    roms: Seq<LocalRomView>,
    index: CardIndex,
    settings: Settings,
    platforms: Seq<Seq<char>>,
    folder: Seq<char>,
    files: Seq<Seq<char>>,
    file: Seq<char>,
)
    ensures
        ({
            let none: CardIndex = Seq::empty();
            let before = plan(roms, index, settings, platforms).orphans;
            let opened = plan(roms, index.push((folder, Seq::empty())), settings, platforms).orphans;
            let shorter = plan(roms, index.push((folder, files)), settings, platforms).orphans;
            let longer = plan(roms, index.push((folder, files.push(file))), settings, platforms).orphans;
            &&& plan(roms, none, settings, platforms).orphans.len() == 0
            &&& opened == before
            &&& longer == if settings.sync_deletions && in_platform(folder, platforms) && no_file_named(
                roms,
                file,
            ) {
                shorter.push(OrphanRomView { filename: file, folder })
            } else {
                shorter
            }
        }),
{
    let p = |f: Seq<char>| !in_library(roms, f);
    let q = |f: Seq<char>| OrphanRomView { filename: f, folder };
    law_folders_are_selected_by_platform(folder, platforms);
    lemma_in_library(roms, file);
    lemma_filter_empty(p);
    lemma_filter_push(files, file, p);
    assert(index.push((folder, Seq::empty())).drop_last() =~= index);
    assert(index.push((folder, files)).drop_last() =~= index);
    assert(index.push((folder, files.push(file))).drop_last() =~= index);
    let before = orphans_among(index, roms, platforms);
    assert(orphans_of(folder, Seq::empty(), roms) =~= Seq::empty());
    assert(before + orphans_of(folder, Seq::empty(), roms) =~= before);
    if p(file) {
        assert(orphans_of(folder, files.push(file), roms) =~= orphans_of(folder, files, roms).push(q(file)));
        assert(before + orphans_of(folder, files.push(file), roms) =~= (before + orphans_of(
            folder,
            files,
            roms,
        )).push(q(file)));
    }
}

/// Which files are copied and asked about does not depend on whether deletions are switched on.
pub proof fn law_deletions_change_no_copy(
    roms: Seq<LocalRomView>,
    index: CardIndex,
    settings: Settings,
    other: Settings,
    platforms: Seq<Seq<char>>,
)
    requires
        settings.smart_version_matching == other.smart_version_matching,
    ensures
        ({
            let made = plan(roms, index, settings, platforms);
            plan(roms, index, other, platforms) == (SyncPlanView {
                orphans: plan(roms, index, other, platforms).orphans,
                ..made
            })
        }),
{
}

} // verus!
