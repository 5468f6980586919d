//! Laws of files: what the walk through the library comes by, what of it belongs on the card, and
//! where a file is found again.
use vstd::prelude::*;

use crate::cores::{folders, ExtMap};
use crate::laws::slots::law_folders_and_platforms_are_listed;
use crate::laws::texts::between;
use crate::library::{
    card_index, extension, extension_key, file_names, first_named, is_rom, leaves, names_in, rom_of,
    rom_with, roms_among, Entry, Leaf,
};
use crate::plan::files_in;
use crate::seqs::{lemma_filter_empty, lemma_filter_push};
use crate::strmap::{distinct_keys, has_key, value_of};
use crate::text;
use crate::types::LocalRomView;

verus! {

/// The walk comes by the entries in order, and by those of a directory where it stands.
pub proof fn law_the_walk_goes_in_order(a: Seq<Entry>, b: Seq<Entry>, inner: Vec<Entry>, name: String, id: usize)
    ensures
        leaves(Seq::empty()) == Seq::<Leaf>::empty(),
        leaves(a + b) == leaves(a) + leaves(b),
        leaves(seq![Entry::Dir { entries: inner }]) == leaves(inner@),
        leaves(seq![Entry::File { name, id }]) == seq![Leaf { name: name@, id, is_file: true }],
        leaves(seq![Entry::Other { name, id }]) == seq![Leaf { name: name@, id, is_file: false }],
    decreases b.len(),
{
    lemma_one_entry(Entry::Dir { entries: inner });
    lemma_one_entry(Entry::File { name, id });
    lemma_one_entry(Entry::Other { name, id });
    assert(leaves(seq![Entry::File { name, id }]) =~= seq![Leaf { name: name@, id, is_file: true }]);
    assert(leaves(seq![Entry::Other { name, id }]) =~= seq![Leaf { name: name@, id, is_file: false }]);
    if b.len() == 0 {
        assert(a + b =~= a);
        assert(leaves(a) + leaves(b) =~= leaves(a));
    } else {
        law_the_walk_goes_in_order(a, b.drop_last(), inner, name, id);
        assert((a + b).drop_last() =~= a + b.drop_last());
        assert((a + b).last() == b.last());
        assert(leaves(a + b) =~= leaves(a) + leaves(b));
    }
}

proof fn lemma_one_entry(entry: Entry)
    ensures
        leaves(seq![entry]) == match entry {
            Entry::Dir { entries } => leaves(entries@),
            Entry::File { name, id } => seq![Leaf { name: name@, id, is_file: true }],
            Entry::Other { name, id } => seq![Leaf { name: name@, id, is_file: false }],
        },
{
    let one = seq![entry];
    assert(one.drop_last() =~= Seq::empty());
    assert(leaves(one.drop_last()) =~= Seq::empty());
    assert(one.last() == entry);
    let own = match entry {
        Entry::Dir { entries } => leaves(entries@),
        Entry::File { name, id } => seq![Leaf { name: name@, id, is_file: true }],
        Entry::Other { name, id } => seq![Leaf { name: name@, id, is_file: false }],
    };
    assert(leaves(one) == leaves(one.drop_last()) + own);
    assert(leaves(one) =~= own);
}

/// The files that stand directly in a directory are listed by name, in order.
pub proof fn law_files_of_a_folder(a: Seq<Entry>, entry: Entry)
    ensures
        file_names(Seq::empty()) == Seq::<Seq<char>>::empty(),
        file_names(a.push(entry)) == match entry {
            Entry::File { name, .. } => file_names(a).push(name@),
            _ => file_names(a),
        },
{
    assert(a.push(entry).drop_last() =~= a);
}

/// Each listing of a folder is listed by the names of its files.
pub proof fn law_listings_are_read_one_by_one(listings: Seq<Vec<Entry>>)
    ensures
        names_in(listings).len() == listings.len(),
        forall|i: int| 0 <= i < listings.len() ==> #[trigger] names_in(listings)[i] == file_names(listings[i]@),
{
}

/// The extension of a file name is what stands behind its last full stop; a name has none that
/// holds no full stop, holds it only at its beginning, or is `..`.
pub proof fn law_extension_of_a_name(stem: Seq<char>, chars: Seq<char>)
    requires
        !chars.contains('.'),
    ensures
        extension(chars) is None,
        extension(seq!['.'] + chars) is None,
        extension(".."@) is None,
        stem.len() > 0 && between(stem, seq!['.'], chars) != ".."@ ==> extension(
            between(stem, seq!['.'], chars),
        ) == Some(chars),
{
    let hidden = seq!['.'] + chars;
    let whole = between(stem, seq!['.'], chars);
    let n = stem.len() as int;
    reveal_strlit("..");
    chars.index_of_last_ensures('.');
    assert(chars != ".."@) by {
        if chars == ".."@ {
            assert(chars[0] == '.');
        }
    }
    assert(hidden[0] == '.');
    assert forall|j: int| 0 < j < hidden.len() implies hidden[j] != '.' by {
        assert(hidden[j] == chars[j - 1]);
    }
    text::lemma_last_index(hidden, '.', 0);
    assert(whole[n] == '.');
    assert forall|j: int| n < j < whole.len() implies whole[j] != '.' by {
        assert(whole[j] == chars[j - n - 1]);
    }
    text::lemma_last_index(whole, '.', n);
    assert(whole.skip(n + 1) =~= chars);
}

/// Extensions are looked up in lower case, and a name without one as the empty text.
pub proof fn law_extensions_are_looked_up_in_lower_case(name: Seq<char>)
    ensures
        extension(name) is None ==> extension_key(name) == Seq::<char>::empty(),
        forall|chars: Seq<char>|
            extension(name) == Some(chars) ==> extension_key(name) == #[trigger] text::lowercase(chars),
{
}

/// A name is a file of the library under an extension if and only if the map has the extension, and
/// then it goes to the folder that the map gives.
pub proof fn law_files_go_where_their_extension_says(name: Seq<char>, key: Seq<char>, map: ExtMap)
    ensures
        map.dom().contains(key) ==> rom_with(name, key, map) == Some(
            LocalRomView { filename: name, extension: key, dest_folder: map[key] },
        ),
        !map.dom().contains(key) ==> rom_with(name, key, map) is None,
{
}

/// A scan goes through the library leaf by leaf: a file whose extension some core takes is put
/// behind the others, with its name, its extension and the folder of that extension; anything else
/// is passed over.
pub proof fn law_scan_leaf_by_leaf(found: Seq<Leaf>, leaf: Leaf, map: ExtMap)
    ensures
        roms_among(Seq::empty(), map) == Seq::<LocalRomView>::empty(),
        roms_among(found.push(leaf), map) == if leaf.is_file && map.dom().contains(
            extension_key(leaf.name),
        ) {
            roms_among(found, map).push(
                LocalRomView {
                    filename: leaf.name,
                    extension: extension_key(leaf.name),
                    dest_folder: map[extension_key(leaf.name)],
                },
            )
        } else {
            roms_among(found, map)
        },
{
    let p = |l: Leaf| is_rom(l, map);
    let f = |l: Leaf| rom_of(l, map);
    lemma_filter_empty(p);
    assert(roms_among(Seq::empty(), map) =~= Seq::empty());
    lemma_filter_push(found, leaf, p);
    if p(leaf) {
        assert(found.filter(p).push(leaf).map_values(f) =~= found.filter(p).map_values(f).push(f(leaf)));
    }
}

/// A file is found by its name: if one is, some leaf has its number and its very name, and none
/// before it has that name; if none is, no leaf has that name.
pub proof fn law_files_are_found_by_name(found: Seq<Leaf>, name: Seq<char>)
    ensures
        match first_named(found, name) {
            Some(id) => exists|i: int|
                0 <= i < found.len() && (#[trigger] found[i]).id == id && found[i].name == name
                    && forall|j: int| 0 <= j < i ==> (#[trigger] found[j]).name != name,
            None => forall|j: int| 0 <= j < found.len() ==> (#[trigger] found[j]).name != name,
        },
    decreases found.len(),
{
    if found.len() > 0 {
        let rest = found.skip(1);
        law_files_are_found_by_name(rest, name);
        if found[0].name != name {
            match first_named(rest, name) {
                Some(id) => {
                    let i = choose|i: int|
                        0 <= i < rest.len() && (#[trigger] rest[i]).id == id && rest[i].name == name
                            && forall|j: int| 0 <= j < i ==> (#[trigger] rest[j]).name != name;
                    assert(found[i + 1] == rest[i]);
                    assert forall|j: int| 0 <= j < i + 1 implies (#[trigger] found[j]).name != name by {
                        if j > 0 {
                            assert(found[j] == rest[j - 1]);
                        }
                    }
                },
                None => {
                    assert forall|j: int| 0 <= j < found.len() implies (#[trigger] found[j]).name != name by {
                        if j > 0 {
                            assert(found[j] == rest[j - 1]);
                        }
                    }
                },
            }
        }
    }
}

/// The index of the card has each folder with its listing, in the order of the folders.
pub proof fn law_the_card_is_indexed_by_folder(map: ExtMap, listings: Seq<Seq<Seq<char>>>)
    ensures
        card_index(map, listings).len() == folders(map).len(),
        forall|i: int|
            0 <= i < folders(map).len() ==> #[trigger] card_index(map, listings)[i] == (
                folders(map)[i],
                listings[i],
            ),
{
}

/// The index of the card has no folder twice.
pub proof fn law_the_index_has_each_folder_once(map: ExtMap, listings: Seq<Seq<Seq<char>>>)
    requires
        map.dom().finite(),
    ensures
        distinct_keys(card_index(map, listings)),
{
    let index = card_index(map, listings);
    law_folders_and_platforms_are_listed(map, Seq::empty());
    assert forall|i: int, j: int| 0 <= i < j < index.len() implies (#[trigger] index[i]).0 != (
    #[trigger] index[j]).0 by {
        assert(text::precedes(folders(map)[i], folders(map)[j]));
        text::lemma_precedes_irreflexive(folders(map)[i]);
    }
}

/// The files in a folder are those of the entry of the index that has it; where none has it there
/// are no files.
pub proof fn law_files_in_a_folder(index: Seq<(Seq<char>, Seq<Seq<char>>)>, folder: Seq<char>)
    requires
        distinct_keys(index),
    ensures
        forall|k: int|
            0 <= k < index.len() && (#[trigger] index[k]).0 == folder ==> files_in(index, folder) == index[k].1,
        (forall|k: int| 0 <= k < index.len() ==> (#[trigger] index[k]).0 != folder) ==> files_in(index, folder)
            == Seq::<Seq<char>>::empty(),
{
    assert forall|k: int| 0 <= k < index.len() && (#[trigger] index[k]).0 == folder implies files_in(index, folder)
        == index[k].1 by {
        assert(has_key(index, folder));
        let j = choose|j: int| 0 <= j < index.len() && (#[trigger] index[j]).0 == folder;
        assert(value_of(index, folder) == index[j].1);
        if j < k {
            assert(index[j].0 != index[k].0);
        }
        if k < j {
            assert(index[k].0 != index[j].0);
        }
    }
}

/// No two entries have one key.
pub proof fn law_keys_are_distinct<X>(entries: Seq<(Seq<char>, X)>)
    ensures
        distinct_keys(entries) == forall|i: int, j: int|
            0 <= i < entries.len() && 0 <= j < entries.len() && (#[trigger] entries[i]).0 == (
            #[trigger] entries[j]).0 ==> i == j,
{
    if distinct_keys(entries) {
        assert forall|i: int, j: int|
            0 <= i < entries.len() && 0 <= j < entries.len() && (#[trigger] entries[i]).0 == (
            #[trigger] entries[j]).0 implies i == j by {
            if i < j {
                assert(entries[i].0 != entries[j].0);
            }
            if j < i {
                assert(entries[j].0 != entries[i].0);
            }
        }
    }
}

} // verus!
