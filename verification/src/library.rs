//! Files: the local library, walked through, and the folders of the card.
use vstd::prelude::*;

use crate::cores::{card_folders, folders};
use crate::strmap::{has_key, StrMap};
use crate::types::{LocalRom, LocalRomView};
use crate::{strings, text};

verus! {

/// An entry of a directory, as it was read.
#[derive(Debug, PartialEq, Eq)]
pub enum Entry {
    /// A directory with its entries; none where it cannot be read.
    Dir { entries: Vec<Entry> },
    /// A file. The number is the one by which the reader of the directory finds it again.
    File { name: String, id: usize },
    /// Something else that is no directory.
    Other { name: String, id: usize },
}

/// An entry that is no directory.
pub struct Leaf {
    pub name: Seq<char>,
    pub id: usize,
    pub is_file: bool,
}

/// The entries below a list of entries that are no directories, in the order of a walk that
/// enters each directory where it stands.
pub open spec fn leaves(entries: Seq<Entry>) -> Seq<Leaf>
    decreases entries,
{
    if entries.len() == 0 {
        Seq::empty()
    } else {
        leaves(entries.drop_last()) + match entries.last() {
            Entry::Dir { entries: inner } => leaves(inner@),
            Entry::File { name, id } => seq![Leaf { name: name@, id, is_file: true }],
            Entry::Other { name, id } => seq![Leaf { name: name@, id, is_file: false }],
        }
    }
}

/// The extension of a file name: what stands behind its last full stop, unless that is its
/// first character or the name is `..`.
pub open spec fn extension(name: Seq<char>) -> Option<Seq<char>> {
    if name == ".."@ {
        None
    } else {
        match name.index_of_last('.') {
            Some(i) => if i > 0 {
                Some(name.skip(i + 1))
            } else {
                None
            },
            None => None,
        }
    }
}

/// The extension of a file name in lower case; empty where it has none.
pub open spec fn extension_key(name: Seq<char>) -> Seq<char> {
    match extension(name) {
        Some(chars) => text::lowercase(chars),
        None => Seq::empty(),
    }
}

/// The file of the library with that name and that extension in lower case, if some core takes
/// the extension.
pub open spec fn rom_with(
    name: Seq<char>,
    key: Seq<char>,
    map: Map<Seq<char>, Seq<char>>,
) -> Option<LocalRomView> {
    if map.dom().contains(key) {
        Some(LocalRomView { filename: name, extension: key, dest_folder: map[key] })
    } else {
        None
    }
}

/// A leaf belongs on the card: it is a file with an extension that some core takes.
pub open spec fn is_rom(leaf: Leaf, map: Map<Seq<char>, Seq<char>>) -> bool {
    leaf.is_file && rom_with(leaf.name, extension_key(leaf.name), map) is Some
}

/// The file of the library that such a leaf is.
pub open spec fn rom_of(leaf: Leaf, map: Map<Seq<char>, Seq<char>>) -> LocalRomView {
    rom_with(leaf.name, extension_key(leaf.name), map)->0
}

/// The files of the library that belong on the card, in the order of the walk.
pub open spec fn roms_among(found: Seq<Leaf>, map: Map<Seq<char>, Seq<char>>) -> Seq<LocalRomView> {
    found.filter(|leaf: Leaf| is_rom(leaf, map)).map_values(|leaf: Leaf| rom_of(leaf, map))
}

/// The number of the first leaf of that name.
pub open spec fn first_named(found: Seq<Leaf>, name: Seq<char>) -> Option<usize>
    decreases found.len(),
{
    if found.len() == 0 {
        None
    } else if found[0].name == name {
        Some(found[0].id)
    } else {
        first_named(found.skip(1), name)
    }
}

/// The names of the files that stand directly in a list of entries.
pub open spec fn file_names(entries: Seq<Entry>) -> Seq<Seq<char>>
    decreases entries.len(),
{
    if entries.len() == 0 {
        Seq::empty()
    } else {
        let before = file_names(entries.drop_last());
        match entries.last() {
            Entry::File { name, .. } => before.push(name@),
            _ => before,
        }
    }
}

/// The files of each folder of the card that a map of extensions names.
pub open spec fn card_index(
    map: Map<Seq<char>, Seq<char>>,
    listings: Seq<Seq<Seq<char>>>,
) -> Seq<(Seq<char>, Seq<Seq<char>>)> {
    Seq::new(folders(map).len(), |i: int| (folders(map)[i], listings[i]))
}

proof fn lemma_roms_concat(a: Seq<Leaf>, b: Seq<Leaf>, map: Map<Seq<char>, Seq<char>>)
    ensures
        roms_among(a + b, map) == roms_among(a, map) + roms_among(b, map),
    decreases b.len(),
{
    reveal(Seq::filter);
    let p = |leaf: Leaf| is_rom(leaf, map);
    let f = |leaf: Leaf| rom_of(leaf, map);
    if b.len() == 0 {
        assert(a + b =~= a);
        assert(roms_among(b, map) =~= Seq::empty());
        assert(roms_among(a, map) + roms_among(b, map) =~= roms_among(a, map));
    } else {
        lemma_roms_concat(a, b.drop_last(), map);
        assert((a + b).drop_last() =~= a + b.drop_last());
        assert((a + b).last() == b.last());
        if p(b.last()) {
            assert((a + b).filter(p) == (a + b.drop_last()).filter(p).push(b.last()));
            assert(b.filter(p) == b.drop_last().filter(p).push(b.last()));
            assert(roms_among(a + b, map) =~= roms_among(a + b.drop_last(), map).push(f(b.last())));
            assert(roms_among(b, map) =~= roms_among(b.drop_last(), map).push(f(b.last())));
            assert(roms_among(a + b, map) =~= roms_among(a, map) + roms_among(b, map));
        } else {
            assert((a + b).filter(p) == (a + b.drop_last()).filter(p));
            assert(b.filter(p) == b.drop_last().filter(p));
        }
    }
}

proof fn lemma_rom_single(leaf: Leaf, map: Map<Seq<char>, Seq<char>>)
    ensures
        is_rom(leaf, map) ==> roms_among(seq![leaf], map) == seq![rom_of(leaf, map)],
        !is_rom(leaf, map) ==> roms_among(seq![leaf], map) == Seq::<LocalRomView>::empty(),
{
    reveal(Seq::filter);
    let p = |l: Leaf| is_rom(l, map);
    assert(seq![leaf].drop_last() =~= Seq::empty());
    assert(seq![leaf].drop_last().filter(p) =~= Seq::empty());
    if is_rom(leaf, map) {
        assert(seq![leaf].filter(p) =~= seq![leaf]);
        assert(roms_among(seq![leaf], map) =~= seq![rom_of(leaf, map)]);
    } else {
        assert(seq![leaf].filter(p) =~= Seq::empty());
        assert(roms_among(seq![leaf], map) =~= Seq::<LocalRomView>::empty());
    }
}

proof fn lemma_first_named_concat(a: Seq<Leaf>, b: Seq<Leaf>, name: Seq<char>)
    ensures
        first_named(a + b, name) == match first_named(a, name) {
            Some(id) => Some(id),
            None => first_named(b, name),
        },
    decreases a.len(),
{
    if a.len() == 0 {
        assert(a + b =~= b);
    } else {
        assert((a + b)[0] == a[0]);
        assert((a + b).skip(1) =~= a.skip(1) + b);
        lemma_first_named_concat(a.skip(1), b, name);
    }
}

/// The extension of a file name.
pub fn extension_of(name: &str) -> (r: Option<String>)
    ensures
        r.deep_view() == extension(name@),
{
    if strings::equal(name, "..") {
        return None;
    }
    let chars = strings::chars_of(name);
    let n = chars.len();
    match strings::rfind(&chars, '.') {
        Some(i) => if i > 0 {
            assert(name@.subrange(i + 1, n as int) =~= name@.skip(i + 1));
            Some(strings::slice(name, i + 1, n))
        } else {
            None
        },
        None => None,
    }
}

/// The file of the library with that name and that extension in lower case, if some core takes
/// the extension.
pub fn rom_with_extension(name: &str, lower: String, ext_map: &StrMap<String>) -> (r: Option<LocalRom>)
    ensures
        r.deep_view() == rom_with(name@, lower@, ext_map.map()),
{
    match ext_map.get(lower.as_str()) {
        Some(folder) => Some(
            LocalRom { filename: name.to_owned(), extension: lower, dest_folder: folder.clone() },
        ),
        None => None,
    }
}

/// The files of the library that belong on the card, in the order of the walk.
pub fn scan_local_roms(entries: &Vec<Entry>, ext_map: &StrMap<String>) -> (r: Vec<LocalRom>)
    ensures
        r.deep_view() == roms_among(leaves(entries@), ext_map.map()),
{
    let mut roms: Vec<LocalRom> = Vec::new();
    scan_dir_recursive(entries, ext_map, &mut roms);
    assert(roms.deep_view() =~= roms_among(leaves(entries@), ext_map.map()));
    roms
}

/// Appends the files below a directory that belong on the card.
fn scan_dir_recursive(entries: &Vec<Entry>, ext_map: &StrMap<String>, roms: &mut Vec<LocalRom>)
    ensures
        final(roms).deep_view() == old(roms).deep_view() + roms_among(leaves(entries@), ext_map.map()),
    decreases entries@,
{
    let ghost map = ext_map.map();
    let ghost before = roms.deep_view();
    let mut i: usize = 0;
    assert(entries@.take(0) =~= Seq::empty());
    assert(roms_among(Seq::empty(), map) =~= Seq::empty());
    assert(before + roms_among(leaves(entries@.take(0)), map) =~= before);
    while i < entries.len()
        invariant
            i <= entries@.len(),
            map == ext_map.map(),
            roms.deep_view() == before + roms_among(leaves(entries@.take(i as int)), map),
        decreases entries@.len() - i,
    {
        let ghost so_far = leaves(entries@.take(i as int));
        let ghost now = roms.deep_view();
        assert(entries@.take(i + 1).drop_last() =~= entries@.take(i as int));
        assert(entries@.take(i + 1).last() == entries@[i as int]);
        match &entries[i] {
            Entry::Dir { entries: inner } => {
                assert(decreases_to!(entries@ => entries@[i as int]));
                scan_dir_recursive(inner, ext_map, roms);
                proof {
                    lemma_roms_concat(so_far, leaves(inner@), map);
                    assert(roms.deep_view() =~= before + roms_among(so_far + leaves(inner@), map));
                }
            },
            Entry::File { name, id } => {
                let ghost leaf = Leaf { name: name@, id: *id, is_file: true };
                proof {
                    lemma_roms_concat(so_far, seq![leaf], map);
                    lemma_rom_single(leaf, map);
                }
                let lower = match extension_of(name.as_str()) {
                    Some(extension) => extension.to_lowercase(),
                    None => String::new(),
                };
                assert(lower@ == extension_key(name@));
                if let Some(rom) = rom_with_extension(name.as_str(), lower, ext_map) {
                    roms.push(rom);
                    assert(roms.deep_view() =~= now.push(rom_of(leaf, map)));
                }
                assert(roms.deep_view() =~= before + roms_among(so_far + seq![leaf], map));
            },
            Entry::Other { name, id } => {
                let ghost leaf = Leaf { name: name@, id: *id, is_file: false };
                proof {
                    lemma_roms_concat(so_far, seq![leaf], map);
                    lemma_rom_single(leaf, map);
                }
                assert(roms.deep_view() =~= before + roms_among(so_far + seq![leaf], map));
            },
        }
        i += 1;
    }
    assert(entries@.take(i as int) =~= entries@);
}

/// The number of the first entry of that name below a directory that is no directory.
pub fn find_in_host(entries: &Vec<Entry>, filename: &str) -> (r: Option<usize>)
    ensures
        r == first_named(leaves(entries@), filename@),
    decreases entries@,
{
    let mut i: usize = 0;
    assert(entries@.take(0) =~= Seq::empty());
    while i < entries.len()
        invariant
            i <= entries@.len(),
            first_named(leaves(entries@.take(i as int)), filename@) is None,
        decreases entries@.len() - i,
    {
        let ghost so_far = leaves(entries@.take(i as int));
        assert(entries@.take(i + 1).drop_last() =~= entries@.take(i as int));
        assert(entries@.take(i + 1).last() == entries@[i as int]);
        proof {
            lemma_leaves_split(entries@, i + 1);
        }
        let ghost rest = leaves(entries@.skip(i + 1));
        match &entries[i] {
            Entry::Dir { entries: inner } => {
                assert(decreases_to!(entries@ => entries@[i as int]));
                proof {
                    lemma_first_named_concat(so_far, leaves(inner@), filename@);
                    lemma_first_named_concat(so_far + leaves(inner@), rest, filename@);
                }
                if let Some(id) = find_in_host(inner, filename) {
                    return Some(id);
                }
            },
            Entry::File { name, id } => {
                let ghost one = seq![Leaf { name: name@, id: *id, is_file: true }];
                proof {
                    lemma_first_named_concat(so_far, one, filename@);
                    lemma_first_named_concat(so_far + one, rest, filename@);
                    assert(one.skip(1) =~= Seq::empty());
                    assert(first_named(one.skip(1), filename@) is None);
                }
                if strings::equal(name.as_str(), filename) {
                    return Some(*id);
                }
            },
            Entry::Other { name, id } => {
                let ghost one = seq![Leaf { name: name@, id: *id, is_file: false }];
                proof {
                    lemma_first_named_concat(so_far, one, filename@);
                    lemma_first_named_concat(so_far + one, rest, filename@);
                    assert(one.skip(1) =~= Seq::empty());
                    assert(first_named(one.skip(1), filename@) is None);
                }
                if strings::equal(name.as_str(), filename) {
                    return Some(*id);
                }
            },
        }
        i += 1;
    }
    assert(entries@.take(i as int) =~= entries@);
    None
}

proof fn lemma_leaves_split(entries: Seq<Entry>, at: int)
    requires
        0 <= at <= entries.len(),
    ensures
        leaves(entries) == leaves(entries.take(at)) + leaves(entries.skip(at)),
    decreases entries.len() - at,
{
    if at == entries.len() {
        assert(entries.take(at) =~= entries);
        assert(entries.skip(at) =~= Seq::empty());
        assert(leaves(entries) + leaves(entries.skip(at)) =~= leaves(entries));
    } else {
        let shorter = entries.drop_last();
        lemma_leaves_split(shorter, at);
        assert(shorter.take(at) =~= entries.take(at));
        assert(shorter.skip(at) =~= entries.skip(at).drop_last());
        assert(entries.skip(at).last() == entries.last());
        assert(leaves(entries) =~= leaves(entries.take(at)) + leaves(entries.skip(at)));
    }
}

fn names_of_files(entries: &Vec<Entry>) -> (r: Vec<String>)
    ensures
        r.deep_view() == file_names(entries@),
{
    let mut names: Vec<String> = Vec::new();
    let mut i: usize = 0;
    assert(entries@.take(0) =~= Seq::empty());
    assert(names.deep_view() =~= Seq::empty());
    while i < entries.len()
        invariant
            i <= entries@.len(),
            names.deep_view() == file_names(entries@.take(i as int)),
        decreases entries@.len() - i,
    {
        let ghost before = names.deep_view();
        assert(entries@.take(i + 1).drop_last() =~= entries@.take(i as int));
        assert(entries@.take(i + 1).last() == entries@[i as int]);
        if let Entry::File { name, .. } = &entries[i] {
            names.push(name.clone());
            assert(names.deep_view() =~= before.push(name@));
        }
        i += 1;
    }
    assert(entries@.take(i as int) =~= entries@);
    names
}

/// The names of the files in each listing.
pub open spec fn names_in(listings: Seq<Vec<Entry>>) -> Seq<Seq<Seq<char>>> {
    listings.map_values(|entries: Vec<Entry>| file_names(entries@))
}

/// The files of each folder of the card that a map of extensions names; the folders come in
/// ascending order, and there is one listing for each.
pub fn index_sd_card(ext_map: &StrMap<String>, listings: &Vec<Vec<Entry>>) -> (r: StrMap<Vec<String>>)
    requires
        listings@.len() == folders(ext_map.map()).len(),
    ensures
        r.entries() == card_index(ext_map.map(), names_in(listings@)),
{
    let listed = card_folders(ext_map);
    let mut index: StrMap<Vec<String>> = StrMap::new();
    let ghost all = card_index(ext_map.map(), names_in(listings@));
    let ghost names = listed.deep_view();
    let mut i: usize = 0;
    while i < listed.len()
        invariant
            i <= listed@.len() == listings@.len() == all.len(),
            names == listed.deep_view(),
            names == folders(ext_map.map()),
            text::ascending(names),
            all == card_index(ext_map.map(), names_in(listings@)),
            index.entries() == all.take(i as int),
        decreases listed@.len() - i,
    {
        let ghost before = index.entries();
        assert(!has_key(before, names[i as int])) by {
            if has_key(before, names[i as int]) {
                let j = choose|j: int| 0 <= j < before.len() && (#[trigger] before[j]).0 == names[i as int];
                assert(all[j].0 == names[j]);
                assert(text::precedes(names[j], names[i as int]));
                text::lemma_precedes_irreflexive(names[j]);
            }
        }
        let files = names_of_files(&listings[i]);
        index.insert(listed[i].clone(), files);
        assert(all[i as int] == (names[i as int], file_names(listings@[i as int]@)));
        assert(index.entries() =~= all.take(i + 1));
        i += 1;
    }
    assert(index.entries() =~= all);
    index
}

} // verus!
