//! Laws of the folders of the card, from the cores that name them to the files that go there.
use vstd::prelude::*;

use crate::cores::{
    core_extensions, folder_platform, folders, platform_folder, platforms, slot_platform,
    with_extensions, with_slots, CoreFileView, ExtMap,
};
use crate::json::{slots_in, DataSlotView};
use crate::library::{card_index, extension_key, is_rom, rom_of, roms_among, Leaf};
use crate::plan::is_selected;
use crate::strmap::has_key;
use crate::text;

verus! {

/// Every folder of the map is that of some platform, and the map is finite.
pub open spec fn names_platform_folders(map: ExtMap) -> bool {
    &&& map.dom().finite()
    &&& forall|key: Seq<char>|
        #[trigger] map.dom().contains(key) ==> exists|p: Seq<char>| map[key] == platform_folder(p)
}

proof fn lemma_extensions(map: ExtMap, extensions: Seq<Option<Seq<char>>>, platform: Seq<char>)
    requires
        names_platform_folders(map),
    ensures
        names_platform_folders(with_extensions(map, extensions, platform_folder(platform))),
    decreases extensions.len(),
{
    if extensions.len() > 0 {
        lemma_extensions(map, extensions.drop_last(), platform);
    }
}

proof fn lemma_slots(map: ExtMap, slots: Seq<DataSlotView>, core_name: Seq<char>)
    requires
        names_platform_folders(map),
    ensures
        names_platform_folders(with_slots(map, slots, core_name)),
    decreases slots.len(),
{
    if slots.len() > 0 {
        lemma_slots(map, slots.drop_last(), core_name);
        let before = with_slots(map, slots.drop_last(), core_name);
        let slot = slots.last();
        if let Some(extensions) = slot.extensions {
            lemma_extensions(before, extensions, slot_platform(slot.filename, core_name));
        }
    }
}

/// Whatever the cores say, each file extension goes to `Assets/`, a platform and `/common`.
pub proof fn law_extensions_go_to_platform_folders(cores: Seq<CoreFileView>)
    ensures
        names_platform_folders(core_extensions(cores)),
    decreases cores.len(),
{
    if cores.len() > 0 {
        law_extensions_go_to_platform_folders(cores.drop_last());
        if let Some(slots) = slots_in(cores.last().data) {
            lemma_slots(core_extensions(cores.drop_last()), slots, cores.last().name);
        }
    }
}

/// No part of a split text holds the separator.
pub proof fn law_parts_hold_no_separator(chars: Seq<char>, c: char)
    ensures
        forall|i: int| 0 <= i < text::split(chars, c).len() ==> !(#[trigger] text::split(chars, c)[i]).contains(c),
    decreases chars.len(),
{
    chars.index_of_first_ensures(c);
    if let Some(i) = chars.index_of_first(c) {
        let rest = text::split(chars.skip(i + 1), c);
        law_parts_hold_no_separator(chars.skip(i + 1), c);
        assert(!chars.take(i).contains(c));
        assert forall|k: int| 0 <= k < text::split(chars, c).len() implies !(#[trigger] text::split(chars, c)[k]).contains(c) by {
            if k > 0 {
                assert(text::split(chars, c)[k] == rest[k - 1]);
            }
        }
    }
}

/// The platform of a platform's folder is the platform, if its name holds no slash.
pub proof fn law_platform_of_its_folder(platform: Seq<char>)
    requires
        !platform.contains('/'),
    ensures
        folder_platform(platform_folder(platform)) == platform,
{
    reveal_strlit("Assets/");
    reveal_strlit("/common");
    let folder = platform_folder(platform);
    assert(folder[6] == '/');
    assert forall|j: int| 0 <= j < 6 implies folder[j] != '/' by {
        assert(folder[j] == "Assets/"@[j]);
    }
    text::lemma_first_index(folder, '/', 6);
    let rest = folder.skip(7);
    let n = platform.len() as int;
    assert(rest =~= platform + "/common"@);
    assert forall|j: int| 0 <= j < n implies rest[j] != '/' by {
        assert(rest[j] == platform[j]);
    }
    assert(rest[n] == '/');
    text::lemma_first_index(rest, '/', n);
    assert(rest.take(n) =~= platform);
    assert(text::split(folder, '/')[1] == text::split(rest, '/')[0]);
}

/// The name of the platform of a folder stands in the folder's path, if that has a slash.
pub proof fn law_platform_stands_in_folder(folder: Seq<char>)
    requires
        folder.contains('/'),
    ensures
        text::contains(folder, folder_platform(folder)),
{
    folder.index_of_first_ensures('/');
    let i = folder.index_of_first('/')->0;
    let rest = folder.skip(i + 1);
    rest.index_of_first_ensures('/');
    let part = text::split(rest, '/')[0];
    assert(text::split(folder, '/')[1] == part);
    match rest.index_of_first('/') {
        Some(k) => {
            assert(part == rest.take(k));
            assert(folder.subrange(i + 1, i + 1 + part.len()) =~= part);
        },
        None => {
            assert(part == rest);
            assert(folder.subrange(i + 1, i + 1 + part.len()) =~= part);
        },
    }
    assert(text::occurs_at(folder, part, i + 1));
}

/// A platform that is selected takes its folder in.
pub proof fn law_selected_platform_takes_its_folder(platform: Seq<char>, selected: Seq<Seq<char>>)
    requires
        selected.contains(platform),
    ensures
        is_selected(platform_folder(platform), selected),
{
    reveal_strlit("Assets/");
    let folder = platform_folder(platform);
    assert(folder.subrange(7, 7int + platform.len()) =~= platform);
    assert(text::occurs_at(folder, platform, 7));
    let i = choose|i: int| 0 <= i < selected.len() && selected[i] == platform;
    assert(text::contains(folder, selected[i]));
}

proof fn lemma_values_finite(map: ExtMap)
    requires
        map.dom().finite(),
    ensures
        map.values().finite(),
        folders(map).to_set() == map.values(),
        text::ascending(folders(map)),
        platforms(map).to_set() == map.values().map(|f: Seq<char>| folder_platform(f)),
{
    vstd::map_lib::lemma_values_finite(map);
    text::lemma_in_order_exists(map.values());
    let f = |folder: Seq<char>| folder_platform(folder);
    map.values().lemma_map_finite(f);
    text::lemma_in_order_exists(map.values().map(f));
}

proof fn lemma_rom_among(found: Seq<Leaf>, map: ExtMap, i: int)
    requires
        0 <= i < roms_among(found, map).len(),
    ensures
        map.values().contains(roms_among(found, map)[i].dest_folder),
{
    let p = |leaf: Leaf| is_rom(leaf, map);
    let kept = found.filter(p);
    found.lemma_filter_pred(p, i);
    assert(p(kept[i]));
    assert(roms_among(found, map)[i] == rom_of(kept[i], map));
    let key = extension_key(kept[i].name);
    assert(map.dom().contains(key));
    assert(map.contains_value(map[key]));
}

/// A file of the library goes to a folder of the card that is listed for the plan, so the card
/// is asked whether it has the file.
pub proof fn law_scanned_files_go_to_listed_folders(
    found: Seq<Leaf>,
    map: ExtMap,
    listings: Seq<Seq<Seq<char>>>,
    i: int,
)
    requires
        map.dom().finite(),
        0 <= i < roms_among(found, map).len(),
    ensures
        folders(map).contains(roms_among(found, map)[i].dest_folder),
        has_key(card_index(map, listings), roms_among(found, map)[i].dest_folder),
{
    lemma_rom_among(found, map, i);
    lemma_values_finite(map);
    let folder = roms_among(found, map)[i].dest_folder;
    assert(folders(map).to_set().contains(folder));
    let k = choose|k: int| 0 <= k < folders(map).len() && folders(map)[k] == folder;
    assert(card_index(map, listings)[k].0 == folder);
}

/// With all platforms selected, every file of the library that a core takes is selected.
pub proof fn law_all_platforms_take_every_file(cores: Seq<CoreFileView>, found: Seq<Leaf>, i: int)
    requires
        0 <= i < roms_among(found, core_extensions(cores)).len(),
    ensures
        is_selected(
            roms_among(found, core_extensions(cores))[i].dest_folder,
            platforms(core_extensions(cores)),
        ),
{
    let map = core_extensions(cores);
    law_extensions_go_to_platform_folders(cores);
    lemma_rom_among(found, map, i);
    lemma_values_finite(map);
    let folder = roms_among(found, map)[i].dest_folder;
    let key = choose|key: Seq<char>| #[trigger] map.dom().contains(key) && map[key] == folder;
    let p = choose|p: Seq<char>| map[key] == platform_folder(p);
    assert(folder.contains('/')) by {
        reveal_strlit("Assets/");
        assert(folder[6] == '/');
    }
    law_platform_stands_in_folder(folder);
    let f = |x: Seq<char>| folder_platform(x);
    assert(f(folder) == folder_platform(folder));
    assert(map.values().map(f).contains(folder_platform(folder)));
    let names = platforms(map);
    assert(names.to_set().contains(folder_platform(folder)));
    assert(names.contains(folder_platform(folder)));
    let k = choose|k: int| 0 <= k < names.len() && names[k] == folder_platform(folder);
    assert(text::contains(folder, names[k]));
}

} // verus!
