//! The cores on the card: which file extensions they take, and in which folders.
use vstd::prelude::*;

use crate::json::{self, DataSlot, DataSlotView};
use crate::strmap::{distinct_keys, has_key, lemma_entry_in_map, value_of, StrMap};
use crate::{strings, text};

verus! {

/// A core: the name of its directory and the text of its `data.json`.
#[derive(Debug, PartialEq, Eq)]
pub struct CoreFile {
    pub name: String,
    pub data: String,
}

pub struct CoreFileView {
    pub name: Seq<char>,
    pub data: Seq<char>,
}

impl DeepView for CoreFile {
    type V = CoreFileView;

    open spec fn deep_view(&self) -> CoreFileView {
        CoreFileView { name: self.name@, data: self.data@ }
    }
}

/// The folder of the card for each file extension, in lower case.
pub type ExtMap = Map<Seq<char>, Seq<char>>;

/// The user fills the slot: neither bit 1 nor bit 2 of its parameters is set.
pub open spec fn user_filled(parameters: Option<u64>) -> bool {
    let bits = match parameters {
        Some(bits) => bits,
        None => 0,
    };
    bits & 0x4 == 0 && bits & 0x2 == 0
}

/// The platform that a slot's file name gives: the second part of a path of at least three parts
/// that begins with `Assets`.
pub open spec fn path_platform(filename: Option<Seq<char>>) -> Option<Seq<char>> {
    match filename {
        Some(path) => {
            let parts = text::split(path, '/');
            if parts.len() >= 3 && parts[0] == "Assets"@ {
                Some(parts[1])
            } else {
                None
            }
        },
        None => None,
    }
}

/// The platform of a slot: the one that its file name gives, and else the last part of the core's
/// name, in lower case.
pub open spec fn slot_platform(filename: Option<Seq<char>>, core_name: Seq<char>) -> Seq<char> {
    match path_platform(filename) {
        Some(platform) => platform,
        None => text::lowercase(text::after_last(core_name, '.')),
    }
}

/// The folder of the card in which a platform keeps its files.
pub open spec fn platform_folder(platform: Seq<char>) -> Seq<char> {
    "Assets/"@ + platform + "/common"@
}

/// The map after each extension of a list got the folder, in order.
pub open spec fn with_extensions(
    map: ExtMap,
    extensions: Seq<Option<Seq<char>>>,
    folder: Seq<char>,
) -> ExtMap
    decreases extensions.len(),
{
    if extensions.len() == 0 {
        map
    } else {
        let before = with_extensions(map, extensions.drop_last(), folder);
        match extensions.last() {
            Some(extension) => before.insert(text::lowercase(extension), folder),
            None => before,
        }
    }
}

/// The map after a slot of a core was taken in.
pub open spec fn with_slot(map: ExtMap, slot: DataSlotView, core_name: Seq<char>) -> ExtMap {
    match slot.extensions {
        Some(extensions) => if user_filled(slot.parameters) {
            with_extensions(
                map,
                extensions,
                platform_folder(slot_platform(slot.filename, core_name)),
            )
        } else {
            map
        },
        None => map,
    }
}

/// The map after the slots of a core were taken in, in order.
pub open spec fn with_slots(
    map: ExtMap,
    slots: Seq<DataSlotView>,
    core_name: Seq<char>,
) -> ExtMap
    decreases slots.len(),
{
    if slots.len() == 0 {
        map
    } else {
        with_slot(with_slots(map, slots.drop_last(), core_name), slots.last(), core_name)
    }
}

/// The map that the cores make up, taken in in order.
pub open spec fn core_extensions(cores: Seq<CoreFileView>) -> ExtMap
    decreases cores.len(),
{
    if cores.len() == 0 {
        Map::empty()
    } else {
        let before = core_extensions(cores.drop_last());
        match json::slots_in(cores.last().data) {
            Some(slots) => with_slots(before, slots, cores.last().name),
            None => before,
        }
    }
}

/// The platform that a folder of the card belongs to: the second part of its path.
pub open spec fn folder_platform(folder: Seq<char>) -> Seq<char> {
    let parts = text::split(folder, '/');
    if parts.len() > 1 {
        parts[1]
    } else {
        "unknown"@
    }
}

/// The folders of the card that a map of extensions names, in ascending order.
pub open spec fn folders(map: ExtMap) -> Seq<Seq<char>> {
    text::in_order(map.values())
}

/// The platforms that a map of extensions names, in ascending order.
pub open spec fn platforms(map: ExtMap) -> Seq<Seq<char>> {
    text::in_order(map.values().map(|folder: Seq<char>| folder_platform(folder)))
}

/// The platform that a slot's file name gives.
pub fn platform_of_path(filename: &Option<String>) -> (r: Option<String>)
    ensures
        r.deep_view() == path_platform(filename.deep_view()),
{
    if let Some(path) = filename {
        let parts = strings::split(path.as_str(), '/');
        let ghost views = parts.deep_view();
        if parts.len() >= 3 && strings::equal(parts[0].as_str(), "Assets") {
            assert(views[0] == "Assets"@);
            assert(parts@[1]@ == views[1]);
            return Some(parts[1].clone());
        }
        assert(views.len() >= 3 ==> views[0] == parts@[0]@);
    }
    None
}

/// Takes in one slot of a core.
fn add_slot(map: &mut StrMap<String>, slot: &DataSlot, core_name: &str)
    ensures
        final(map).map() == with_slot(old(map).map(), slot.deep_view(), core_name@),
{
    let bits: u64 = match slot.parameters {
        Some(bits) => bits,
        None => 0,
    };
    if bits & 0x4 != 0 || bits & 0x2 != 0 {
        return;
    }
    let extensions = match &slot.extensions {
        Some(extensions) => extensions,
        None => {
            return;
        },
    };
    let platform = match platform_of_path(&slot.filename) {
        Some(platform) => platform,
        None => strings::after_last(core_name, '.').to_lowercase(),
    };
    let folder = strings::concat(strings::concat("Assets/", platform.as_str()).as_str(), "/common");
    let ghost all = extensions.deep_view();
    let ghost before = map.map();
    let mut i: usize = 0;
    assert(all.take(0) =~= Seq::empty());
    while i < extensions.len()
        invariant
            i <= extensions@.len(),
            all == extensions.deep_view(),
            map.map() == with_extensions(before, all.take(i as int), folder@),
        decreases extensions@.len() - i,
    {
        assert(all.take(i + 1).drop_last() =~= all.take(i as int));
        assert(all.take(i + 1).last() == extensions@[i as int].deep_view());
        if let Some(extension) = &extensions[i] {
            map.insert(extension.to_lowercase(), folder.clone());
        }
        i += 1;
    }
    assert(all.take(i as int) =~= all);
}

/// Takes in the slots of a core.
pub fn add_slots(map: &mut StrMap<String>, slots: &Vec<DataSlot>, core_name: &str)
    ensures
        final(map).map() == with_slots(old(map).map(), slots.deep_view(), core_name@),
{
    let ghost all = slots.deep_view();
    let ghost before = map.map();
    let mut i: usize = 0;
    assert(all.take(0) =~= Seq::empty());
    while i < slots.len()
        invariant
            i <= slots@.len(),
            all == slots.deep_view(),
            map.map() == with_slots(before, all.take(i as int), core_name@),
        decreases slots@.len() - i,
    {
        assert(all.take(i + 1).drop_last() =~= all.take(i as int));
        assert(all.take(i + 1).last() == slots@[i as int].deep_view());
        add_slot(map, &slots[i], core_name);
        i += 1;
    }
    assert(all.take(i as int) =~= all);
}

/// The folder of the card for each file extension that the cores take.
pub fn discover_core_extensions(cores: &Vec<CoreFile>) -> (r: StrMap<String>)
    ensures
        r.map() == core_extensions(cores.deep_view()),
{
    let mut map: StrMap<String> = StrMap::new();
    let ghost all = cores.deep_view();
    let mut i: usize = 0;
    assert(all.take(0) =~= Seq::empty());
    while i < cores.len()
        invariant
            i <= cores@.len(),
            all == cores.deep_view(),
            map.map() == core_extensions(all.take(i as int)),
        decreases cores@.len() - i,
    {
        assert(all.take(i + 1).drop_last() =~= all.take(i as int));
        assert(all.take(i + 1).last() == cores@[i as int].deep_view());
        if let Some(slots) = json::read_slots(cores[i].data.as_str()) {
            add_slots(&mut map, &slots, cores[i].name.as_str());
        }
        i += 1;
    }
    assert(all.take(i as int) =~= all);
    map
}

/// The values of a map of texts, in the order of its entries.
fn values(map: &StrMap<String>) -> (r: Vec<String>)
    ensures
        r.deep_view().to_set() == map.map().values(),
{
    let mut out: Vec<String> = Vec::new();
    let mut i: usize = 0;
    let ghost entries = map.entries();
    while i < map.len()
        invariant
            i <= entries.len(),
            entries == map.entries(),
            i > 0 ==> distinct_keys(entries),
            out@.len() == i,
            forall|j: int| 0 <= j < i ==> (#[trigger] out@[j])@ == entries[j].1,
        decreases entries.len() - i,
    {
        out.push(map.entry(i).1.clone());
        i += 1;
    }
    assert(out.deep_view().to_set() =~= map.map().values()) by {
        let listed = out.deep_view();
        assert forall|x: Seq<char>| listed.contains(x) == map.map().values().contains(x) by {
            if listed.contains(x) {
                let j = choose|j: int| 0 <= j < listed.len() && listed[j] == x;
                assert(out@[j]@ == entries[j].1);
                lemma_entry_in_map(entries, j);
                assert(map.map().dom().contains(entries[j].0));
            }
            if map.map().values().contains(x) {
                let key = choose|key: Seq<char>| #[trigger] map.map().dom().contains(key) && map.map()[key] == x;
                assert(has_key(entries, key));
                let j = choose|j: int| 0 <= j < entries.len() && (#[trigger] entries[j]).0 == key;
                assert(value_of(entries, key) == x);
                assert(out@[j]@ == x);
                assert(listed[j] == x);
            }
        }
    }
    out
}

/// The folders of the card that a map of extensions names, in ascending order, each once.
pub fn card_folders(ext_map: &StrMap<String>) -> (r: Vec<String>)
    ensures
        r.deep_view() == folders(ext_map.map()),
        text::ascending(r.deep_view()),
        r.deep_view().to_set() == ext_map.map().values(),
{
    strings::sorted(&values(ext_map))
}

/// The platforms that a map of extensions names, in ascending order, each once.
pub fn platforms_from_ext_map(ext_map: &StrMap<String>) -> (r: Vec<String>)
    ensures
        r.deep_view() == platforms(ext_map.map()),
        text::ascending(r.deep_view()),
        r.deep_view().to_set() == ext_map.map().values().map(
            |folder: Seq<char>| folder_platform(folder),
        ),
{
    let listed = values(ext_map);
    let mut out: Vec<String> = Vec::new();
    let mut i: usize = 0;
    while i < listed.len()
        invariant
            i <= listed@.len(),
            out@.len() == i,
            forall|j: int| 0 <= j < i ==> (#[trigger] out@[j])@ == folder_platform(listed@[j]@),
        decreases listed@.len() - i,
    {
        let parts = strings::split(listed[i].as_str(), '/');
        let ghost views = parts.deep_view();
        if parts.len() > 1 {
            assert(parts@[1]@ == views[1]);
            out.push(parts[1].clone());
        } else {
            out.push("unknown".to_owned());
        }
        i += 1;
    }
    proof {
        let f = |folder: Seq<char>| folder_platform(folder);
        let sources = listed.deep_view();
        let named = out.deep_view();
        assert(named.to_set() =~= ext_map.map().values().map(f)) by {
            assert forall|x: Seq<char>| named.contains(x) == ext_map.map().values().map(f).contains(x) by {
                if named.contains(x) {
                    let j = choose|j: int| 0 <= j < named.len() && named[j] == x;
                    assert(out@[j]@ == folder_platform(listed@[j]@));
                    assert(sources[j] == listed@[j]@);
                    assert(sources.to_set().contains(sources[j]));
                    assert(f(sources[j]) == x);
                }
                if ext_map.map().values().map(f).contains(x) {
                    let v = choose|v: Seq<char>| ext_map.map().values().contains(v) && f(v) == x;
                    assert(sources.to_set().contains(v));
                    assert(sources.contains(v));
                    let j = choose|j: int| 0 <= j < sources.len() && sources[j] == v;
                    assert(out@[j]@ == x);
                    assert(named[j] == x);
                }
            }
        }
    }
    strings::sorted(&out)
}

} // verus!
