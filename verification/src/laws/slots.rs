//! Laws of the cores: which slots of which cores say where a file extension goes.
use vstd::prelude::*;

use crate::cores::{
    core_extensions, folder_platform, folders, path_platform, platform_folder, platforms,
    slot_platform, user_filled, with_extensions, with_slot, with_slots, CoreFileView, ExtMap,
};
use crate::json::{json_document, slots_in, DataSlotView, Json};
use crate::laws::texts::{
    between, law_parted_at_the_last, law_split_part_by_part, law_texts_in_order,
};
use crate::text;

verus! {

/// What stands under a key of an object.
pub open spec fn under(json: Json, key: Seq<char>, value: Json) -> bool {
    match json {
        Json::Object(members) => members.dom().contains(key) && members[key] == value,
        _ => false,
    }
}

/// Nothing stands under a key: there is no object, or none with that key.
pub open spec fn nothing_under(json: Json, key: Seq<char>) -> bool {
    match json {
        Json::Object(members) => !members.dom().contains(key),
        _ => true,
    }
}

/// A document lists its slots under `data` and `data_slots`, one for each item, in order.
pub proof fn law_slots_of_a_document(chars: Seq<char>, document: Json, data: Json, items: Seq<Json>)
    requires
        json_document(chars) == Some(document),
        under(document, "data"@, data),
        under(data, "data_slots"@, Json::List(items)),
    ensures
        slots_in(chars) is Some,
        slots_in(chars)->0.len() == items.len(),
        forall|k: int, value: Json|
            0 <= k < items.len() && #[trigger] under(items[k], "parameters"@, value)
                ==> slots_in(chars)->0[k].parameters == match value {
                Json::Number(n) => n,
                _ => None,
            },
        forall|k: int, value: Json|
            0 <= k < items.len() && #[trigger] under(items[k], "filename"@, value)
                ==> slots_in(chars)->0[k].filename == match value {
                Json::Text(path) => Some(path),
                _ => None,
            },
        forall|k: int, value: Json|
            0 <= k < items.len() && #[trigger] under(items[k], "extensions"@, value)
                ==> match value {
                Json::List(list) => {
                    &&& slots_in(chars)->0[k].extensions is Some
                    &&& slots_in(chars)->0[k].extensions->0.len() == list.len()
                    &&& forall|x: int|
                        0 <= x < list.len() ==> #[trigger] slots_in(chars)->0[k].extensions->0[x]
                            == match list[x] {
                            Json::Text(extension) => Some(extension),
                            _ => None,
                        }
                },
                _ => slots_in(chars)->0[k].extensions is None,
            },
        forall|k: int|
            0 <= k < items.len() ==> {
                let slot = #[trigger] slots_in(chars)->0[k];
                &&& nothing_under(items[k], "parameters"@) ==> slot.parameters is None
                &&& nothing_under(items[k], "filename"@) ==> slot.filename is None
                &&& nothing_under(items[k], "extensions"@) ==> slot.extensions is None
            },
{
}

/// A text that is no document, or one that has no list under `data` and `data_slots`, has no slots.
pub proof fn law_other_documents_have_no_slots(chars: Seq<char>)
    ensures
        json_document(chars) is None ==> slots_in(chars) is None,
        forall|document: Json|
            json_document(chars) == Some(document) && #[trigger] nothing_under(document, "data"@)
                ==> slots_in(chars) is None,
        forall|document: Json, data: Json|
            json_document(chars) == Some(document) && #[trigger] under(document, "data"@, data)
                && nothing_under(data, "data_slots"@) ==> slots_in(chars) is None,
        forall|document: Json, data: Json, value: Json|
            json_document(chars) == Some(document) && #[trigger] under(document, "data"@, data)
                && #[trigger] under(data, "data_slots"@, value) && !(value is List) ==> slots_in(chars) is None,
{
}

/// The bits that a slot has; none where it does not say.
pub open spec fn bits_of(parameters: Option<u64>) -> u64 {
    match parameters {
        Some(bits) => bits,
        None => 0,
    }
}

/// The user fills a slot if and only if bit 1 and bit 2 of its parameters are clear.
pub proof fn law_which_slots_the_user_fills(parameters: Option<u64>)
    ensures
        user_filled(parameters) == ((bits_of(parameters) / 2) % 2 == 0 && (bits_of(parameters) / 4) % 2 == 0),
{
    let bits = bits_of(parameters);
    assert((bits & 0x2 == 0) == ((bits / 2) % 2 == 0)) by (bit_vector);
    assert((bits & 0x4 == 0) == ((bits / 4) % 2 == 0)) by (bit_vector);
}

/// A path of `Assets`, a platform and something more.
pub open spec fn asset_path(platform: Seq<char>, rest: Seq<char>) -> Seq<char> {
    "Assets/"@ + platform + seq!['/'] + rest
}

/// A file name gives a platform if and only if it is a path of `Assets`, the platform and
/// something more.
pub proof fn law_platform_of_a_path(path: Seq<char>, platform: Seq<char>)
    ensures
        path_platform(None) is None,
        (path_platform(Some(path)) == Some(platform)) == (!platform.contains('/')
            && exists|rest: Seq<char>| path == #[trigger] asset_path(platform, rest)),
{
    reveal_strlit("Assets/");
    reveal_strlit("Assets");
    if !platform.contains('/') && exists|rest: Seq<char>| path == #[trigger] asset_path(platform, rest) {
        let rest = choose|rest: Seq<char>| path == #[trigger] asset_path(platform, rest);
        let behind = between(platform, seq!['/'], rest);
        assert(!"Assets"@.contains('/'));
        assert(path =~= between("Assets"@, seq!['/'], behind));
        law_split_part_by_part("Assets"@, '/', behind);
        law_split_part_by_part(platform, '/', rest);
        let more = text::split(rest, '/');
        lemma_some_part(rest);
        assert(text::split(path, '/') == seq!["Assets"@] + (seq![platform] + more));
        assert(text::split(path, '/')[0] == "Assets"@);
        assert(text::split(path, '/')[1] == platform);
    }
    if path_platform(Some(path)) == Some(platform) {
        let parts = text::split(path, '/');
        path.index_of_first_ensures('/');
        let i = path.index_of_first('/')->0;
        let behind = path.skip(i + 1);
        assert(parts == seq![path.take(i)] + text::split(behind, '/'));
        assert(parts[0] == path.take(i));
        assert(parts[1] == text::split(behind, '/')[0]);
        behind.index_of_first_ensures('/');
        let k = behind.index_of_first('/')->0;
        let rest = behind.skip(k + 1);
        assert(text::split(behind, '/') == seq![behind.take(k)] + text::split(rest, '/'));
        assert(platform == behind.take(k));
        assert(!platform.contains('/'));
        assert(path =~= path.take(i) + seq!['/'] + behind);
        assert(behind =~= platform + seq!['/'] + rest);
        assert("Assets/"@ =~= "Assets"@ + seq!['/']);
        assert(path =~= asset_path(platform, rest));
    }
}

proof fn lemma_some_part(chars: Seq<char>)
    ensures
        text::split(chars, '/').len() > 0,
{
}

/// Where a slot's file name gives no platform, the last part of the core's name does, in lower
/// case.
pub proof fn law_platform_of_a_slot(
    filename: Option<Seq<char>>,
    author: Seq<char>,
    name: Seq<char>,
)
    requires
        !name.contains('.'),
    ensures
        match path_platform(filename) {
            Some(platform) => forall|core_name: Seq<char>| slot_platform(filename, core_name) == platform,
            None => {
                &&& slot_platform(filename, between(author, seq!['.'], name)) == text::lowercase(name)
                &&& slot_platform(filename, name) == text::lowercase(name)
            },
        },
{
    law_parted_at_the_last(author, '.', name);
}

/// A slot of a core lists, at that place, an extension with this lower-case form, and the user
/// fills the slot.
pub open spec fn takes(cores: Seq<CoreFileView>, c: int, k: int, x: int, key: Seq<char>) -> bool {
    &&& 0 <= c < cores.len()
    &&& slots_in(cores[c].data) is Some
    &&& slot_takes(slots_in(cores[c].data)->0, k, x, key)
}

/// A slot of a list has, at that place, an extension with this lower-case form, and the user fills
/// the slot.
pub open spec fn slot_takes(slots: Seq<DataSlotView>, k: int, x: int, key: Seq<char>) -> bool {
    &&& 0 <= k < slots.len()
    &&& (bits_of(slots[k].parameters) / 2) % 2 == 0
    &&& (bits_of(slots[k].parameters) / 4) % 2 == 0
    &&& slots[k].extensions is Some
    &&& 0 <= x < slots[k].extensions->0.len()
    &&& slots[k].extensions->0[x] is Some
    &&& text::lowercase(slots[k].extensions->0[x]->0) == key
}

/// The folder to which a slot of a core sends its files.
pub open spec fn folder_of_slot(cores: Seq<CoreFileView>, c: int, k: int) -> Seq<char> {
    "Assets/"@ + slot_platform(slots_in(cores[c].data)->0[k].filename, cores[c].name) + "/common"@
}

spec fn extension_at(extensions: Seq<Option<Seq<char>>>, x: int, key: Seq<char>) -> bool {
    0 <= x < extensions.len() && extensions[x] is Some && text::lowercase(extensions[x]->0) == key
}

proof fn lemma_with_extensions(
    map: ExtMap,
    extensions: Seq<Option<Seq<char>>>,
    folder: Seq<char>,
    key: Seq<char>,
)
    ensures
        ({
            let after = with_extensions(map, extensions, folder);
            let listed = exists|x: int| extension_at(extensions, x, key);
            &&& after.dom().contains(key) == (map.dom().contains(key) || listed)
            &&& listed ==> after[key] == folder
            &&& !listed && map.dom().contains(key) ==> after[key] == map[key]
        }),
    decreases extensions.len(),
{
    if extensions.len() > 0 {
        let front = extensions.drop_last();
        let n = front.len() as int;
        lemma_with_extensions(map, front, folder, key);
        assert forall|x: int| extension_at(front, x, key) implies extension_at(extensions, x, key) by {}
        assert forall|x: int| extension_at(extensions, x, key) && x < n implies extension_at(front, x, key) by {}
        assert(extensions[n] == extensions.last());
        if extensions.last() is Some && text::lowercase(extensions.last()->0) == key {
            assert(extension_at(extensions, n, key));
        }
    }
}

proof fn lemma_with_slot(map: ExtMap, slots: Seq<DataSlotView>, k: int, core_name: Seq<char>, key: Seq<char>)
    requires
        0 <= k < slots.len(),
    ensures
        ({
            let after = with_slot(map, slots[k], core_name);
            let listed = listed_by(slots, k, key);
            &&& after.dom().contains(key) == (map.dom().contains(key) || listed)
            &&& listed ==> after[key] == platform_folder(slot_platform(slots[k].filename, core_name))
            &&& !listed && map.dom().contains(key) ==> after[key] == map[key]
        }),
{
    let slot = slots[k];
    law_which_slots_the_user_fills(slot.parameters);
    if let Some(extensions) = slot.extensions {
        lemma_with_extensions(
            map,
            extensions,
            platform_folder(slot_platform(slot.filename, core_name)),
            key,
        );
        if user_filled(slot.parameters) {
            assert forall|x: int| extension_at(extensions, x, key) implies slot_takes(slots, k, x, key) by {}
            assert forall|x: int| slot_takes(slots, k, x, key) implies extension_at(extensions, x, key) by {}
            if exists|x: int| extension_at(extensions, x, key) {
                let x = choose|x: int| extension_at(extensions, x, key);
                assert(slot_takes(slots, k, x, key));
            }
            if exists|x: int| slot_takes(slots, k, x, key) {
                let x = choose|x: int| slot_takes(slots, k, x, key);
                assert(extension_at(extensions, x, key));
            }
        } else {
            assert(forall|x: int| !slot_takes(slots, k, x, key));
        }
    } else {
        assert(forall|x: int| !slot_takes(slots, k, x, key));
    }
}

/// The slot at that place lists the extension.
spec fn listed_by(slots: Seq<DataSlotView>, k: int, key: Seq<char>) -> bool {
    exists|x: int| slot_takes(slots, k, x, key)
}

/// Some slot that the user fills lists the extension.
pub open spec fn listed(slots: Seq<DataSlotView>, key: Seq<char>) -> bool {
    exists|k: int, x: int| slot_takes(slots, k, x, key)
}

proof fn lemma_front_takes(slots: Seq<DataSlotView>, k: int, x: int, key: Seq<char>)
    requires
        slots.len() > 0,
    ensures
        slot_takes(slots.drop_last(), k, x, key) == (slot_takes(slots, k, x, key) && k < slots.len() - 1),
{
    if 0 <= k < slots.len() - 1 {
        assert(slots.drop_last()[k] == slots[k]);
    }
}

proof fn lemma_listed_by_front(slots: Seq<DataSlotView>, key: Seq<char>)
    requires
        slots.len() > 0,
    ensures
        listed(slots, key) == (listed(slots.drop_last(), key) || listed_by(slots, slots.len() - 1, key)),
{
    let front = slots.drop_last();
    let n = slots.len() - 1;
    if listed(slots, key) {
        let (k, x) = choose|k: int, x: int| slot_takes(slots, k, x, key);
        lemma_front_takes(slots, k, x, key);
        assert(k == n ==> slot_takes(slots, n, x, key));
    }
    if listed(front, key) {
        let (k, x) = choose|k: int, x: int| slot_takes(front, k, x, key);
        lemma_front_takes(slots, k, x, key);
    }
    if listed_by(slots, n, key) {
        let x = choose|x: int| slot_takes(slots, n, x, key);
        assert(slot_takes(slots, n, x, key));
    }
}

/// Taking in the slots of a core makes each extension that they list a key, and leaves the other
/// keys as they were.
pub proof fn law_slots_are_added(map: ExtMap, slots: Seq<DataSlotView>, core_name: Seq<char>, key: Seq<char>)
    ensures
        ({
            let after = with_slots(map, slots, core_name);
            &&& after.dom().contains(key) == (map.dom().contains(key) || listed(slots, key))
            &&& !listed(slots, key) && map.dom().contains(key) ==> after[key] == map[key]
        }),
    decreases slots.len(),
{
    if slots.len() > 0 {
        let front = slots.drop_last();
        law_slots_are_added(map, front, core_name, key);
        lemma_with_slot(with_slots(map, front, core_name), slots, slots.len() - 1, core_name, key);
        lemma_listed_by_front(slots, key);
    }
}

/// Of the slots of a core, the last one that lists an extension says where it goes.
pub proof fn law_the_last_slot_of_a_core_wins(
    map: ExtMap,
    slots: Seq<DataSlotView>,
    core_name: Seq<char>,
    key: Seq<char>,
    k: int,
    x: int,
)
    requires
        slot_takes(slots, k, x, key),
        forall|k2: int, x2: int| slot_takes(slots, k2, x2, key) ==> k2 <= k,
    ensures
        with_slots(map, slots, core_name).dom().contains(key),
        with_slots(map, slots, core_name)[key] == "Assets/"@ + slot_platform(
            slots[k].filename,
            core_name,
        ) + "/common"@,
    decreases slots.len(),
{
    let front = slots.drop_last();
    let n = slots.len() - 1;
    let before = with_slots(map, front, core_name);
    lemma_with_slot(before, slots, n, core_name, key);
    assert(k == n ==> listed_by(slots, n, key));
    if k < n {
        lemma_front_takes(slots, k, x, key);
        assert forall|k2: int, x2: int| slot_takes(front, k2, x2, key) implies k2 <= k by {
            lemma_front_takes(slots, k2, x2, key);
        }
        law_the_last_slot_of_a_core_wins(map, front, core_name, key, k, x);
        law_slots_are_added(map, front, core_name, key);
        assert(front[k] == slots[k]);
        assert(!listed_by(slots, n, key));
    }
}

/// Every extension that some slot lists which the user fills is a key, in lower case, of the map
/// that the cores make up, and there is no other key.
pub proof fn law_every_slot_is_taken_in(cores: Seq<CoreFileView>, key: Seq<char>)
    ensures
        core_extensions(cores).dom().contains(key) == exists|c: int, k: int, x: int| takes(cores, c, k, x, key),
    decreases cores.len(),
{
    if cores.len() > 0 {
        let front = cores.drop_last();
        let n = front.len() as int;
        let before = core_extensions(front);
        law_every_slot_is_taken_in(front, key);
        lemma_takes_front(cores, key);
        assert(cores[n] == cores.last());
        if let Some(slots) = slots_in(cores.last().data) {
            law_slots_are_added(before, slots, cores.last().name, key);
            assert forall|k: int, x: int| #[trigger] slot_takes(slots, k, x, key) == takes(cores, n, k, x, key) by {}
            if listed(slots, key) {
                let (k, x) = choose|k: int, x: int| slot_takes(slots, k, x, key);
                assert(takes(cores, n, k, x, key));
            }
        }
    }
}

proof fn lemma_takes_front(cores: Seq<CoreFileView>, key: Seq<char>)
    requires
        cores.len() > 0,
    ensures
        forall|c: int, k: int, x: int|
            c < cores.len() - 1 ==> #[trigger] takes(cores, c, k, x, key) == takes(
                cores.drop_last(),
                c,
                k,
                x,
                key,
            ),
        forall|c: int, k: int, x: int|
            #[trigger] takes(cores.drop_last(), c, k, x, key) ==> takes(cores, c, k, x, key),
{
    let front = cores.drop_last();
    assert forall|c: int, k: int, x: int|
        c < cores.len() - 1 implies #[trigger] takes(cores, c, k, x, key) == takes(front, c, k, x, key) by {
        if 0 <= c {
            assert(front[c] == cores[c]);
        }
    }
    assert forall|c: int, k: int, x: int| #[trigger] takes(front, c, k, x, key) implies takes(cores, c, k, x, key) by {
        assert(front[c] == cores[c]);
    }
}

/// An extension goes to the folder of the last slot that lists it, in the order of the cores and
/// of their slots.
pub proof fn law_the_last_slot_wins(cores: Seq<CoreFileView>, c: int, k: int, x: int, key: Seq<char>)
    requires
        takes(cores, c, k, x, key),
        forall|c2: int, k2: int, x2: int|
            #[trigger] takes(cores, c2, k2, x2, key) ==> c2 < c || c2 == c && k2 <= k,
    ensures
        core_extensions(cores).dom().contains(key),
        core_extensions(cores)[key] == folder_of_slot(cores, c, k),
    decreases cores.len(),
{
    law_every_slot_is_taken_in(cores, key);
    let front = cores.drop_last();
    let n = front.len() as int;
    let before = core_extensions(front);
    lemma_takes_front(cores, key);
    law_every_slot_is_taken_in(front, key);
    assert(cores[n] == cores.last());
    if let Some(slots) = slots_in(cores.last().data) {
        law_slots_are_added(before, slots, cores.last().name, key);
        if c == n {
            assert(slot_takes(slots, k, x, key));
            assert forall|k2: int, x2: int| slot_takes(slots, k2, x2, key) implies k2 <= k by {
                assert(takes(cores, n, k2, x2, key));
            }
            law_the_last_slot_of_a_core_wins(before, slots, cores.last().name, key, k, x);
        } else {
            assert(!listed(slots, key)) by {
                if listed(slots, key) {
                    let (k2, x2) = choose|k2: int, x2: int| slot_takes(slots, k2, x2, key);
                    assert(takes(cores, n, k2, x2, key));
                }
            }
        }
    }
    if c < n {
        assert(takes(front, c, k, x, key));
        assert forall|c2: int, k2: int, x2: int| #[trigger] takes(front, c2, k2, x2, key) implies c2 < c || c2 == c
            && k2 <= k by {
            assert(takes(cores, c2, k2, x2, key));
        }
        law_the_last_slot_wins(front, c, k, x, key);
        assert(front[c] == cores[c]);
        assert(before.dom().contains(key));
    }
}

/// The platform of a folder is what stands between its first two slashes, or behind its only one;
/// a folder without a slash has none that is known.
pub proof fn law_platform_of_a_folder(first: Seq<char>, platform: Seq<char>, rest: Seq<char>)
    requires
        !first.contains('/'),
        !platform.contains('/'),
    ensures
        folder_platform(between(first, seq!['/'], between(platform, seq!['/'], rest))) == platform,
        folder_platform(between(first, seq!['/'], platform)) == platform,
        folder_platform(first) == "unknown"@,
{
    let behind = between(platform, seq!['/'], rest);
    law_split_part_by_part(first, '/', behind);
    law_split_part_by_part(first, '/', platform);
    law_split_part_by_part(platform, '/', rest);
    assert(text::split(behind, '/')[0] == platform);
    assert(text::split(platform, '/')[0] == platform);
}

/// The folders and the platforms that a map of extensions names are those of its entries, each
/// once, in ascending order.
pub proof fn law_folders_and_platforms_are_listed(map: ExtMap, x: Seq<char>)
    requires
        map.dom().finite(),
    ensures
        ({
            let listed = folders(map);
            let named = platforms(map);
            &&& listed.contains(x) == exists|key: Seq<char>| #[trigger] map.dom().contains(key) && map[key] == x
            &&& named.contains(x) == exists|key: Seq<char>| #[trigger] map.dom().contains(key)
                && folder_platform(map[key]) == x
            &&& forall|i: int, j: int|
                0 <= i < j < listed.len() ==> text::precedes(#[trigger] listed[i], #[trigger] listed[j])
            &&& forall|i: int, j: int|
                0 <= i < j < named.len() ==> text::precedes(#[trigger] named[i], #[trigger] named[j])
        }),
{
    let f = |folder: Seq<char>| folder_platform(folder);
    vstd::map_lib::lemma_values_finite(map);
    map.values().lemma_map_finite(f);
    law_texts_in_order(map.values(), x);
    law_texts_in_order(map.values().map(f), x);
    if map.values().map(f).contains(x) {
        let v = choose|v: Seq<char>| map.values().contains(v) && f(v) == x;
        let key = choose|key: Seq<char>| #[trigger] map.dom().contains(key) && map[key] == v;
        assert(map.dom().contains(key));
    }
    if exists|key: Seq<char>| #[trigger] map.dom().contains(key) && folder_platform(map[key]) == x {
        let key = choose|key: Seq<char>| #[trigger] map.dom().contains(key) && folder_platform(map[key]) == x;
        assert(map.values().contains(map[key]));
        assert(f(map[key]) == x);
    }
}

} // verus!
