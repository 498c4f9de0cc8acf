//! Reshaping the stored card data for the wiki: per-level lists keep their first level,
//! fields that only units have are cleared for other card types, and each card gets the
//! map locations of its upgrades.
use vstd::prelude::*;
use crate::json::{
    entries_insert, entries_insert_exec, entries_view, has_key, items_view, keys_distinct,
    lemma_first_key, lemma_insert_keeps_keys_distinct, lemma_insert_lookup, lemma_with_key_object, lookup, null_levels_view, Json,
    JsonView,
};
use crate::skylords::str_of;
use crate::text::str_eq;

verus! {

/// The model of a list of (map, card name) listings.
pub type ListingsView = Seq<(Seq<char>, Seq<char>)>;

/// The upgrade record for a map: its location, with the other fields left empty.
pub open spec fn upgrade_entry(map: Seq<char>) -> JsonView {
    JsonView::Object(
        seq![
            ("location"@, JsonView::Str(map)),
            ("general"@, JsonView::Null),
            ("damage"@, JsonView::Null),
            ("health"@, JsonView::Null),
            ("power_cost"@, JsonView::Null),
        ],
    )
}

/// The listings of one map: the map with each card name it lists.
pub open spec fn cards_listings(map: Seq<char>, cards: Seq<JsonView>) -> ListingsView {
    Seq::new(cards.len(), |i: int| (map, cards[i].as_str()->0))
}

/// The listings of a group of maps, map by map.
pub open spec fn group_listings(group: Seq<(Seq<char>, JsonView)>) -> ListingsView
    decreases group.len(),
{
    if group.len() == 0 {
        Seq::empty()
    } else {
        group_listings(group.drop_last()) + cards_listings(
            group.last().0,
            group.last().1.as_array()->0,
        )
    }
}

/// A group of maps: each map lists card names.
pub open spec fn group_ok(group: JsonView) -> bool {
    &&& group is Object
    &&& forall|i: int|
        0 <= i < group.as_object()->0.len() ==> {
            let cards = (#[trigger] group.as_object()->0[i]).1;
            &&& cards is Array
            &&& forall|j: int|
                0 <= j < cards.as_array()->0.len() ==> (#[trigger] cards.as_array()->0[j]).as_str() is Some
        }
}

/// The map file: the upgrade groups `U1`, `U2` and `U3`.
pub open spec fn maps_ok(maps: JsonView) -> bool {
    &&& maps.get("U1"@) is Some && group_ok(maps.get("U1"@)->0)
    &&& maps.get("U2"@) is Some && group_ok(maps.get("U2"@)->0)
    &&& maps.get("U3"@) is Some && group_ok(maps.get("U3"@)->0)
}

/// All listings of the map file: the groups `U1`, `U2`, `U3` in that order.
pub open spec fn listings(maps: JsonView) -> ListingsView {
    group_listings(maps.get("U1"@)->0.as_object()->0) + group_listings(
        maps.get("U2"@)->0.as_object()->0,
    ) + group_listings(maps.get("U3"@)->0.as_object()->0)
}

/// The upgrades object built from listings in order: a listing of the first name records
/// its map under the first key, one of the second name under the second key; a later
/// record under a key replaces an earlier one.
pub open spec fn upgrades_fold(
    listed: ListingsView,
    name1: Seq<char>,
    key1: Seq<char>,
    name2: Seq<char>,
    key2: Seq<char>,
) -> Seq<(Seq<char>, JsonView)>
    decreases listed.len(),
{
    if listed.len() == 0 {
        Seq::empty()
    } else {
        let prev = upgrades_fold(listed.drop_last(), name1, key1, name2, key2);
        let (map, card) = listed.last();
        let after1 = if card == name1 {
            entries_insert(prev, key1, upgrade_entry(map))
        } else {
            prev
        };
        if card == name2 {
            entries_insert(after1, key2, upgrade_entry(map))
        } else {
            after1
        }
    }
}

proof fn lemma_insert_has_key(
    entries: Seq<(Seq<char>, JsonView)>,
    key: Seq<char>,
    value: JsonView,
    other: Seq<char>,
)
    ensures
        has_key(entries_insert(entries, key, value), key),
        has_key(entries, other) ==> has_key(entries_insert(entries, key, value), other),
        forall|i: int|
            0 <= i < entries_insert(entries, key, value).len() ==> (#[trigger] entries_insert(
                entries,
                key,
                value,
            )[i]).0 == key || has_key(entries, entries_insert(entries, key, value)[i].0),
{
    lemma_insert_lookup(entries, key, value, other);
    let after = entries_insert(entries, key, value);
    if has_key(entries, other) && other != key {
        assert(lookup(entries, other) is Some);
    }
    assert forall|i: int| 0 <= i < after.len() implies (#[trigger] after[i]).0 == key || has_key(
        entries,
        after[i].0,
    ) by {
        if after[i].0 != key {
            if has_key(entries, key) {
                let w = choose|k: int| 0 <= k < entries.len() && entries[k].0 == key;
                lemma_first_key(entries, key, w);
                assert(after[i] == entries[i]);
            } else {
                assert(i < entries.len());
                assert(after[i] == entries[i]);
            }
            assert(0 <= i < entries.len() && entries[i].0 == after[i].0);
        }
    }
}

/// Law: the upgrades of a card are recorded only under its two keys, each key at most
/// once, and a key is recorded as soon as a map lists the name it belongs to.
pub proof fn law_upgrades_keys(
    listed: ListingsView,
    name1: Seq<char>,
    key1: Seq<char>,
    name2: Seq<char>,
    key2: Seq<char>,
)
    ensures
        forall|i: int|
            0 <= i < upgrades_fold(listed, name1, key1, name2, key2).len() ==> (
            #[trigger] upgrades_fold(listed, name1, key1, name2, key2)[i]).0 == key1
                || upgrades_fold(listed, name1, key1, name2, key2)[i].0 == key2,
        keys_distinct(upgrades_fold(listed, name1, key1, name2, key2)),
        forall|j: int|
            0 <= j < listed.len() && (#[trigger] listed[j]).1 == name1 ==> has_key(
                upgrades_fold(listed, name1, key1, name2, key2),
                key1,
            ),
        forall|j: int|
            0 <= j < listed.len() && (#[trigger] listed[j]).1 == name2 ==> has_key(
                upgrades_fold(listed, name1, key1, name2, key2),
                key2,
            ),
    decreases listed.len(),
{
    if listed.len() > 0 {
        let prefix = listed.drop_last();
        law_upgrades_keys(prefix, name1, key1, name2, key2);
        let prev = upgrades_fold(prefix, name1, key1, name2, key2);
        let (map, card) = listed.last();
        let entry = upgrade_entry(map);
        let after1 = if card == name1 {
            entries_insert(prev, key1, entry)
        } else {
            prev
        };
        let after2 = upgrades_fold(listed, name1, key1, name2, key2);
        if card == name1 {
            lemma_insert_has_key(prev, key1, entry, key2);
            lemma_insert_keeps_keys_distinct(prev, key1, entry);
        }
        if card == name2 {
            lemma_insert_has_key(after1, key2, entry, key1);
            lemma_insert_keeps_keys_distinct(after1, key2, entry);
        }
        assert forall|i: int| 0 <= i < after2.len() implies (#[trigger] after2[i]).0 == key1
            || after2[i].0 == key2 by {
            if card == name2 && after2[i].0 != key2 {
                let w = choose|k: int| 0 <= k < after1.len() && after1[k].0 == after2[i].0;
                if card == name1 && after1[w].0 != key1 {
                    let w2 = choose|k: int| 0 <= k < prev.len() && prev[k].0 == after1[w].0;
                    assert(prev[w2].0 == key1 || prev[w2].0 == key2);
                } else if card != name1 {
                    assert(prev[w].0 == key1 || prev[w].0 == key2);
                }
            } else if card == name1 && after2[i].0 != key1 && after2[i].0 != key2 {
                assert(after2 == after1);
                assert(after1[i].0 == key1 || has_key(prev, after1[i].0));
                let w = choose|k: int| 0 <= k < prev.len() && prev[k].0 == after2[i].0;
                assert(prev[w].0 == key1 || prev[w].0 == key2);
            }
        }
        assert forall|j: int| 0 <= j < listed.len() && (#[trigger] listed[j]).1 == name1 implies has_key(
            after2,
            key1,
        ) by {
            if j < prefix.len() {
                assert(listed[j] == prefix[j]);
            }
        }
        assert forall|j: int| 0 <= j < listed.len() && (#[trigger] listed[j]).1 == name2 implies has_key(
            after2,
            key2,
        ) by {
            if j < prefix.len() {
                assert(listed[j] == prefix[j]);
            }
        }
    }
}

/// Law: the upgrade record of a map holds the map as its location and leaves the
/// general, damage, health and cost fields empty.
pub proof fn law_upgrade_entry_fields(map: Seq<char>)
    ensures
        upgrade_entry(map).get("location"@) == Some(JsonView::Str(map)),
        upgrade_entry(map).get("general"@) == Some(JsonView::Null),
        upgrade_entry(map).get("damage"@) == Some(JsonView::Null),
        upgrade_entry(map).get("health"@) == Some(JsonView::Null),
        upgrade_entry(map).get("power_cost"@) == Some(JsonView::Null),
        upgrade_entry(map).as_object()->0.len() == 5,
{
    let e = upgrade_entry(map)->Object_0;
    reveal_strlit("location");
    reveal_strlit("general");
    reveal_strlit("damage");
    reveal_strlit("health");
    reveal_strlit("power_cost");
    assert("location"@[0] == 'l' && "general"@[0] == 'g' && "damage"@[0] == 'd' && "health"@[0] == 'h'
        && "power_cost"@[0] == 'p');
    lemma_first_key(e, "location"@, 0);
    lemma_first_key(e, "general"@, 1);
    lemma_first_key(e, "damage"@, 2);
    lemma_first_key(e, "health"@, 3);
    lemma_first_key(e, "power_cost"@, 4);
}

/// Law: a later listing replaces an earlier record: the record under each key is the
/// upgrade entry of the map of the last listing of its name (unless the other name,
/// recorded under the same key, is listed after it).
pub proof fn law_upgrades_last_listing(
    listed: ListingsView,
    name1: Seq<char>,
    key1: Seq<char>,
    name2: Seq<char>,
    key2: Seq<char>,
    j: int,
)
    requires
        0 <= j < listed.len(),
    ensures
        listed[j].1 == name1 && (forall|k: int| j < k < listed.len() ==> (#[trigger] listed[k]).1 != name1)
            && (key1 != key2 || forall|k: int| j < k < listed.len() ==> (#[trigger] listed[k]).1 != name2)
            ==> lookup(upgrades_fold(listed, name1, key1, name2, key2), key1) == Some(
            upgrade_entry(listed[j].0),
        ),
        listed[j].1 == name2 && (forall|k: int| j < k < listed.len() ==> (#[trigger] listed[k]).1 != name2)
            && (key1 != key2 || forall|k: int| j < k < listed.len() ==> (#[trigger] listed[k]).1 != name1)
            ==> lookup(upgrades_fold(listed, name1, key1, name2, key2), key2) == Some(
            upgrade_entry(listed[j].0),
        ),
    decreases listed.len(),
{
    let prefix = listed.drop_last();
    let prev = upgrades_fold(prefix, name1, key1, name2, key2);
    let (map, card) = listed.last();
    let entry = upgrade_entry(map);
    let after1 = if card == name1 {
        entries_insert(prev, key1, entry)
    } else {
        prev
    };
    lemma_insert_lookup(prev, key1, entry, key2);
    lemma_insert_lookup(after1, key2, entry, key1);
    if j < listed.len() - 1 {
        assert(prefix[j] == listed[j]);
        assert forall|k: int| j < k < prefix.len() implies #[trigger] prefix[k] == listed[k] by {}
        law_upgrades_last_listing(prefix, name1, key1, name2, key2, j);
        assert(listed[listed.len() - 1] == listed.last());
    }
}

/// The affinity variants of a stored card.
pub open spec fn variants(v: JsonView) -> JsonView {
    v.at("affinity_variants"@)
}

/// The stored card has a list of affinity variants.
pub open spec fn has_variants(v: JsonView) -> bool {
    variants(v) is Array
}

/// `name (variant)`.
pub open spec fn variant_name(name: Seq<char>, variant: Seq<char>) -> Seq<char> {
    name + " ("@ + variant + ")"@
}

/// The name under which the maps list the card (its first variant).
pub open spec fn first_name(k: Seq<char>, v: JsonView) -> Seq<char> {
    if has_variants(v) {
        variant_name(k, variants(v).at_item(0).as_str()->0)
    } else {
        k
    }
}

/// The name under which the maps list the second variant; a name no map uses for a
/// card without variants.
pub open spec fn second_name(k: Seq<char>, v: JsonView) -> Seq<char> {
    if has_variants(v) {
        variant_name(k, variants(v).at_item(1).as_str()->0)
    } else {
        "abcdefgh"@
    }
}

/// The key of the first variant's upgrades; `normal` for a card without variants.
pub open spec fn first_key(v: JsonView) -> Seq<char> {
    if has_variants(v) {
        variants(v).at_item(0).as_str()->0
    } else {
        "normal"@
    }
}

/// The key of the second variant's upgrades.
pub open spec fn second_key(v: JsonView) -> Seq<char> {
    match variants(v).at_item(1).as_str() {
        Some(s) => s,
        None => Seq::empty(),
    }
}

/// A per-level list of at least four levels.
pub open spec fn levels_ok(v: JsonView) -> bool {
    v is Array && v.as_array()->0.len() >= 4
}

/// The stored card with its per-level lists reduced to the first level.
pub open spec fn after_levels(v: JsonView) -> JsonView {
    let v1 = null_levels_view(v, "power_cost"@);
    let v2 = if !v1.at("damage"@).is_null() {
        null_levels_view(v1, "damage"@)
    } else {
        v1
    };
    if !v2.at("health"@).is_null() {
        null_levels_view(v2, "health"@)
    } else {
        v2
    }
}

/// The stored card with the fields that its type does not use cleared: size, counter and
/// weapon type for all but units, damage and health as well for spells.
pub open spec fn after_type(v: JsonView, ty: Seq<char>) -> JsonView {
    if ty != "Unit"@ {
        let w = v.with_key("size"@, JsonView::Null).with_key("counter"@, JsonView::Null).with_key(
            "weapon_type"@,
            JsonView::Null,
        );
        if ty == "Spelling"@ {
            w.with_key("damage"@, JsonView::Null).with_key("health"@, JsonView::Null)
        } else {
            w
        }
    } else {
        v
    }
}

/// The reshaped stored card `v` named `k`.
pub open spec fn reshape_card(k: Seq<char>, v: JsonView, maps: JsonView) -> JsonView {
    let v3 = after_levels(v);
    let v4 = after_type(v3, str_of(v3.get("type"@))->0);
    v4.with_key(
        "upgrades"@,
        JsonView::Object(
            upgrades_fold(listings(maps), first_name(k, v), first_key(v), second_name(k, v), second_key(v)),
        ),
    )
}

/// A stored card that can be reshaped: the fields that are read are present and of the
/// shape they are read as.
pub open spec fn card_ok(k: Seq<char>, v: JsonView, maps: JsonView) -> bool {
    let v1 = null_levels_view(v, "power_cost"@);
    let v2 = if !v1.at("damage"@).is_null() {
        null_levels_view(v1, "damage"@)
    } else {
        v1
    };
    let v3 = after_levels(v);
    let v4 = after_type(v3, str_of(v3.get("type"@))->0);
    &&& v is Object
    &&& has_variants(v) ==> variants(v).item(0) is Some && variants(v).item(0)->0.as_str() is Some
    &&& has_variants(v) ==> variants(v).item(1) is Some && variants(v).item(1)->0.as_str() is Some
    &&& v.get("power_cost"@) is Some && levels_ok(v.get("power_cost"@)->0)
    &&& !v1.at("damage"@).is_null() ==> levels_ok(v1.at("damage"@))
    &&& !v2.at("health"@).is_null() ==> levels_ok(v2.at("health"@))
    &&& str_of(v3.get("type"@)) is Some
    &&& maps_ok(maps)
    &&& forall|i: int|
        0 <= i < listings(maps).len() && (#[trigger] listings(maps)[i]).1 == second_name(k, v)
            ==> variants(v).at_item(1).as_str() is Some
    &&& v4.get("upgrades"@) is Some
}

/// The card that is left as it is.
pub open spec fn skipped_card(k: Seq<char>) -> bool {
    k == "Satanael"@
}

/// The stored card data can be reshaped: it is an object of cards that can.
pub open spec fn card_data_ok(data: JsonView, maps: JsonView) -> bool {
    &&& data is Object
    &&& forall|i: int|
        0 <= i < data.as_object()->0.len() && !skipped_card(data.as_object()->0[i].0) ==> card_ok(
            #[trigger] data.as_object()->0[i].0,
            data.as_object()->0[i].1,
            maps,
        )
}

/// The reshaped card data: every card but the skipped one is reshaped, in place.
pub open spec fn reshape_card_data(data: JsonView, maps: JsonView) -> JsonView {
    let entries = data.as_object()->0;
    JsonView::Object(
        Seq::new(
            entries.len(),
            |i: int|
                if skipped_card(entries[i].0) {
                    entries[i]
                } else {
                    (entries[i].0, reshape_card(entries[i].0, entries[i].1, maps))
                },
        ),
    )
}

/// Clearing the levels of a list whose levels are already cleared leaves the object as
/// it was.
proof fn lemma_null_levels_again(v: JsonView, key: Seq<char>)
    requires
        v is Object,
        v.get(key) is Some,
        levels_ok(v.get(key)->0),
        v.get(key)->0.as_array()->0[1] == JsonView::Null,
        v.get(key)->0.as_array()->0[2] == JsonView::Null,
        v.get(key)->0.as_array()->0[3] == JsonView::Null,
    ensures
        null_levels_view(v, key) == v,
{
    let a = v.get(key)->0.as_array()->0;
    assert(a.update(1, JsonView::Null).update(2, JsonView::Null).update(3, JsonView::Null) =~= a);
    lemma_with_key_object(v, key, JsonView::Array(a));
}

/// The list under `key` after its levels were cleared: at least four levels, all but
/// the first `null`.
proof fn lemma_null_levels_cleared(v: JsonView, key: Seq<char>)
    requires
        v is Object,
        levels_ok(v.at(key)),
    ensures
        null_levels_view(v, key) is Object,
        null_levels_view(v, key).get(key) is Some,
        levels_ok(null_levels_view(v, key).get(key)->0),
        null_levels_view(v, key).get(key)->0.as_array()->0[1] == JsonView::Null,
        null_levels_view(v, key).get(key)->0.as_array()->0[2] == JsonView::Null,
        null_levels_view(v, key).get(key)->0.as_array()->0[3] == JsonView::Null,
        forall|other: Seq<char>|
            other != key ==> #[trigger] null_levels_view(v, key).get(other) == v.get(other),
{
    let a = v.at(key).as_array()->0;
    lemma_with_key_object(
        v,
        key,
        JsonView::Array(a.update(1, JsonView::Null).update(2, JsonView::Null).update(3, JsonView::Null)),
    );
}

/// A reshaped card can be reshaped again, and reshaping it again changes nothing.
pub proof fn lemma_reshape_card_again(k: Seq<char>, v: JsonView, maps: JsonView)
    requires
        card_ok(k, v, maps),
    ensures
        card_ok(k, reshape_card(k, v, maps), maps),
        reshape_card(k, reshape_card(k, v, maps), maps) == reshape_card(k, v, maps),
{
    let pc = "power_cost"@;
    let dm = "damage"@;
    let hl = "health"@;
    let up = "upgrades"@;
    let v1 = null_levels_view(v, pc);
    let v2 = if !v1.at(dm).is_null() {
        null_levels_view(v1, dm)
    } else {
        v1
    };
    let v3 = after_levels(v);
    let ty = str_of(v3.get("type"@))->0;
    let v4 = after_type(v3, ty);
    let f = JsonView::Object(
        upgrades_fold(listings(maps), first_name(k, v), first_key(v), second_name(k, v), second_key(v)),
    );
    let w = reshape_card(k, v, maps);
    reveal_strlit("power_cost");
    reveal_strlit("damage");
    reveal_strlit("health");
    reveal_strlit("upgrades");
    reveal_strlit("type");
    reveal_strlit("affinity_variants");
    reveal_strlit("size");
    reveal_strlit("counter");
    reveal_strlit("weapon_type");
    assert(v.at(pc) == v.get(pc)->0);
    lemma_null_levels_cleared(v, pc);
    if !v1.at(dm).is_null() {
        lemma_null_levels_cleared(v1, dm);
    }
    if !v2.at(hl).is_null() {
        lemma_null_levels_cleared(v2, hl);
    }
    assert(v3 is Object);
    // The type pass.
    let s1 = v3.with_key("size"@, JsonView::Null);
    let s2 = s1.with_key("counter"@, JsonView::Null);
    let s3 = s2.with_key("weapon_type"@, JsonView::Null);
    let s4 = s3.with_key(dm, JsonView::Null);
    lemma_with_key_object(v3, "size"@, JsonView::Null);
    lemma_with_key_object(s1, "counter"@, JsonView::Null);
    lemma_with_key_object(s2, "weapon_type"@, JsonView::Null);
    lemma_with_key_object(s3, dm, JsonView::Null);
    lemma_with_key_object(s4, hl, JsonView::Null);
    assert(v4 is Object);
    lemma_with_key_object(v4, up, f);
    // What the reshaped card reads under each key.
    let t = "type"@;
    let av = "affinity_variants"@;
    assert(pc[0] == 'p' && dm[0] == 'd' && hl[0] == 'h' && up[0] == 'u' && t[0] == 't' && av[0] == 'a');
    assert("size"@[0] == 's' && "counter"@[0] == 'c' && "weapon_type"@[0] == 'w');
    reveal_strlit("Spelling");
    reveal_strlit("Unit");
    assert("Spelling"@[0] == 'S' && "Unit"@[0] == 'U');
    assert(v1.get(t) == v.get(t));
    assert(v2.get(t) == v1.get(t));
    assert(v3.get(t) == v2.get(t));
    assert(v4.get(t) == v3.get(t));
    assert(w.get("type"@) == v.get("type"@));
    assert(v1.get(av) == v.get(av));
    assert(v2.get(av) == v1.get(av));
    assert(v3.get(av) == v2.get(av));
    assert(v4.get(av) == v3.get(av));
    assert(w.get("affinity_variants"@) == v.get("affinity_variants"@));
    assert(v3.get(dm) == v2.get(dm));
    assert(ty != "Spelling"@ ==> v4.get(dm) == v3.get(dm));
    assert(ty == "Spelling"@ ==> v4.get(dm) == Some(JsonView::Null));
    assert(w.get(dm) == v4.get(dm));
    assert(variants(w) == variants(v));
    assert(w.get(up) == Some(f));
    assert(w.get(pc) == v1.get(pc));
    // The second pass.
    lemma_null_levels_again(w, pc);
    let w3 = after_levels(w);
    if !w.at(dm).is_null() {
        assert(w.get(dm) == v2.get(dm));
        lemma_null_levels_again(w, dm);
    }
    if !w.at(hl).is_null() {
        assert(w.get(hl) == v3.get(hl));
        lemma_null_levels_again(w, hl);
    }
    assert(w3 == w);
    assert(str_of(w3.get("type"@))->0 == ty);
    if ty != "Unit"@ {
        lemma_with_key_object(w, "size"@, JsonView::Null);
        lemma_with_key_object(w, "counter"@, JsonView::Null);
        lemma_with_key_object(w, "weapon_type"@, JsonView::Null);
        if ty == "Spelling"@ {
            lemma_with_key_object(w, dm, JsonView::Null);
            lemma_with_key_object(w, hl, JsonView::Null);
        }
    }
    assert(after_type(w3, ty) == w);
    lemma_with_key_object(w, up, f);
}

/// Law: what reshaping does to a stored card: the cost list keeps its length and first
/// level and has its next three levels cleared; a card that is not a unit loses its
/// size, counter and weapon type, and a spell its damage and health as well, while a
/// unit keeps them; the upgrades are those recorded from the maps; every other field is
/// left as it was.
pub proof fn law_reshape_card_fields(k: Seq<char>, v: JsonView, maps: JsonView, other: Seq<char>)
    requires
        card_ok(k, v, maps),
    ensures
        reshape_card(k, v, maps) is Object,
        reshape_card(k, v, maps).get("power_cost"@) matches Some(JsonView::Array(b)) && b.len()
            == v.get("power_cost"@)->0.as_array()->0.len() && b[0] == v.get("power_cost"@)->0.as_array()->0[0]
            && b[1] == JsonView::Null && b[2] == JsonView::Null && b[3] == JsonView::Null && (forall|m: int|
            4 <= m < b.len() ==> #[trigger] b[m] == v.get("power_cost"@)->0.as_array()->0[m]),
        str_of(v.get("type"@))->0 == "Unit"@ ==> reshape_card(k, v, maps).get("size"@) == v.get("size"@)
            && reshape_card(k, v, maps).get("counter"@) == v.get("counter"@) && reshape_card(k, v, maps).get(
            "weapon_type"@,
        ) == v.get("weapon_type"@),
        str_of(v.get("type"@))->0 != "Unit"@ ==> reshape_card(k, v, maps).get("size"@) == Some(JsonView::Null)
            && reshape_card(k, v, maps).get("counter"@) == Some(JsonView::Null) && reshape_card(
            k,
            v,
            maps,
        ).get("weapon_type"@) == Some(JsonView::Null),
        str_of(v.get("type"@))->0 == "Spelling"@ ==> reshape_card(k, v, maps).get("damage"@) == Some(
            JsonView::Null,
        ) && reshape_card(k, v, maps).get("health"@) == Some(JsonView::Null),
        reshape_card(k, v, maps).get("upgrades"@) == Some(
            JsonView::Object(
                upgrades_fold(listings(maps), first_name(k, v), first_key(v), second_name(k, v), second_key(v)),
            ),
        ),
        other != "power_cost"@ && other != "damage"@ && other != "health"@ && other != "size"@ && other
            != "counter"@ && other != "weapon_type"@ && other != "upgrades"@ ==> reshape_card(k, v, maps).get(
            other,
        ) == v.get(other),
{
    let pc = "power_cost"@;
    let dm = "damage"@;
    let hl = "health"@;
    let up = "upgrades"@;
    let sz = "size"@;
    let ct = "counter"@;
    let wt = "weapon_type"@;
    let t = "type"@;
    let v1 = null_levels_view(v, pc);
    let v2 = if !v1.at(dm).is_null() {
        null_levels_view(v1, dm)
    } else {
        v1
    };
    let v3 = after_levels(v);
    let ty = str_of(v3.get(t))->0;
    let v4 = after_type(v3, ty);
    let f = JsonView::Object(
        upgrades_fold(listings(maps), first_name(k, v), first_key(v), second_name(k, v), second_key(v)),
    );
    let w = reshape_card(k, v, maps);
    reveal_strlit("power_cost");
    reveal_strlit("damage");
    reveal_strlit("health");
    reveal_strlit("upgrades");
    reveal_strlit("type");
    reveal_strlit("size");
    reveal_strlit("counter");
    reveal_strlit("weapon_type");
    reveal_strlit("Spelling");
    reveal_strlit("Unit");
    assert(pc[0] == 'p' && dm[0] == 'd' && hl[0] == 'h' && up[0] == 'u' && t[0] == 't');
    assert(sz[0] == 's' && ct[0] == 'c' && wt[0] == 'w');
    assert("Spelling"@[0] == 'S' && "Unit"@[0] == 'U');
    assert(v.at(pc) == v.get(pc)->0);
    lemma_null_levels_cleared(v, pc);
    if !v1.at(dm).is_null() {
        lemma_null_levels_cleared(v1, dm);
    }
    if !v2.at(hl).is_null() {
        lemma_null_levels_cleared(v2, hl);
    }
    let s1 = v3.with_key(sz, JsonView::Null);
    let s2 = s1.with_key(ct, JsonView::Null);
    let s3 = s2.with_key(wt, JsonView::Null);
    let s4 = s3.with_key(dm, JsonView::Null);
    lemma_with_key_object(v3, sz, JsonView::Null);
    lemma_with_key_object(s1, ct, JsonView::Null);
    lemma_with_key_object(s2, wt, JsonView::Null);
    lemma_with_key_object(s3, dm, JsonView::Null);
    lemma_with_key_object(s4, hl, JsonView::Null);
    lemma_with_key_object(v4, up, f);
    assert(v3.get(t) == v.get(t));
    // The cost list.
    let a = v.at(pc).as_array()->0;
    let b = a.update(1, JsonView::Null).update(2, JsonView::Null).update(3, JsonView::Null);
    lemma_with_key_object(v, pc, JsonView::Array(b));
    assert(v1.get(pc) == Some(JsonView::Array(b)));
    assert(w.get(pc) == Some(JsonView::Array(b)));
    // Fields that the type pass touches.
    assert(v3.get(sz) == v.get(sz) && v3.get(ct) == v.get(ct) && v3.get(wt) == v.get(wt));
    assert(w.get(sz) == v4.get(sz) && w.get(ct) == v4.get(ct) && w.get(wt) == v4.get(wt));
    assert(w.get(dm) == v4.get(dm) && w.get(hl) == v4.get(hl));
    // Every other field.
    if other != pc && other != dm && other != hl && other != sz && other != ct && other != wt && other != up {
        assert(v1.get(other) == v.get(other));
        assert(v2.get(other) == v1.get(other));
        assert(v3.get(other) == v2.get(other));
        assert(v4.get(other) == v3.get(other));
        assert(w.get(other) == v4.get(other));
    }
}

/// Law: the reshaped card data can be reshaped again, and reshaping it again changes
/// nothing.
pub proof fn law_reshape_card_data_idempotent(data: JsonView, maps: JsonView)
    requires
        card_data_ok(data, maps),
    ensures
        card_data_ok(reshape_card_data(data, maps), maps),
        reshape_card_data(reshape_card_data(data, maps), maps) == reshape_card_data(data, maps),
{
    let entries = data.as_object()->0;
    let r = reshape_card_data(data, maps);
    let re = r.as_object()->0;
    assert forall|i: int| 0 <= i < re.len() && !skipped_card(re[i].0) implies card_ok(
        #[trigger] re[i].0,
        re[i].1,
        maps,
    ) by {
        assert(card_ok(entries[i].0, entries[i].1, maps));
        lemma_reshape_card_again(entries[i].0, entries[i].1, maps);
    }
    let rr = reshape_card_data(r, maps).as_object()->0;
    assert forall|i: int| 0 <= i < re.len() implies rr[i] == re[i] by {
        if !skipped_card(re[i].0) {
            assert(card_ok(entries[i].0, entries[i].1, maps));
            lemma_reshape_card_again(entries[i].0, entries[i].1, maps);
        }
    }
    assert(rr =~= re);
}

// ---------------------------------------------------------------------------------
fn cards_of_map(map: &String, cards: &Vec<Json>, out: &mut Vec<(String, String)>)
    requires
        forall|j: int| 0 <= j < cards@.len() ==> (#[trigger] cards@[j]@).as_str() is Some,
    ensures
        final(out).deep_view() == old(out).deep_view() + cards_listings(map@, items_view(cards@)),
{
    let ghost start = out.deep_view();
    let ghost cv = items_view(cards@);
    let n = cards.len();
    let mut j: usize = 0;
    while j < n
        invariant
            n == cards@.len(),
            cv == items_view(cards@),
            j <= n,
            forall|k: int| 0 <= k < cards@.len() ==> (#[trigger] cards@[k]@).as_str() is Some,
            out.deep_view() =~= start + cards_listings(map@, cv).take(j as int),
        decreases n - j,
    {
        let card = cards[j].as_str().unwrap();
        let ghost prev = out@;
        let ghost prev_deep = out.deep_view();
        assert(prev_deep.len() == start.len() + j);
        assert(cards_listings(map@, cv)[j as int] == (map@, card@));
        out.push((map.clone(), card.to_owned()));
        proof {
            let target = start + cards_listings(map@, cv).take(j + 1);
            assert(out@.len() == prev.len() + 1);
            assert forall|k: int| 0 <= k < out@.len() implies out.deep_view()[k] == target[k] by {
                if k < prev.len() {
                    assert(out@[k] == prev[k]);
                    assert(prev_deep[k] == (start + cards_listings(map@, cv).take(j as int))[k]);
                } else {
                    assert(k == start.len() + j);
                    assert(cards_listings(map@, cv).take(j + 1)[j as int] == (map@, card@));
                }
            }
            assert(out.deep_view() =~= target);
        }
        j = j + 1;
    }
    assert(cards_listings(map@, cv).take(n as int) =~= cards_listings(map@, cv));
}

fn group_of_maps(group: &Json, out: &mut Vec<(String, String)>)
    requires
        group_ok(group@),
    ensures
        final(out).deep_view() == old(out).deep_view() + group_listings(group@.as_object()->0),
{
    let entries = group.as_object().unwrap();
    let ghost ev = entries_view(entries@);
    let ghost start = out.deep_view();
    let n = entries.len();
    let mut i: usize = 0;
    proof {
        assert(ev.take(0) =~= Seq::<(Seq<char>, JsonView)>::empty());
        assert(out.deep_view() =~= start + group_listings(ev.take(0)));
    }
    while i < n
        invariant
            n == entries@.len(),
            ev == entries_view(entries@),
            ev == group@.as_object()->0,
            group_ok(group@),
            i <= n,
            out.deep_view() =~= start + group_listings(ev.take(i as int)),
        decreases n - i,
    {
        proof {
            assert(ev.take(i + 1).drop_last() =~= ev.take(i as int));
            assert(ev[i as int] == (entries@[i as int].0@, entries@[i as int].1@));
        }
        let (map, cards_json) = (&entries[i].0, &entries[i].1);
        let cards = cards_json.as_array().unwrap();
        proof {
            let cs = ev[i as int].1;
            assert forall|j: int| 0 <= j < cards@.len() implies (#[trigger] cards@[j]@).as_str() is Some by {
                assert(cs.as_array()->0[j] == items_view(cards@)[j]);
            }
        }
        cards_of_map(map, cards, out);
        proof {
            assert(ev.take(i + 1).last() == ev[i as int]);
        }
        i = i + 1;
    }
    assert(ev.take(n as int) =~= ev);
}

/// The listings of the map file.
pub fn collect_listings(maps: &Json) -> (r: Vec<(String, String)>)
    requires
        maps_ok(maps@),
    ensures
        r.deep_view() == listings(maps@),
{
    let mut out: Vec<(String, String)> = Vec::new();
    assert(out.deep_view() =~= Seq::empty());
    group_of_maps(maps.get("U1").unwrap(), &mut out);
    group_of_maps(maps.get("U2").unwrap(), &mut out);
    group_of_maps(maps.get("U3").unwrap(), &mut out);
    assert(out.deep_view() =~= listings(maps@));
    out
}

fn upgrade_record(map: &String) -> (r: Json)
    ensures
        r@ == upgrade_entry(map@),
{
    let mut entries: Vec<(String, Json)> = Vec::new();
    entries.push(("location".to_owned(), Json::Str(map.clone())));
    entries.push(("general".to_owned(), Json::Null));
    entries.push(("damage".to_owned(), Json::Null));
    entries.push(("health".to_owned(), Json::Null));
    entries.push(("power_cost".to_owned(), Json::Null));
    proof {
        Json::lemma_object_view(entries);
        assert(entries_view(entries@) =~= upgrade_entry(map@)->Object_0);
    }
    Json::Object(entries)
}

/// The upgrades object of a card from the listings.
pub fn build_upgrades(
    listed: &Vec<(String, String)>,
    name1: &String,
    key1: &String,
    name2: &String,
    key2: &String,
) -> (r: Vec<(String, Json)>)
    ensures
        entries_view(r@) == upgrades_fold(listed.deep_view(), name1@, key1@, name2@, key2@),
{
    let ghost lv = listed.deep_view();
    let ghost k2 = key2@;
    let n = listed.len();
    let mut acc: Vec<(String, Json)> = Vec::new();
    let mut i: usize = 0;
    proof {
        assert(lv.take(0) =~= ListingsView::empty());
        assert(entries_view(acc@) =~= Seq::empty());
    }
    while i < n
        invariant
            n == listed@.len(),
            lv == listed.deep_view(),
            i <= n,
            k2 == key2@,
            entries_view(acc@) == upgrades_fold(lv.take(i as int), name1@, key1@, name2@, k2),
        decreases n - i,
    {
        proof {
            assert(lv.take(i + 1).drop_last() =~= lv.take(i as int));
            assert(lv.take(i + 1).last() == (listed@[i as int].0@, listed@[i as int].1@));
        }
        let (map, card) = (&listed[i].0, &listed[i].1);
        if *card == *name1 {
            entries_insert_exec(&mut acc, key1.clone(), upgrade_record(map));
        }
        if *card == *name2 {
            entries_insert_exec(&mut acc, key2.clone(), upgrade_record(map));
        }
        i = i + 1;
    }
    proof {
        assert(lv.take(n as int) =~= lv);
    }
    acc
}

fn variant_name_exec(name: &str, variant: &str) -> (r: String)
    ensures
        r@ == variant_name(name@, variant@),
{
    let mut s = name.to_owned();
    s.append(" (");
    s.append(variant);
    s.append(")");
    s
}

fn levels_check(x: &Json) -> (r: bool)
    ensures
        r == levels_ok(x@),
{
    match x.as_array() {
        Some(items) => items.len() >= 4,
        None => false,
    }
}

fn group_check(group: &Json) -> (r: bool)
    ensures
        r == group_ok(group@),
{
    let entries = match group.as_object() {
        Some(e) => e,
        None => {
            return false;
        },
    };
    let ghost ev = entries_view(entries@);
    let n = entries.len();
    let mut i: usize = 0;
    while i < n
        invariant
            n == entries@.len(),
            ev == entries_view(entries@),
            ev == group@.as_object()->0,
            group@ is Object,
            i <= n,
            forall|k: int|
                0 <= k < i ==> {
                    let cards = (#[trigger] ev[k]).1;
                    &&& cards is Array
                    &&& forall|j: int|
                        0 <= j < cards.as_array()->0.len() ==> (
                        #[trigger] cards.as_array()->0[j]).as_str() is Some
                },
        decreases n - i,
    {
        assert(ev[i as int] == (entries@[i as int].0@, entries@[i as int].1@));
        let cards = match entries[i].1.as_array() {
            Some(c) => c,
            None => {
                return false;
            },
        };
        let ghost cv = items_view(cards@);
        let m = cards.len();
        let mut j: usize = 0;
        while j < m
            invariant
                m == cards@.len(),
                cv == items_view(cards@),
                ev == group@.as_object()->0,
                0 <= i < ev.len(),
                ev[i as int].1.as_array()->0 == cv,
                j <= m,
                forall|q: int| 0 <= q < j ==> (#[trigger] cv[q]).as_str() is Some,
            decreases m - j,
        {
            if cards[j].as_str().is_none() {
                assert(cv[j as int] == cards@[j as int]@);
                assert(group@.as_object()->0[i as int].1.as_array()->0[j as int].as_str() is None);
                return false;
            }
            j = j + 1;
        }
        i = i + 1;
    }
    true
}

/// Whether the map file has the three groups of maps, each map listing card names.
pub fn maps_check(maps: &Json) -> (r: bool)
    ensures
        r == maps_ok(maps@),
{
    match maps.get("U1") {
        Some(g) => if !group_check(g) {
            return false;
        },
        None => {
            return false;
        },
    }
    match maps.get("U2") {
        Some(g) => if !group_check(g) {
            return false;
        },
        None => {
            return false;
        },
    }
    match maps.get("U3") {
        Some(g) => group_check(g),
        None => false,
    }
}

/// Reshapes one stored card named `k`. Returns whether the card and the map file could be
/// read; only then is the card as stated.
pub fn reshape_card_exec(k: &str, v: &mut Json, maps: &Json) -> (ok: bool)
    ensures
        ok == card_ok(k@, old(v)@, maps@),
        ok ==> final(v)@ == reshape_card(k@, old(v)@, maps@),
{
    let ghost v0 = v@;
    if !v.is_object() {
        return false;
    }
    let variants_json = v.at("affinity_variants");
    let (name1, name2, key1, key2) = if variants_json.is_array() {
        let first = match variants_json.item(0) {
            Some(x) => match x.as_str() {
                Some(t) => t,
                None => {
                    return false;
                },
            },
            None => {
                return false;
            },
        };
        let second = match variants_json.item(1) {
            Some(x) => match x.as_str() {
                Some(t) => t,
                None => {
                    return false;
                },
            },
            None => {
                return false;
            },
        };
        (variant_name_exec(k, first), variant_name_exec(k, second), first.to_owned(), second.to_owned())
    } else {
        (
            k.to_owned(),
            "abcdefgh".to_owned(),
            "normal".to_owned(),
            match variants_json.at_item(1).as_str() {
                Some(t) => t.to_owned(),
                None => String::new(),
            },
        )
    };
    let second_readable = variants_json.at_item(1).as_str().is_some();
    assert(name1@ == first_name(k@, v0));
    assert(name2@ == second_name(k@, v0));
    assert(key1@ == first_key(v0));
    assert(key2@ == second_key(v0));
    match v.get("power_cost") {
        Some(x) => if !levels_check(x) {
            return false;
        },
        None => {
            return false;
        },
    }
    v.null_levels("power_cost");
    if !v.at("damage").is_null() {
        if !levels_check(v.at("damage")) {
            return false;
        }
        v.null_levels("damage");
    }
    if !v.at("health").is_null() {
        if !levels_check(v.at("health")) {
            return false;
        }
        v.null_levels("health");
    }
    let ghost v3 = v@;
    assert(v3 == after_levels(v0));
    let ty = match v.get("type") {
        Some(x) => match x.as_str() {
            Some(t) => t.to_owned(),
            None => {
                return false;
            },
        },
        None => {
            return false;
        },
    };
    if !str_eq(ty.as_str(), "Unit") {
        v.set_key("size", Json::Null);
        v.set_key("counter", Json::Null);
        v.set_key("weapon_type", Json::Null);
        if str_eq(ty.as_str(), "Spelling") {
            v.set_key("damage", Json::Null);
            v.set_key("health", Json::Null);
        }
    }
    assert(v@ == after_type(v3, ty@));
    if !maps_check(maps) {
        return false;
    }
    let listed = collect_listings(maps);
    if !second_readable {
        let n = listed.len();
        let mut i: usize = 0;
        while i < n
            invariant
                n == listed@.len(),
                listed.deep_view() == listings(maps@),
                name2@ == second_name(k@, v0),
                v0 == old(v)@,
                variants(v0).at_item(1).as_str() is None,
                i <= n,
                forall|j: int| 0 <= j < i ==> (#[trigger] listings(maps@)[j]).1 != name2@,
            decreases n - i,
        {
            assert(listed.deep_view()[i as int] == (listed@[i as int].0@, listed@[i as int].1@));
            if listed[i].1 == name2 {
                assert(listings(maps@)[i as int].1 == second_name(k@, v0));
                return false;
            }
            i = i + 1;
        }
    }
    if v.get("upgrades").is_none() {
        return false;
    }
    let upgrades = build_upgrades(&listed, &name1, &key1, &name2, &key2);
    proof {
        Json::lemma_object_view(upgrades);
    }
    v.set_key("upgrades", Json::Object(upgrades));
    true
}

/// Reshapes the stored card data: every card but `Satanael` is reshaped in place.
/// Returns whether the data and the map file could be read; only then is the data as
/// stated.
pub fn reshape_card_data_exec(data: &mut Json, maps: &Json) -> (ok: bool)
    ensures
        ok == card_data_ok(old(data)@, maps@),
        ok ==> final(data)@ == reshape_card_data(old(data)@, maps@),
{
    let ghost d0 = data@;
    match data {
        Json::Object(entries) => {
            proof {
                Json::lemma_object_view(*entries);
            }
            let ghost e0 = entries_view(entries@);
            let n = entries.len();
            let mut i: usize = 0;
            while i < n
                invariant
                    n == entries@.len(),
                    e0 == d0.as_object()->0,
                    d0 is Object,
                    d0 == old(data)@,
                    e0.len() == n,
                    i <= n,
                    forall|j: int|
                        0 <= j < i && !skipped_card(e0[j].0) ==> card_ok(
                            #[trigger] e0[j].0,
                            e0[j].1,
                            maps@,
                        ),
                    entries_view(entries@).len() == n,
                    forall|j: int|
                        0 <= j < n ==> #[trigger] entries_view(entries@)[j] == if j < i && !skipped_card(
                            e0[j].0,
                        ) {
                            (e0[j].0, reshape_card(e0[j].0, e0[j].1, maps@))
                        } else {
                            e0[j]
                        },
                decreases n - i,
            {
                let ghost before = entries_view(entries@);
                assert(before[i as int] == e0[i as int]);
                assert(e0[i as int] == d0.as_object()->0[i as int]);
                if !str_eq(entries[i].0.as_str(), "Satanael") {
                    let mut slot: (String, Json) = (String::new(), Json::Null);
                    entries.set_and_swap(i, &mut slot);
                    assert((slot.0@, slot.1@) == e0[i as int]);
                    assert(!skipped_card(e0[i as int].0));
                    if !reshape_card_exec(slot.0.as_str(), &mut slot.1, maps) {
                        assert(!card_ok(d0.as_object()->0[i as int].0, d0.as_object()->0[i as int].1, maps@));
                        assert(!skipped_card(d0.as_object()->0[i as int].0));
                        assert(!card_data_ok(d0, maps@));
                        return false;
                    }
                    let ghost new_entry = (slot.0@, slot.1@);
                    entries.set(i, slot);
                    proof {
                        assert(entries_view(entries@) =~= before.update(i as int, new_entry));
                    }
                }
                i = i + 1;
            }
            proof {
                Json::lemma_object_view(*entries);
                assert(entries_view(entries@) =~= reshape_card_data(d0, maps@)->Object_0);
                assert forall|j: int|
                    0 <= j < d0.as_object()->0.len() && !skipped_card(
                        d0.as_object()->0[j].0,
                    ) implies card_ok(#[trigger] d0.as_object()->0[j].0, d0.as_object()->0[j].1, maps@) by {
                    assert(e0[j] == d0.as_object()->0[j]);
                }
            }
            true
        },
        _ => false,
    }
}

} // verus!
