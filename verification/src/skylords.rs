//! The card data of Skylords Reborn: building the card index from the card base's
//! reply, where entries that share a name are merged into one card.
use vstd::prelude::*;
use crate::json::{items_view, Json, JsonView};
use crate::text::{
    chars_lt, contains, contains_text, decimal, i64_to_string, lemma_chars_lt_total, lemma_chars_lt_transitive,
    str_lt, strings_view,
};

verus! {

/// An ability of a card.
#[derive(Debug, Clone, PartialEq)]
pub struct Ability {
    pub name: String,
    pub typ: Option<String>,
    pub upgrade_dependency: i64,
    pub affinity_dependency: Option<String>,
    pub cost: Option<i64>,
    pub description: String,
    pub values: Option<Vec<Vec<i64>>>,
}

/// A card as the wiki describes it.
#[derive(Debug, Clone, PartialEq)]
pub struct Card {
    pub description: String,
    pub typ: String,
    pub edition: String,
    pub rarity: String,
    pub affinity_variants: Vec<String>,
    pub orbs: Vec<String>,
    pub power_cost: Vec<i64>,
    pub weapon_type: String,
    pub charges: i64,
    pub squadsize: i64,
    pub class: String,
    pub counter: String,
    pub size: String,
    pub damage: Option<Vec<i64>>,
    pub health: Option<Vec<i64>>,
    pub abilities: Vec<Ability>,
    pub upgrades: Vec<String>,
}

/// The model of an ability.
pub struct AbilityView {
    pub name: Seq<char>,
    pub typ: Option<Seq<char>>,
    pub upgrade_dependency: i64,
    pub affinity_dependency: Option<Seq<char>>,
    pub cost: Option<i64>,
    pub description: Seq<char>,
    pub values: Option<Seq<Seq<i64>>>,
}

/// The model of a card.
pub struct CardView {
    pub description: Seq<char>,
    pub typ: Seq<char>,
    pub edition: Seq<char>,
    pub rarity: Seq<char>,
    pub affinity_variants: Seq<Seq<char>>,
    pub orbs: Seq<Seq<char>>,
    pub power_cost: Seq<i64>,
    pub weapon_type: Seq<char>,
    pub charges: i64,
    pub squadsize: i64,
    pub class: Seq<char>,
    pub counter: Seq<char>,
    pub size: Seq<char>,
    pub damage: Option<Seq<i64>>,
    pub health: Option<Seq<i64>>,
    pub abilities: Seq<AbilityView>,
    pub upgrades: Seq<Seq<char>>,
}

pub open spec fn opt_string_view(o: Option<String>) -> Option<Seq<char>> {
    match o {
        Some(s) => Some(s@),
        None => None,
    }
}

pub open spec fn opt_ints_view(o: Option<Vec<i64>>) -> Option<Seq<i64>> {
    match o {
        Some(v) => Some(v@),
        None => None,
    }
}

pub open spec fn opt_rows_view(o: Option<Vec<Vec<i64>>>) -> Option<Seq<Seq<i64>>> {
    match o {
        Some(v) => Some(Seq::new(v@.len(), |i: int| v@[i]@)),
        None => None,
    }
}

impl View for Ability {
    type V = AbilityView;

    open spec fn view(&self) -> AbilityView {
        AbilityView {
            name: self.name@,
            typ: opt_string_view(self.typ),
            upgrade_dependency: self.upgrade_dependency,
            affinity_dependency: opt_string_view(self.affinity_dependency),
            cost: self.cost,
            description: self.description@,
            values: opt_rows_view(self.values),
        }
    }
}

pub open spec fn abilities_view(v: Seq<Ability>) -> Seq<AbilityView> {
    Seq::new(v.len(), |i: int| v[i]@)
}

impl View for Card {
    type V = CardView;

    open spec fn view(&self) -> CardView {
        CardView {
            description: self.description@,
            typ: self.typ@,
            edition: self.edition@,
            rarity: self.rarity@,
            affinity_variants: strings_view(self.affinity_variants@),
            orbs: strings_view(self.orbs@),
            power_cost: self.power_cost@,
            weapon_type: self.weapon_type@,
            charges: self.charges,
            squadsize: self.squadsize,
            class: self.class@,
            counter: self.counter@,
            size: self.size@,
            damage: opt_ints_view(self.damage),
            health: opt_ints_view(self.health),
            abilities: abilities_view(self.abilities@),
            upgrades: strings_view(self.upgrades@),
        }
    }
}

/// The empty ability.
pub open spec fn empty_ability() -> AbilityView {
    AbilityView {
        name: Seq::empty(),
        typ: None,
        upgrade_dependency: 0,
        affinity_dependency: None,
        cost: None,
        description: Seq::empty(),
        values: None,
    }
}

/// The empty card.
pub open spec fn empty_card() -> CardView {
    CardView {
        description: Seq::empty(),
        typ: Seq::empty(),
        edition: Seq::empty(),
        rarity: Seq::empty(),
        affinity_variants: Seq::empty(),
        orbs: Seq::empty(),
        power_cost: Seq::empty(),
        weapon_type: Seq::empty(),
        charges: 0,
        squadsize: 0,
        class: Seq::empty(),
        counter: Seq::empty(),
        size: Seq::empty(),
        damage: None,
        health: None,
        abilities: Seq::empty(),
        upgrades: Seq::empty(),
    }
}

impl Default for Ability {
    fn default() -> (r: Self)
        ensures
            r@ == empty_ability(),
    {
        Ability {
            name: String::new(),
            typ: None,
            upgrade_dependency: 0,
            affinity_dependency: None,
            cost: None,
            description: String::new(),
            values: None,
        }
    }
}

impl Default for Card {
    fn default() -> (r: Self)
        ensures
            r@ == empty_card(),
    {
        let r = Card {
            description: String::new(),
            typ: String::new(),
            edition: String::new(),
            rarity: String::new(),
            affinity_variants: Vec::new(),
            orbs: Vec::new(),
            power_cost: Vec::new(),
            weapon_type: String::new(),
            charges: 0,
            squadsize: 0,
            class: String::new(),
            counter: String::new(),
            size: String::new(),
            damage: None,
            health: None,
            abilities: Vec::new(),
            upgrades: Vec::new(),
        };
        assert(r@.affinity_variants =~= Seq::empty());
        assert(r@.orbs =~= Seq::empty());
        assert(r@.abilities =~= Seq::empty());
        assert(r@.upgrades =~= Seq::empty());
        r
    }
}

// ---------------------------------------------------------------------------------
// Reading the fields of a card base entry.
pub open spec fn str_of(o: Option<JsonView>) -> Option<Seq<char>> {
    match o {
        Some(v) => v.as_str(),
        None => None,
    }
}

pub open spec fn i64_of(o: Option<JsonView>) -> Option<i64> {
    match o {
        Some(v) => v.as_i64(),
        None => None,
    }
}

pub open spec fn bool_of(o: Option<JsonView>) -> Option<bool> {
    match o {
        Some(v) => v.as_bool(),
        None => None,
    }
}

/// The name of an entry.
pub open spec fn name_of(v: JsonView) -> Option<Seq<char>> {
    str_of(v.get("Name"@))
}

/// The abilities listed by an entry.
pub open spec fn abilities_of(v: JsonView) -> Seq<JsonView> {
    v.get("Abilities"@)->0.as_array()->0
}

// ---------------------------------------------------------------------------------
// The names that the card base's codes stand for.
/// The rarity: 0 to 3 are named, other numbers are written out, a missing number is empty.
pub open spec fn rarity_name(x: Option<i64>) -> Seq<char> {
    match x {
        Some(0) => "Common"@,
        Some(1) => "Uncommon"@,
        Some(2) => "Rare"@,
        Some(3) => "Ultra Rare"@,
        Some(n) => decimal(n as int),
        None => Seq::empty(),
    }
}

/// The edition: 1, 2, 4 and 8 are named, other numbers are written out.
pub open spec fn edition_name(x: Option<i64>) -> Seq<char> {
    match x {
        Some(1) => "Twilight"@,
        Some(2) => "Renegade"@,
        Some(4) => "Lost Souls"@,
        Some(8) => "Amii"@,
        Some(n) => decimal(n as int),
        None => Seq::empty(),
    }
}

/// The card type: 0, 2 and 3 are named, other numbers are written out.
pub open spec fn card_type_name(x: Option<i64>) -> Seq<char> {
    match x {
        Some(0) => "Spell"@,
        Some(2) => "Unit"@,
        Some(3) => "Building"@,
        Some(n) => decimal(n as int),
        None => Seq::empty(),
    }
}

/// The affinity that an additional entry of a card adds: 0 to 3 are named.
pub open spec fn affinity_name(x: Option<i64>) -> Option<Seq<char>> {
    match x {
        Some(0) => Some("Frost"@),
        Some(1) => Some("Fire"@),
        Some(2) => Some("Nature"@),
        Some(3) => Some("Shadow"@),
        _ => None,
    }
}

/// The affinity variants of a new card: none for -1 or a missing number, the name for
/// 0 to 3, the number written out otherwise.
pub open spec fn affinity_variants_of(x: Option<i64>) -> Seq<Seq<char>> {
    match x {
        Some(-1) => Seq::empty(),
        Some(0) => seq!["Frost"@],
        Some(1) => seq!["Fire"@],
        Some(2) => seq!["Nature"@],
        Some(3) => seq!["Shadow"@],
        Some(n) => seq![decimal(n as int)],
        None => Seq::empty(),
    }
}

/// The unit size for a defense type.
pub open spec fn size_name(x: Option<i64>) -> Seq<char> {
    match x {
        Some(0) => "S"@,
        Some(1) => "M"@,
        Some(2) => "L"@,
        Some(3) => "XL"@,
        Some(4) => "Building"@,
        _ => Seq::empty(),
    }
}

/// The size that a unit counters, for an offense type.
pub open spec fn counter_name(x: Option<i64>) -> Seq<char> {
    match x {
        Some(0) => "S"@,
        Some(1) => "M"@,
        Some(2) => "L"@,
        Some(3) => "XL"@,
        Some(4) => "Special"@,
        _ => Seq::empty(),
    }
}

/// A value for every upgrade level: absent for 0 or a missing number.
pub open spec fn per_level(x: Option<i64>) -> Option<Seq<i64>> {
    match x {
        Some(0) => None,
        Some(n) => Some(seq![n, n, n, n]),
        None => None,
    }
}

/// `n` copies of `s`.
pub open spec fn repeat(s: Seq<char>, n: int) -> Seq<Seq<char>> {
    Seq::new(if n < 0 { 0 } else { n as nat }, |i: int| s)
}

/// How many orbs of a colour the orb info asks for.
pub open spec fn orb_count(orbs: JsonView, colour: Seq<char>) -> int {
    i64_of(orbs.get(colour))->0 as int
}

/// The orbs of a card: the colours in the order Frost, Nature, Shadow, Fire, Neutral,
/// each as often as the orb info says.
pub open spec fn orbs_of(orbs: JsonView) -> Seq<Seq<char>> {
    repeat("Frost"@, orb_count(orbs, "Frost"@)) + repeat("Nature"@, orb_count(orbs, "Nature"@))
        + repeat("Shadow"@, orb_count(orbs, "Shadow"@)) + repeat("Fire"@, orb_count(orbs, "Fire"@))
        + repeat("Neutral"@, orb_count(orbs, "Neutral"@))
}

// ---------------------------------------------------------------------------------
// Abilities.
/// An ability entry that can be read: its name, power and description are present.
pub open spec fn ability_source_ok(a: JsonView) -> bool {
    &&& str_of(a.get("Name"@)) is Some
    &&& i64_of(a.get("Power"@)) is Some
    &&& str_of(a.get("Description"@)) is Some
}

/// The ability an ability entry describes: a power of 0 means no cost.
pub open spec fn ability_from(a: JsonView) -> AbilityView {
    let power = i64_of(a.get("Power"@))->0;
    AbilityView {
        name: str_of(a.get("Name"@))->0,
        typ: None,
        upgrade_dependency: 0,
        affinity_dependency: None,
        cost: if power != 0 {
            Some(power)
        } else {
            None
        },
        description: str_of(a.get("Description"@))->0,
        values: None,
    }
}

/// Some ability has the name.
pub open spec fn has_ability(abilities: Seq<AbilityView>, name: Seq<char>) -> bool {
    exists|k: int| 0 <= k < abilities.len() && abilities[k].name == name
}

/// The abilities after merging ability entries in order: an entry whose name is
/// already present is skipped.
pub open spec fn merged_abilities(abilities: Seq<AbilityView>, src: Seq<JsonView>) -> Seq<
    AbilityView,
>
    decreases src.len(),
{
    if src.len() == 0 {
        abilities
    } else {
        let prev = merged_abilities(abilities, src.drop_last());
        let a = src.last();
        if has_ability(prev, str_of(a.get("Name"@))->0) {
            prev
        } else {
            prev.push(ability_from(a))
        }
    }
}

/// The ability entries can be merged: each has a name, and those that are not skipped
/// can be read.
pub open spec fn merge_abilities_ok(abilities: Seq<AbilityView>, src: Seq<JsonView>) -> bool
    decreases src.len(),
{
    src.len() == 0 || {
        let prev = merged_abilities(abilities, src.drop_last());
        let a = src.last();
        &&& merge_abilities_ok(abilities, src.drop_last())
        &&& str_of(a.get("Name"@)) is Some
        &&& !has_ability(prev, str_of(a.get("Name"@))->0) ==> ability_source_ok(a)
    }
}

// ---------------------------------------------------------------------------------
// Cards.
/// An entry from which a new card can be built: every field that is read is present,
/// and those that are read as numbers, flags, texts or lists are such.
pub open spec fn new_card_ok(v: JsonView) -> bool {
    let orbs = v.get("OrbInfo"@);
    &&& v.get("Rarity"@) is Some
    &&& i64_of(v.get("Cost"@)) is Some
    &&& v.get("Edition"@) is Some
    &&& v.get("Type"@) is Some
    &&& v.get("Affinity"@) is Some
    &&& i64_of(v.get("OffenseType"@)) is Some
    &&& i64_of(v.get("OffenseType"@))->0 != 4 ==> bool_of(v.get("IsRanged"@)) is Some
    &&& v.get("Defense"@) is Some
    &&& v.get("Offense"@) is Some
    &&& v.get("DefenseType"@) is Some
    &&& i64_of(v.get("UnitCount"@)) is Some
    &&& i64_of(v.get("ChargeCount"@)) is Some
    &&& str_of(v.get("Category"@)) is Some
    &&& orbs is Some
    &&& orbs->0 is Object
    &&& i64_of(orbs->0.get("Frost"@)) is Some
    &&& i64_of(orbs->0.get("Nature"@)) is Some
    &&& i64_of(orbs->0.get("Shadow"@)) is Some
    &&& i64_of(orbs->0.get("Fire"@)) is Some
    &&& i64_of(orbs->0.get("Neutral"@)) is Some
    &&& v.get("Abilities"@) is Some
    &&& v.get("Abilities"@)->0 is Array
    &&& forall|i: int|
        0 <= i < abilities_of(v).len() ==> ability_source_ok(#[trigger] abilities_of(v)[i])
}

/// The card that the first entry with a name describes.
pub open spec fn new_card(v: JsonView) -> CardView {
    let cost = i64_of(v.get("Cost"@))->0;
    let offense_type = i64_of(v.get("OffenseType"@));
    let src = abilities_of(v);
    CardView {
        description: Seq::empty(),
        typ: card_type_name(i64_of(v.get("Type"@))),
        edition: edition_name(i64_of(v.get("Edition"@))),
        rarity: rarity_name(i64_of(v.get("Rarity"@))),
        affinity_variants: affinity_variants_of(i64_of(v.get("Affinity"@))),
        orbs: orbs_of(v.get("OrbInfo"@)->0),
        power_cost: seq![cost, cost, cost, cost],
        weapon_type: if offense_type->0 == 4 {
            "Special"@
        } else if bool_of(v.get("IsRanged"@))->0 {
            "Ranged"@
        } else {
            "Melee"@
        },
        charges: i64_of(v.get("ChargeCount"@))->0,
        squadsize: i64_of(v.get("UnitCount"@))->0,
        class: str_of(v.get("Category"@))->0,
        counter: counter_name(offense_type),
        size: size_name(i64_of(v.get("DefenseType"@))),
        damage: per_level(i64_of(v.get("Offense"@))),
        health: per_level(i64_of(v.get("Defense"@))),
        abilities: Seq::new(src.len(), |i: int| ability_from(src[i])),
        upgrades: Seq::empty(),
    }
}

/// A further entry with the name of a known card can be merged into it.
pub open spec fn merge_card_ok(c: CardView, v: JsonView) -> bool {
    &&& v.get("Affinity"@) is Some
    &&& v.get("Abilities"@) is Some
    &&& v.get("Abilities"@)->0 is Array
    &&& merge_abilities_ok(c.abilities, abilities_of(v))
}

/// A card with a further entry merged in: its affinity (0 to 3) is added as a variant,
/// and its abilities whose names are new are added.
pub open spec fn merge_card(c: CardView, v: JsonView) -> CardView {
    CardView {
        affinity_variants: match affinity_name(i64_of(v.get("Affinity"@))) {
            Some(a) => c.affinity_variants.push(a),
            None => c.affinity_variants,
        },
        abilities: merged_abilities(c.abilities, abilities_of(v)),
        ..c
    }
}

/// The model of a card index: names and cards, in the order the names first appeared.
pub type CardIndexView = Seq<(Seq<char>, CardView)>;

pub open spec fn index_view(v: Seq<(String, Card)>) -> CardIndexView {
    Seq::new(v.len(), |i: int| (v[i].0@, v[i].1@))
}

/// Some card of the index has the name.
pub open spec fn has_card(idx: CardIndexView, name: Seq<char>) -> bool {
    exists|i: int| 0 <= i < idx.len() && idx[i].0 == name
}

/// The position of the card with the name.
pub open spec fn card_pos(idx: CardIndexView, name: Seq<char>) -> int {
    choose|i: int| 0 <= i < idx.len() && idx[i].0 == name
}

/// The names of promotional entries contain `(promo)`.
pub open spec fn is_promo(name: Seq<char>) -> bool {
    contains_text(name, "(promo)"@)
}

/// The index after one entry: promotional entries are skipped, an entry with a known
/// name is merged into that card, any other entry adds a card.
pub open spec fn card_step(idx: CardIndexView, v: JsonView) -> CardIndexView {
    let name = name_of(v)->0;
    if is_promo(name) {
        idx
    } else if has_card(idx, name) {
        let p = card_pos(idx, name);
        idx.update(p, (name, merge_card(idx[p].1, v)))
    } else {
        idx.push((name, new_card(v)))
    }
}

/// One entry can be processed against the index.
pub open spec fn card_step_ok(idx: CardIndexView, v: JsonView) -> bool {
    let name = name_of(v)->0;
    &&& name_of(v) is Some
    &&& !is_promo(name) ==> if has_card(idx, name) {
        merge_card_ok(idx[card_pos(idx, name)].1, v)
    } else {
        new_card_ok(v)
    }
}

/// The card index of a sequence of card base entries, processed in order.
pub open spec fn card_index(entries: Seq<JsonView>) -> CardIndexView
    decreases entries.len(),
{
    if entries.len() == 0 {
        Seq::empty()
    } else {
        card_step(card_index(entries.drop_last()), entries.last())
    }
}

/// Every entry can be processed against the index built from the entries before it.
pub open spec fn card_entries_ok(entries: Seq<JsonView>) -> bool
    decreases entries.len(),
{
    entries.len() == 0 || {
        &&& card_entries_ok(entries.drop_last())
        &&& card_step_ok(card_index(entries.drop_last()), entries.last())
    }
}

/// No name occurs twice in the index.
pub open spec fn names_distinct(idx: CardIndexView) -> bool {
    forall|i: int, j: int| 0 <= i < idx.len() && 0 <= j < idx.len() && i != j ==> idx[i].0 != idx[j].0
}

/// The card base's reply can be processed: its `Result` is a list of entries that can.
pub open spec fn card_reply_ok(reply: JsonView) -> bool {
    &&& reply.get("Result"@) is Some
    &&& reply.get("Result"@)->0 is Array
    &&& card_entries_ok(reply.get("Result"@)->0.as_array()->0)
}

/// The card index of the card base's reply.
pub open spec fn card_reply_index(reply: JsonView) -> CardIndexView {
    card_index(reply.get("Result"@)->0.as_array()->0)
}

// ---------------------------------------------------------------------------------
// Laws.
/// The checks of a prefix of the entries hold once those of all entries do.
pub proof fn lemma_card_entries_ok_prefix(entries: Seq<JsonView>, k: int)
    requires
        card_entries_ok(entries),
        0 <= k <= entries.len(),
    ensures
        card_entries_ok(entries.take(k)),
    decreases entries.len() - k,
{
    if k == entries.len() {
        assert(entries.take(k) =~= entries);
    } else {
        lemma_card_entries_ok_prefix(entries, k + 1);
        assert(entries.take(k + 1).drop_last() =~= entries.take(k));
    }
}

/// The checks of a prefix of the ability entries hold once those of all do.
pub proof fn lemma_merge_abilities_ok_prefix(abilities: Seq<AbilityView>, src: Seq<JsonView>, k: int)
    requires
        merge_abilities_ok(abilities, src),
        0 <= k <= src.len(),
    ensures
        merge_abilities_ok(abilities, src.take(k)),
    decreases src.len() - k,
{
    if k == src.len() {
        assert(src.take(k) =~= src);
    } else {
        lemma_merge_abilities_ok_prefix(abilities, src, k + 1);
        assert(src.take(k + 1).drop_last() =~= src.take(k));
    }
}

/// Each name occurs at most once in the card index, and no promotional entry is in it.
pub proof fn lemma_card_index_names(entries: Seq<JsonView>)
    ensures
        names_distinct(card_index(entries)),
        forall|i: int| 0 <= i < card_index(entries).len() ==> !is_promo(#[trigger] card_index(entries)[i].0),
    decreases entries.len(),
{
    if entries.len() > 0 {
        lemma_card_index_names(entries.drop_last());
        let prev = card_index(entries.drop_last());
        let name = name_of(entries.last())->0;
        if !is_promo(name) && has_card(prev, name) {
            let p = card_pos(prev, name);
            assert(0 <= p < prev.len() && prev[p].0 == name);
        }
    }
}

/// Merging keeps every ability that was there, and adds one only under a name that was
/// not yet present.
pub proof fn lemma_merged_abilities_grow(abilities: Seq<AbilityView>, src: Seq<JsonView>)
    ensures
        merged_abilities(abilities, src).len() >= abilities.len(),
        forall|i: int| 0 <= i < abilities.len() ==> #[trigger] merged_abilities(abilities, src)[i] == abilities[i],
    decreases src.len(),
{
    if src.len() > 0 {
        lemma_merged_abilities_grow(abilities, src.drop_last());
    }
}

/// Law: every entry that is not promotional has a card under its name in the index.
pub proof fn law_card_index_complete(entries: Seq<JsonView>)
    ensures
        forall|i: int|
            0 <= i < entries.len() && name_of(#[trigger] entries[i]) is Some && !is_promo(
                name_of(entries[i])->0,
            ) ==> has_card(card_index(entries), name_of(entries[i])->0),
    decreases entries.len(),
{
    if entries.len() > 0 {
        let prefix = entries.drop_last();
        law_card_index_complete(prefix);
        let prev = card_index(prefix);
        let idx = card_index(entries);
        let last = entries.last();
        let lname = name_of(last)->0;
        assert forall|i: int|
            0 <= i < entries.len() && name_of(#[trigger] entries[i]) is Some && !is_promo(
                name_of(entries[i])->0,
            ) implies has_card(idx, name_of(entries[i])->0) by {
            let name = name_of(entries[i])->0;
            if i < entries.len() - 1 {
                assert(entries[i] == prefix[i]);
                let w = choose|k: int| 0 <= k < prev.len() && prev[k].0 == name;
                if !is_promo(lname) && has_card(prev, lname) {
                    let p = card_pos(prev, lname);
                    assert(idx[w].0 == name);
                } else if !is_promo(lname) {
                    assert(idx[w].0 == name);
                }
            } else {
                if has_card(prev, lname) {
                    let p = card_pos(prev, lname);
                    assert(idx[p].0 == name);
                } else {
                    assert(idx[prev.len() as int].0 == name);
                }
            }
        }
    }
}

/// Law: every card of the index carries the name of some entry.
pub proof fn law_card_index_sound(entries: Seq<JsonView>)
    ensures
        forall|j: int|
            0 <= j < card_index(entries).len() ==> exists|i: int|
                0 <= i < entries.len() && name_of(entries[i])->0 == (
                #[trigger] card_index(entries)[j]).0,
    decreases entries.len(),
{
    if entries.len() > 0 {
        let prefix = entries.drop_last();
        law_card_index_sound(prefix);
        let prev = card_index(prefix);
        let idx = card_index(entries);
        let last = entries.last();
        let lname = name_of(last)->0;
        assert forall|j: int| 0 <= j < idx.len() implies exists|i: int|
            0 <= i < entries.len() && name_of(entries[i])->0 == (#[trigger] idx[j]).0 by {
            if j < prev.len() {
                let i = choose|i: int| 0 <= i < prefix.len() && name_of(prefix[i])->0 == prev[j].0;
                assert(entries[i] == prefix[i]);
                if !is_promo(lname) && has_card(prev, lname) {
                    let p = card_pos(prev, lname);
                    if j == p {
                        assert(name_of(entries[entries.len() - 1])->0 == idx[j].0);
                    } else {
                        assert(name_of(entries[i])->0 == idx[j].0);
                    }
                } else {
                    assert(name_of(entries[i])->0 == idx[j].0);
                }
            } else {
                assert(name_of(entries[entries.len() - 1])->0 == idx[j].0);
            }
        }
    }
}

/// Law: after merging, every ability entry's name is among the abilities.
pub proof fn law_merge_covers_names(abilities: Seq<AbilityView>, src: Seq<JsonView>)
    ensures
        forall|j: int|
            0 <= j < src.len() ==> has_ability(
                merged_abilities(abilities, src),
                str_of((#[trigger] src[j]).get("Name"@))->0,
            ),
    decreases src.len(),
{
    if src.len() > 0 {
        let prefix = src.drop_last();
        law_merge_covers_names(abilities, prefix);
        lemma_merged_abilities_grow(abilities, prefix);
        let prev = merged_abilities(abilities, prefix);
        let merged = merged_abilities(abilities, src);
        assert forall|j: int| 0 <= j < src.len() implies has_ability(
            merged,
            str_of((#[trigger] src[j]).get("Name"@))->0,
        ) by {
            let name = str_of(src[j].get("Name"@))->0;
            if j < src.len() - 1 {
                assert(src[j] == prefix[j]);
                let k = choose|k: int| 0 <= k < prev.len() && prev[k].name == name;
                assert(merged[k] == prev[k]);
            } else if !has_ability(prev, name) {
                assert(merged[prev.len() as int].name == name);
            } else {
                let k = choose|k: int| 0 <= k < prev.len() && prev[k].name == name;
                assert(merged[k] == prev[k]);
            }
        }
    }
}

/// Two lists of card base entries that agree entry by entry, except that an entry whose
/// name an earlier entry already had may differ in every field but its name, affinity
/// and abilities.
pub open spec fn agree_but_later_fields(e: Seq<JsonView>, e2: Seq<JsonView>) -> bool {
    &&& e.len() == e2.len()
    &&& forall|i: int| 0 <= i < e.len() ==> #[trigger] name_of(e2[i]) == name_of(e[i])
    &&& forall|i: int|
        0 <= i < e.len() ==> if has_card(card_index(e.take(i)), name_of(#[trigger] e[i])->0) {
            e2[i].get("Affinity"@) == e[i].get("Affinity"@) && e2[i].get("Abilities"@) == e[i].get(
                "Abilities"@,
            )
        } else {
            e2[i] == e[i]
        }
}

/// Law: of an entry whose name an earlier entry already had, only the affinity and the
/// abilities are read: every other field of a card comes from the first entry with its
/// name, and changing those fields of later entries changes neither the index nor
/// whether it can be built.
pub proof fn law_later_entries_add_only_affinity_and_abilities(e: Seq<JsonView>, e2: Seq<JsonView>)
    requires
        agree_but_later_fields(e, e2),
    ensures
        card_index(e2) == card_index(e),
        card_entries_ok(e) ==> card_entries_ok(e2),
    decreases e.len(),
{
    if e.len() > 0 {
        let n = e.len() - 1;
        let p = e.drop_last();
        let p2 = e2.drop_last();
        assert forall|i: int| 0 <= i < p.len() implies p.take(i) == e.take(i) by {
            assert(p.take(i) =~= e.take(i));
        }
        assert forall|i: int| 0 <= i < p.len() implies #[trigger] name_of(p2[i]) == name_of(p[i]) by {
            assert(p2[i] == e2[i] && p[i] == e[i]);
        }
        assert forall|i: int| 0 <= i < p.len() implies if has_card(
            card_index(p.take(i)),
            name_of(#[trigger] p[i])->0,
        ) {
            p2[i].get("Affinity"@) == p[i].get("Affinity"@) && p2[i].get("Abilities"@) == p[i].get(
                "Abilities"@,
            )
        } else {
            p2[i] == p[i]
        } by {
            assert(p2[i] == e2[i] && p[i] == e[i]);
            assert(p.take(i) == e.take(i));
        }
        law_later_entries_add_only_affinity_and_abilities(p, p2);
        assert(e.take(n) =~= p);
        assert(name_of(e2[n]) == name_of(e[n]));
        assert(e.last() == e[n] && e2.last() == e2[n]);
        let idx = card_index(p);
        let name = name_of(e[n])->0;
        if has_card(idx, name) {
            assert(abilities_of(e2[n]) == abilities_of(e[n]));
            assert(merge_card(idx[card_pos(idx, name)].1, e2[n]) == merge_card(
                idx[card_pos(idx, name)].1,
                e[n],
            ));
        }
    }
}

/// Law: the codes of a card base entry name the fields of the card built from it:
/// editions 1, 2, 4, 8 are Twilight, Renegade, Lost Souls and Amii; rarities 0 to 3 are
/// Common, Uncommon, Rare and Ultra Rare; types 0, 2, 3 are Spell, Unit and Building;
/// affinities 0 to 3 are Frost, Fire, Nature and Shadow (-1: none), both for a new card
/// and for one that a further entry is merged into; defense types 0 to 4 give the sizes
/// S, M, L, XL and Building; offense types 0 to 4 give the countered sizes S, M, L, XL and
/// Special, and offense type 4 a special weapon.
pub proof fn law_card_codes(v: JsonView, c: CardView)
    ensures
        i64_of(v.get("Edition"@)) == Some(1i64) ==> new_card(v).edition == "Twilight"@,
        i64_of(v.get("Edition"@)) == Some(2i64) ==> new_card(v).edition == "Renegade"@,
        i64_of(v.get("Edition"@)) == Some(4i64) ==> new_card(v).edition == "Lost Souls"@,
        i64_of(v.get("Edition"@)) == Some(8i64) ==> new_card(v).edition == "Amii"@,
        i64_of(v.get("Rarity"@)) == Some(0i64) ==> new_card(v).rarity == "Common"@,
        i64_of(v.get("Rarity"@)) == Some(1i64) ==> new_card(v).rarity == "Uncommon"@,
        i64_of(v.get("Rarity"@)) == Some(2i64) ==> new_card(v).rarity == "Rare"@,
        i64_of(v.get("Rarity"@)) == Some(3i64) ==> new_card(v).rarity == "Ultra Rare"@,
        i64_of(v.get("Type"@)) == Some(0i64) ==> new_card(v).typ == "Spell"@,
        i64_of(v.get("Type"@)) == Some(2i64) ==> new_card(v).typ == "Unit"@,
        i64_of(v.get("Type"@)) == Some(3i64) ==> new_card(v).typ == "Building"@,
        i64_of(v.get("Affinity"@)) == Some(-1i64) ==> new_card(v).affinity_variants == Seq::<Seq<char>>::empty(),
        i64_of(v.get("Affinity"@)) == Some(0i64) ==> new_card(v).affinity_variants == seq!["Frost"@]
            && merge_card(c, v).affinity_variants == c.affinity_variants.push("Frost"@),
        i64_of(v.get("Affinity"@)) == Some(1i64) ==> new_card(v).affinity_variants == seq!["Fire"@]
            && merge_card(c, v).affinity_variants == c.affinity_variants.push("Fire"@),
        i64_of(v.get("Affinity"@)) == Some(2i64) ==> new_card(v).affinity_variants == seq!["Nature"@]
            && merge_card(c, v).affinity_variants == c.affinity_variants.push("Nature"@),
        i64_of(v.get("Affinity"@)) == Some(3i64) ==> new_card(v).affinity_variants == seq!["Shadow"@]
            && merge_card(c, v).affinity_variants == c.affinity_variants.push("Shadow"@),
        i64_of(v.get("DefenseType"@)) == Some(0i64) ==> new_card(v).size == "S"@,
        i64_of(v.get("DefenseType"@)) == Some(1i64) ==> new_card(v).size == "M"@,
        i64_of(v.get("DefenseType"@)) == Some(2i64) ==> new_card(v).size == "L"@,
        i64_of(v.get("DefenseType"@)) == Some(3i64) ==> new_card(v).size == "XL"@,
        i64_of(v.get("DefenseType"@)) == Some(4i64) ==> new_card(v).size == "Building"@,
        i64_of(v.get("OffenseType"@)) == Some(0i64) ==> new_card(v).counter == "S"@,
        i64_of(v.get("OffenseType"@)) == Some(1i64) ==> new_card(v).counter == "M"@,
        i64_of(v.get("OffenseType"@)) == Some(2i64) ==> new_card(v).counter == "L"@,
        i64_of(v.get("OffenseType"@)) == Some(3i64) ==> new_card(v).counter == "XL"@,
        i64_of(v.get("OffenseType"@)) == Some(4i64) ==> new_card(v).counter == "Special"@
            && new_card(v).weapon_type == "Special"@,
        i64_of(v.get("OffenseType"@)) matches Some(o) && o != 4 && bool_of(v.get("IsRanged"@)) == Some(true)
            ==> new_card(v).weapon_type == "Ranged"@,
        i64_of(v.get("OffenseType"@)) matches Some(o) && o != 4 && bool_of(v.get("IsRanged"@)) == Some(false)
            ==> new_card(v).weapon_type == "Melee"@,
        i64_of(v.get("Cost"@)) matches Some(n) ==> new_card(v).power_cost == seq![n, n, n, n],
        i64_of(v.get("Offense"@)) matches Some(n) ==> new_card(v).damage == if n == 0 {
            None
        } else {
            Some(seq![n, n, n, n])
        },
        i64_of(v.get("Defense"@)) matches Some(n) ==> new_card(v).health == if n == 0 {
            None
        } else {
            Some(seq![n, n, n, n])
        },
        i64_of(v.get("Power"@)) matches Some(n) ==> ability_from(v).cost == if n == 0 {
            None
        } else {
            Some(n)
        } && ability_from(v).name == str_of(v.get("Name"@))->0 && ability_from(v).description == str_of(
            v.get("Description"@),
        )->0 && ability_from(v).values is None,
{
}

/// The fields of a card that only the first entry with its name gives: all but the
/// affinity variants and the abilities.
pub open spec fn same_first_fields(a: CardView, b: CardView) -> bool {
    &&& a.description == b.description
    &&& a.typ == b.typ
    &&& a.edition == b.edition
    &&& a.rarity == b.rarity
    &&& a.orbs == b.orbs
    &&& a.power_cost == b.power_cost
    &&& a.weapon_type == b.weapon_type
    &&& a.charges == b.charges
    &&& a.squadsize == b.squadsize
    &&& a.class == b.class
    &&& a.counter == b.counter
    &&& a.size == b.size
    &&& a.damage == b.damage
    &&& a.health == b.health
    &&& a.upgrades == b.upgrades
}

/// Law: the card that the index holds for a name has, but for its affinity variants and
/// abilities, exactly the fields of the card built from the first entry with that name.
pub proof fn law_card_index_first_entry(entries: Seq<JsonView>, i: int)
    requires
        0 <= i < entries.len(),
        forall|k: int| 0 <= k < entries.len() ==> name_of(#[trigger] entries[k]) is Some,
        !is_promo(name_of(entries[i])->0),
        forall|k: int| 0 <= k < i ==> name_of(#[trigger] entries[k]) != name_of(entries[i]),
    ensures
        has_card(card_index(entries), name_of(entries[i])->0),
        forall|p: int|
            0 <= p < card_index(entries).len() && (#[trigger] card_index(entries)[p]).0 == name_of(
                entries[i],
            )->0 ==> same_first_fields(card_index(entries)[p].1, new_card(entries[i])),
    decreases entries.len(),
{
    let n = name_of(entries[i])->0;
    let prefix = entries.drop_last();
    let idx = card_index(prefix);
    let e = entries.last();
    let m = name_of(e)->0;
    let after = card_index(entries);
    if i == entries.len() - 1 {
        law_card_index_sound(prefix);
        if has_card(idx, n) {
            let q = choose|q: int| 0 <= q < idx.len() && idx[q].0 == n;
            let k = choose|k: int| 0 <= k < prefix.len() && name_of(prefix[k])->0 == (#[trigger] idx[q]).0;
            assert(prefix[k] == entries[k]);
            assert(name_of(entries[k]) is Some);
        }
        assert(after == idx.push((n, new_card(e))));
        assert(after[idx.len() as int].0 == n);
    } else {
        assert forall|k: int| 0 <= k < prefix.len() implies name_of(#[trigger] prefix[k]) is Some by {
            assert(prefix[k] == entries[k]);
        }
        assert forall|k: int| 0 <= k < i implies name_of(#[trigger] prefix[k]) != name_of(prefix[i]) by {
            assert(prefix[k] == entries[k]);
        }
        assert(prefix[i] == entries[i]);
        law_card_index_first_entry(prefix, i);
        let w = choose|w: int| 0 <= w < idx.len() && idx[w].0 == n;
        if is_promo(m) {
        } else if has_card(idx, m) {
            let q = card_pos(idx, m);
            assert(after == idx.update(q, (m, merge_card(idx[q].1, e))));
            assert(after[w].0 == n);
            assert forall|p: int|
                0 <= p < after.len() && (#[trigger] after[p]).0 == n implies same_first_fields(
                after[p].1,
                new_card(entries[i]),
            ) by {
                assert(idx[p].0 == n);
            }
        } else {
            assert(m != n);
            assert(after == idx.push((m, new_card(e))));
            assert(after[w] == idx[w]);
            assert forall|p: int|
                0 <= p < after.len() && (#[trigger] after[p]).0 == n implies same_first_fields(
                after[p].1,
                new_card(entries[i]),
            ) by {
                assert(p < idx.len());
                assert(after[p] == idx[p]);
            }
        }
    }
}

// ---------------------------------------------------------------------------------
// Executable pieces.
/// The rarity name of a rarity code.
pub fn rarity_text(x: Option<i64>) -> (r: String)
    ensures
        r@ == rarity_name(x),
{
    match x {
        Some(0) => "Common".to_owned(),
        Some(1) => "Uncommon".to_owned(),
        Some(2) => "Rare".to_owned(),
        Some(3) => "Ultra Rare".to_owned(),
        Some(n) => i64_to_string(n),
        None => String::new(),
    }
}

/// The edition name of an edition code.
pub fn edition_text(x: Option<i64>) -> (r: String)
    ensures
        r@ == edition_name(x),
{
    match x {
        Some(1) => "Twilight".to_owned(),
        Some(2) => "Renegade".to_owned(),
        Some(4) => "Lost Souls".to_owned(),
        Some(8) => "Amii".to_owned(),
        Some(n) => i64_to_string(n),
        None => String::new(),
    }
}

/// The type name of a type code.
pub fn type_text(x: Option<i64>) -> (r: String)
    ensures
        r@ == card_type_name(x),
{
    match x {
        Some(0) => "Spell".to_owned(),
        Some(2) => "Unit".to_owned(),
        Some(3) => "Building".to_owned(),
        Some(n) => i64_to_string(n),
        None => String::new(),
    }
}

/// The affinity name of an affinity code, for 0 to 3.
pub fn affinity_text(x: Option<i64>) -> (r: Option<String>)
    ensures
        opt_string_view(r) == affinity_name(x),
{
    match x {
        Some(0) => Some("Frost".to_owned()),
        Some(1) => Some("Fire".to_owned()),
        Some(2) => Some("Nature".to_owned()),
        Some(3) => Some("Shadow".to_owned()),
        _ => None,
    }
}

/// The affinity variants of a new card.
pub fn affinity_variants_text(x: Option<i64>) -> (r: Vec<String>)
    ensures
        strings_view(r@) == affinity_variants_of(x),
{
    let mut out: Vec<String> = Vec::new();
    match x {
        Some(-1) => {},
        Some(0) => out.push("Frost".to_owned()),
        Some(1) => out.push("Fire".to_owned()),
        Some(2) => out.push("Nature".to_owned()),
        Some(3) => out.push("Shadow".to_owned()),
        Some(n) => out.push(i64_to_string(n)),
        None => {},
    }
    assert(strings_view(out@) =~= affinity_variants_of(x));
    out
}

/// The unit size of a defense type.
pub fn size_text(x: Option<i64>) -> (r: String)
    ensures
        r@ == size_name(x),
{
    match x {
        Some(0) => "S".to_owned(),
        Some(1) => "M".to_owned(),
        Some(2) => "L".to_owned(),
        Some(3) => "XL".to_owned(),
        Some(4) => "Building".to_owned(),
        _ => String::new(),
    }
}

/// The countered size of an offense type.
pub fn counter_text(x: Option<i64>) -> (r: String)
    ensures
        r@ == counter_name(x),
{
    match x {
        Some(0) => "S".to_owned(),
        Some(1) => "M".to_owned(),
        Some(2) => "L".to_owned(),
        Some(3) => "XL".to_owned(),
        Some(4) => "Special".to_owned(),
        _ => String::new(),
    }
}

/// A value for every upgrade level, absent for 0.
pub fn per_level_values(x: Option<i64>) -> (r: Option<Vec<i64>>)
    ensures
        opt_ints_view(r) == per_level(x),
{
    match x {
        Some(0) => None,
        Some(n) => {
            let v = vec![n, n, n, n];
            assert(v@ =~= seq![n, n, n, n]);
            Some(v)
        },
        None => None,
    }
}

fn push_repeated(out: &mut Vec<String>, colour: &str, n: i64)
    ensures
        strings_view(final(out)@) == strings_view(old(out)@) + repeat(colour@, n as int),
{
    let ghost start = strings_view(out@);
    if n != 0 {
        let mut i: i64 = 0;
        while i < n
            invariant
                0 <= i,
                n > 0 ==> i <= n,
                n <= 0 ==> i == 0,
                strings_view(out@) =~= start + repeat(colour@, i as int),
            decreases n - i,
        {
            let ghost prev = out@;
            out.push(colour.to_owned());
            proof {
                assert(strings_view(out@) =~= strings_view(prev).push(colour@));
                assert(repeat(colour@, i + 1) =~= repeat(colour@, i as int).push(colour@));
            }
            i = i + 1;
        }
    }
    if n <= 0 {
        assert(repeat(colour@, n as int) =~= Seq::empty());
    }
    assert(strings_view(out@) =~= start + repeat(colour@, n as int));
}

fn orb_number(orbs: &Json, colour: &str) -> (r: i64)
    requires
        i64_of(orbs@.get(colour@)) is Some,
    ensures
        r == orb_count(orbs@, colour@),
{
    orbs.get(colour).unwrap().as_i64().unwrap()
}

/// The orbs of a card.
pub fn orbs_from(orbs: &Json) -> (r: Vec<String>)
    requires
        i64_of(orbs@.get("Frost"@)) is Some,
        i64_of(orbs@.get("Nature"@)) is Some,
        i64_of(orbs@.get("Shadow"@)) is Some,
        i64_of(orbs@.get("Fire"@)) is Some,
        i64_of(orbs@.get("Neutral"@)) is Some,
    ensures
        strings_view(r@) == orbs_of(orbs@),
{
    let mut out: Vec<String> = Vec::new();
    assert(strings_view(out@) =~= Seq::empty());
    push_repeated(&mut out, "Frost", orb_number(orbs, "Frost"));
    push_repeated(&mut out, "Nature", orb_number(orbs, "Nature"));
    push_repeated(&mut out, "Shadow", orb_number(orbs, "Shadow"));
    push_repeated(&mut out, "Fire", orb_number(orbs, "Fire"));
    push_repeated(&mut out, "Neutral", orb_number(orbs, "Neutral"));
    assert(strings_view(out@) =~= orbs_of(orbs@));
    out
}

/// The ability that an ability entry describes.
pub fn ability_from_source(a: &Json) -> (r: Ability)
    requires
        ability_source_ok(a@),
    ensures
        r@ == ability_from(a@),
{
    let power = a.get("Power").unwrap().as_i64().unwrap();
    Ability {
        name: a.get("Name").unwrap().as_str().unwrap().to_owned(),
        typ: None,
        upgrade_dependency: 0,
        affinity_dependency: None,
        cost: if power != 0 {
            Some(power)
        } else {
            None
        },
        description: a.get("Description").unwrap().as_str().unwrap().to_owned(),
        values: None,
    }
}

fn has_ability_named(abilities: &Vec<Ability>, name: &String) -> (r: bool)
    ensures
        r == has_ability(abilities_view(abilities@), name@),
{
    let ghost av = abilities_view(abilities@);
    let n = abilities.len();
    let mut k: usize = 0;
    while k < n
        invariant
            n == abilities@.len(),
            av == abilities_view(abilities@),
            k <= n,
            forall|j: int| 0 <= j < k ==> av[j].name != name@,
        decreases n - k,
    {
        if abilities[k].name == *name {
            assert(av[k as int].name == name@);
            return true;
        }
        k = k + 1;
    }
    false
}

fn has_text(v: &Json, key: &str) -> (r: bool)
    ensures
        r == (str_of(v@.get(key@)) is Some),
{
    match v.get(key) {
        Some(x) => x.as_str().is_some(),
        None => false,
    }
}

fn has_integer(v: &Json, key: &str) -> (r: bool)
    ensures
        r == (i64_of(v@.get(key@)) is Some),
{
    match v.get(key) {
        Some(x) => x.as_i64().is_some(),
        None => false,
    }
}

fn has_flag(v: &Json, key: &str) -> (r: bool)
    ensures
        r == (bool_of(v@.get(key@)) is Some),
{
    match v.get(key) {
        Some(x) => x.as_bool().is_some(),
        None => false,
    }
}

fn has_member(v: &Json, key: &str) -> (r: bool)
    ensures
        r == (v@.get(key@) is Some),
{
    v.get(key).is_some()
}

/// Whether an ability entry can be read.
pub fn ability_source_check(a: &Json) -> (r: bool)
    ensures
        r == ability_source_ok(a@),
{
    has_text(a, "Name") && has_integer(a, "Power") && has_text(a, "Description")
}

/// Merges ability entries into a card's abilities, skipping names already present.
/// Returns whether the entries could be merged; only then are the abilities as stated.
pub fn merge_abilities(abilities: &mut Vec<Ability>, src: &Vec<Json>) -> (ok: bool)
    ensures
        ok == merge_abilities_ok(abilities_view(old(abilities)@), items_view(src@)),
        ok ==> abilities_view(final(abilities)@) == merged_abilities(
            abilities_view(old(abilities)@),
            items_view(src@),
        ),
{
    let ghost start = abilities_view(abilities@);
    let ghost sv = items_view(src@);
    let n = src.len();
    let mut i: usize = 0;
    proof {
        assert(sv.take(0) =~= Seq::<JsonView>::empty());
    }
    while i < n
        invariant
            n == src@.len(),
            sv == items_view(src@),
            i <= n,
            start == abilities_view(old(abilities)@),
            merge_abilities_ok(start, sv.take(i as int)),
            abilities_view(abilities@) == merged_abilities(start, sv.take(i as int)),
        decreases n - i,
    {
        proof {
            assert(sv.take(i + 1).drop_last() =~= sv.take(i as int));
            assert(sv.take(i + 1).last() == src@[i as int]@);
            if merge_abilities_ok(start, sv) {
                lemma_merge_abilities_ok_prefix(start, sv, i + 1);
            }
        }
        let a = &src[i];
        if !has_text(a, "Name") {
            assert(!merge_abilities_ok(start, sv.take(i + 1)));
            return false;
        }
        let name = a.get("Name").unwrap().as_str().unwrap().to_owned();
        if !has_ability_named(abilities, &name) {
            if !ability_source_check(a) {
                assert(!merge_abilities_ok(start, sv.take(i + 1)));
                return false;
            }
            let ghost prev = abilities@;
            abilities.push(ability_from_source(a));
            assert(abilities_view(abilities@) =~= abilities_view(prev).push(ability_from(a@)));
        }
        i = i + 1;
    }
    proof {
        assert(sv.take(n as int) =~= sv);
    }
    true
}

/// Whether a new card can be built from the entry.
pub fn new_card_check(v: &Json) -> (r: bool)
    ensures
        r == new_card_ok(v@),
{
    if !(has_member(v, "Rarity") && has_integer(v, "Cost") && has_member(v, "Edition")
        && has_member(v, "Type") && has_member(v, "Affinity") && has_integer(v, "OffenseType")) {
        return false;
    }
    if v.get("OffenseType").unwrap().as_i64().unwrap() != 4 && !has_flag(v, "IsRanged") {
        return false;
    }
    if !(has_member(v, "Defense") && has_member(v, "Offense") && has_member(v, "DefenseType")
        && has_integer(v, "UnitCount") && has_integer(v, "ChargeCount") && has_text(
        v,
        "Category",
    )) {
        return false;
    }
    match v.get("OrbInfo") {
        Some(orbs) => {
            if !(orbs.is_object() && has_integer(orbs, "Frost") && has_integer(orbs, "Nature")
                && has_integer(orbs, "Shadow") && has_integer(orbs, "Fire") && has_integer(
                orbs,
                "Neutral",
            )) {
                return false;
            }
        },
        None => {
            return false;
        },
    }
    let src = match v.get("Abilities") {
        Some(x) => match x.as_array() {
            Some(items) => items,
            None => {
                return false;
            },
        },
        None => {
            return false;
        },
    };
    let ghost sv = items_view(src@);
    assert(sv == abilities_of(v@));
    let n = src.len();
    let mut i: usize = 0;
    while i < n
        invariant
            n == src@.len(),
            sv == items_view(src@),
            sv == abilities_of(v@),
            i <= n,
            forall|k: int| 0 <= k < i ==> ability_source_ok(#[trigger] sv[k]),
        decreases n - i,
    {
        if !ability_source_check(&src[i]) {
            assert(!ability_source_ok(sv[i as int]));
            return false;
        }
        i = i + 1;
    }
    true
}

/// The card that the first entry with a name describes.
pub fn new_card_from(v: &Json) -> (r: Card)
    requires
        new_card_ok(v@),
    ensures
        r@ == new_card(v@),
{
    let mut card = Card::default();
    card.rarity = rarity_text(v.get("Rarity").unwrap().as_i64());
    let cost = v.get("Cost").unwrap().as_i64().unwrap();
    card.power_cost = vec![cost, cost, cost, cost];
    card.edition = edition_text(v.get("Edition").unwrap().as_i64());
    card.typ = type_text(v.get("Type").unwrap().as_i64());
    card.affinity_variants = affinity_variants_text(v.get("Affinity").unwrap().as_i64());
    if v.get("OffenseType").unwrap().as_i64().unwrap() == 4 {
        card.weapon_type = "Special".to_owned();
    } else if v.get("IsRanged").unwrap().as_bool().unwrap() {
        card.weapon_type = "Ranged".to_owned();
    } else {
        card.weapon_type = "Melee".to_owned();
    }
    card.health = per_level_values(v.get("Defense").unwrap().as_i64());
    card.damage = per_level_values(v.get("Offense").unwrap().as_i64());
    card.size = size_text(v.get("DefenseType").unwrap().as_i64());
    card.counter = counter_text(v.get("OffenseType").unwrap().as_i64());
    card.squadsize = v.get("UnitCount").unwrap().as_i64().unwrap();
    card.charges = v.get("ChargeCount").unwrap().as_i64().unwrap();
    card.class = v.get("Category").unwrap().as_str().unwrap().to_owned();
    card.orbs = orbs_from(v.get("OrbInfo").unwrap());
    let src = v.get("Abilities").unwrap().as_array().unwrap();
    let ghost sv = items_view(src@);
    let n = src.len();
    let mut abilities: Vec<Ability> = Vec::new();
    let mut i: usize = 0;
    while i < n
        invariant
            n == src@.len(),
            sv == items_view(src@),
            sv == abilities_of(v@),
            i <= n,
            forall|k: int| 0 <= k < sv.len() ==> ability_source_ok(#[trigger] sv[k]),
            abilities_view(abilities@) =~= Seq::new(i as nat, |k: int| ability_from(sv[k])),
        decreases n - i,
    {
        assert(sv[i as int] == src@[i as int]@);
        let ghost prev = abilities@;
        abilities.push(ability_from_source(&src[i]));
        proof {
            assert(abilities_view(abilities@) =~= abilities_view(prev).push(ability_from(sv[i as int])));
        }
        i = i + 1;
    }
    card.abilities = abilities;
    assert(card@.power_cost =~= seq![cost, cost, cost, cost]);
    assert(card@.abilities =~= new_card(v@).abilities);
    card
}

/// Merges a further entry with the same name into a card. Returns whether the entry
/// could be merged; only then is the card as stated.
pub fn merge_card_from(card: &mut Card, v: &Json) -> (ok: bool)
    ensures
        ok == merge_card_ok(old(card)@, v@),
        ok ==> final(card)@ == merge_card(old(card)@, v@),
{
    if !has_member(v, "Affinity") {
        return false;
    }
    let src = match v.get("Abilities") {
        Some(x) => match x.as_array() {
            Some(items) => items,
            None => {
                return false;
            },
        },
        None => {
            return false;
        },
    };
    match affinity_text(v.get("Affinity").unwrap().as_i64()) {
        Some(a) => {
            let ghost prev = card.affinity_variants@;
            card.affinity_variants.push(a);
            assert(strings_view(card.affinity_variants@) =~= strings_view(prev).push(a@));
        },
        None => {},
    }
    merge_abilities(&mut card.abilities, src)
}

fn find_card(idx: &Vec<(String, Card)>, name: &String) -> (r: Option<usize>)
    requires
        names_distinct(index_view(idx@)),
    ensures
        match r {
            Some(i) => i < idx@.len() && has_card(index_view(idx@), name@) && i as int == card_pos(
                index_view(idx@),
                name@,
            ),
            None => !has_card(index_view(idx@), name@),
        },
{
    let ghost iv = index_view(idx@);
    let n = idx.len();
    let mut i: usize = 0;
    while i < n
        invariant
            n == idx@.len(),
            iv == index_view(idx@),
            names_distinct(iv),
            i <= n,
            forall|j: int| 0 <= j < i ==> iv[j].0 != name@,
        decreases n - i,
    {
        if idx[i].0 == *name {
            proof {
                assert(iv[i as int].0 == name@);
                let p = card_pos(iv, name@);
                assert(0 <= p < iv.len() && iv[p].0 == name@);
                assert(p == i);
            }
            return Some(i);
        }
        i = i + 1;
    }
    None
}

/// The card index of a list of card base entries: the names in the order in which they
/// first appear, each with its card. `None` when an entry lacks a field that is read
/// or has one of another shape.
pub fn build_card_index(entries: &Vec<Json>) -> (r: Option<Vec<(String, Card)>>)
    ensures
        r is Some <==> card_entries_ok(items_view(entries@)),
        r matches Some(idx) ==> index_view(idx@) == card_index(items_view(entries@)),
{
    let ghost ev = items_view(entries@);
    let n = entries.len();
    let mut idx: Vec<(String, Card)> = Vec::new();
    let mut i: usize = 0;
    proof {
        assert(ev.take(0) =~= Seq::<JsonView>::empty());
        assert(index_view(idx@) =~= card_index(ev.take(0)));
    }
    while i < n
        invariant
            n == entries@.len(),
            ev == items_view(entries@),
            i <= n,
            card_entries_ok(ev.take(i as int)),
            index_view(idx@) == card_index(ev.take(i as int)),
        decreases n - i,
    {
        let ghost prev = idx@;
        proof {
            assert(ev.take(i + 1).drop_last() =~= ev.take(i as int));
            assert(ev.take(i + 1).last() == entries@[i as int]@);
            lemma_card_index_names(ev.take(i as int));
            if card_entries_ok(ev) {
                lemma_card_entries_ok_prefix(ev, i + 1);
            }
        }
        let v = &entries[i];
        if !has_text(v, "Name") {
            return None;
        }
        let name = v.get("Name").unwrap().as_str().unwrap();
        if !contains(name, "(promo)") {
            let owned = name.to_owned();
            match find_card(&idx, &owned) {
                Some(p) => {
                    let mut slot = (String::new(), Card::default());
                    idx.set_and_swap(p, &mut slot);
                    assert(slot.1@ == index_view(prev)[p as int].1);
                    if !merge_card_from(&mut slot.1, v) {
                        return None;
                    }
                    idx.set(p, slot);
                    assert(index_view(idx@) =~= index_view(prev).update(
                        p as int,
                        (name@, merge_card(index_view(prev)[p as int].1, v@)),
                    ));
                },
                None => {
                    if !new_card_check(v) {
                        return None;
                    }
                    idx.push((owned, new_card_from(v)));
                    assert(index_view(idx@) =~= index_view(prev).push((name@, new_card(v@))));
                },
            }
        }
        i = i + 1;
    }
    proof {
        assert(ev.take(n as int) =~= ev);
    }
    Some(idx)
}

/// The card index of the card base's reply (its `Result` list); `None` when the reply
/// cannot be read.
pub fn card_index_from_reply(reply: &Json) -> (r: Option<Vec<(String, Card)>>)
    ensures
        r is Some <==> card_reply_ok(reply@),
        r matches Some(idx) ==> index_view(idx@) == card_reply_index(reply@) && names_distinct(
            index_view(idx@),
        ),
{
    let entries = match reply.get("Result") {
        Some(x) => match x.as_array() {
            Some(items) => items,
            None => {
                return None;
            },
        },
        None => {
            return None;
        },
    };
    let r = build_card_index(entries);
    proof {
        lemma_card_index_names(items_view(entries@));
    }
    r
}

/// The names of the index come in strictly ascending order.
pub open spec fn names_ascending(idx: CardIndexView) -> bool {
    forall|i: int, j: int| 0 <= i < j < idx.len() ==> chars_lt(#[trigger] idx[i].0, #[trigger] idx[j].0)
}

/// The position at which a card named `name` goes into an index whose names ascend:
/// after every name that comes before it.
fn insertion_point(out: &Vec<(String, Card)>, name: &String) -> (k: usize)
    ensures
        k <= out@.len(),
        forall|m: int| 0 <= m < k ==> chars_lt(#[trigger] out@[m].0@, name@),
        k < out@.len() ==> !chars_lt(out@[k as int].0@, name@),
{
    let n = out.len();
    let mut k: usize = 0;
    while k < n && str_lt(out[k].0.as_str(), name.as_str())
        invariant
            n == out@.len(),
            k <= n,
            forall|m: int| 0 <= m < k ==> chars_lt(#[trigger] out@[m].0@, name@),
        decreases n - k,
    {
        k = k + 1;
    }
    k
}

/// Every entry of `ov` is an entry of `orig` from position `p` on.
#[verifier::opaque]
pub open spec fn holds_from(ov: CardIndexView, orig: CardIndexView, p: int) -> bool {
    forall|i: int| 0 <= i < ov.len() ==> exists|j: int| p <= j < orig.len() && orig[j] == #[trigger] ov[i]
}

/// Inserting an entry after the names that come before it and ahead of one that comes
/// after it keeps the names ascending.
proof fn lemma_insert_ascending(ov: CardIndexView, e: (Seq<char>, CardView), k: int)
    requires
        names_ascending(ov),
        0 <= k <= ov.len(),
        forall|m: int| 0 <= m < k ==> chars_lt(#[trigger] ov[m].0, e.0),
        k < ov.len() ==> chars_lt(e.0, ov[k].0),
    ensures
        names_ascending(ov.insert(k, e)),
{
    let nv = ov.insert(k, e);
    assert forall|i: int, j: int| 0 <= i < j < nv.len() implies chars_lt(
        #[trigger] nv[i].0,
        #[trigger] nv[j].0,
    ) by {
        if j < k {
            assert(nv[i] == ov[i] && nv[j] == ov[j]);
        } else if j == k {
            assert(nv[i] == ov[i]);
        } else {
            assert(nv[j] == ov[j - 1]);
            if k < j - 1 {
                assert(chars_lt(ov[k].0, ov[j - 1].0));
                lemma_chars_lt_transitive(e.0, ov[k].0, ov[j - 1].0);
            }
            if i < k {
                assert(nv[i] == ov[i]);
                lemma_chars_lt_transitive(ov[i].0, e.0, ov[j - 1].0);
            } else if i > k {
                assert(nv[i] == ov[i - 1]);
            }
        }
    }
}

/// Inserting an entry keeps every entry that was there, and adds the new one.
proof fn lemma_insert_entries(ov: CardIndexView, orig: CardIndexView, p: int, k: int)
    requires
        0 <= p < orig.len(),
        0 <= k <= ov.len(),
        holds_from(ov, orig, p + 1),
    ensures
        holds_from(ov.insert(k, orig[p]), orig, p),
        ov.insert(k, orig[p]).to_multiset() == ov.to_multiset().insert(orig[p]),
{
    reveal(holds_from);
    let nv = ov.insert(k, orig[p]);
    assert forall|i: int| 0 <= i < nv.len() implies exists|j: int|
        p <= j < orig.len() && orig[j] == #[trigger] nv[i] by {
        if i < k {
            assert(nv[i] == ov[i]);
        } else if i == k {
            assert(orig[p] == nv[i]);
        } else {
            assert(nv[i] == ov[i - 1]);
        }
    }
    broadcast use vstd::seq_lib::group_to_multiset_ensures;
    assert(nv.remove(k) =~= ov);
    assert(nv[k] == orig[p]);
    assert(nv.to_multiset().count(orig[p]) > 0) by {
        assert(nv.contains(orig[p]));
    }
    assert(nv.to_multiset() =~= ov.to_multiset().insert(orig[p]));
}

/// The name of the entry at `p` differs from every name after it.
proof fn lemma_later_name_differs(ov: CardIndexView, orig: CardIndexView, p: int, k: int)
    requires
        0 <= p < orig.len(),
        names_distinct(orig),
        0 <= k < ov.len(),
        holds_from(ov, orig, p + 1),
        !chars_lt(ov[k].0, orig[p].0),
    ensures
        chars_lt(orig[p].0, ov[k].0),
{
    reveal(holds_from);
    let j = choose|j: int| p + 1 <= j < orig.len() && orig[j] == #[trigger] ov[k];
    assert(orig[j].0 != orig[p].0);
    lemma_chars_lt_total(ov[k].0, orig[p].0);
}

/// The cards of an index whose names are distinct, ordered by name.
pub fn sort_by_name(idx: Vec<(String, Card)>) -> (r: Vec<(String, Card)>)
    requires
        names_distinct(index_view(idx@)),
    ensures
        names_ascending(index_view(r@)),
        index_view(r@).to_multiset() == index_view(idx@).to_multiset(),
{
    let ghost orig = index_view(idx@);
    let ghost n = orig.len();
    let mut rest = idx;
    let mut out: Vec<(String, Card)> = Vec::new();
    proof {
        assert(index_view(rest@) =~= orig.take(n as int));
        reveal(holds_from);
        broadcast use vstd::seq_lib::group_to_multiset_ensures;
        assert(index_view(out@).to_multiset() =~= vstd::multiset::Multiset::empty());
        assert(orig.take(n as int) =~= orig);
        assert(index_view(out@).to_multiset().add(orig.take(n as int).to_multiset()) =~= orig.to_multiset());
    }
    while rest.len() > 0
        invariant
            n == orig.len(),
            names_distinct(orig),
            rest@.len() <= n,
            index_view(rest@) == orig.take(rest@.len() as int),
            out@.len() + rest@.len() == n,
            names_ascending(index_view(out@)),
            holds_from(index_view(out@), orig, rest@.len() as int),
            index_view(out@).to_multiset().add(orig.take(rest@.len() as int).to_multiset())
                == orig.to_multiset(),
        decreases rest@.len(),
    {
        let ghost p = rest@.len() - 1;
        let ghost ov = index_view(out@);
        proof {
            assert(index_view(rest@)[p] == orig.take(p + 1)[p]);
        }
        let item = rest.pop().unwrap();
        proof {
            assert(index_view(rest@) =~= orig.take(p));
            assert((item.0@, item.1@) == orig[p]);
        }
        let k = insertion_point(&out, &item.0);
        proof {
            if k < ov.len() {
                lemma_later_name_differs(ov, orig, p, k as int);
            }
            lemma_insert_ascending(ov, orig[p], k as int);
            lemma_insert_entries(ov, orig, p, k as int);
        }
        out.insert(k, item);
        proof {
            assert(index_view(out@) =~= ov.insert(k as int, orig[p]));
            broadcast use vstd::seq_lib::group_to_multiset_ensures;
            assert(orig.take(p + 1) =~= orig.take(p).push(orig[p]));
            assert(index_view(out@).to_multiset().add(orig.take(p).to_multiset()) =~= ov.to_multiset().add(
                orig.take(p + 1).to_multiset(),
            ));
        }
    }
    proof {
        broadcast use vstd::seq_lib::group_to_multiset_ensures;
        assert(orig.take(0) =~= Seq::<(Seq<char>, CardView)>::empty());
        assert(index_view(out@).to_multiset().add(orig.take(0).to_multiset()) =~= index_view(out@).to_multiset());
    }
    out
}

/// The cards of the card base's reply, ordered by name; `None` when the reply cannot be
/// processed.
pub fn cards_by_name(reply: &Json) -> (r: Option<Vec<(String, Card)>>)
    ensures
        r is Some <==> card_reply_ok(reply@),
        r matches Some(cards) ==> names_ascending(index_view(cards@)) && index_view(cards@).to_multiset()
            == card_reply_index(reply@).to_multiset(),
{
    match card_index_from_reply(reply) {
        Some(idx) => Some(sort_by_name(idx)),
        None => None,
    }
}

} // verus!
