use wikibot::json::{Json, JsonNumber};
use wikibot::skylords::{
    affinity_text, build_card_index, card_index_from_reply, counter_text, edition_text, per_level_values,
    rarity_text, size_text, type_text, cards_by_name, sort_by_name, Ability, Card,
};

fn s(text: &str) -> Json {
    Json::Str(text.to_string())
}

fn num(n: i64) -> Json {
    if n < 0 {
        Json::Number(JsonNumber::NegInt(n))
    } else {
        Json::Number(JsonNumber::PosInt(n as u64))
    }
}

fn obj(entries: Vec<(&str, Json)>) -> Json {
    Json::Object(entries.into_iter().map(|(k, v)| (k.to_string(), v)).collect())
}

fn ability(name: &str, power: i64, text: &str) -> Json {
    obj(vec![("Name", s(name)), ("Power", num(power)), ("Description", s(text))])
}

fn entry(name: &str, affinity: i64, abilities: Vec<Json>) -> Json {
    obj(vec![
        ("Name", s(name)),
        ("Rarity", num(2)),
        ("Cost", num(70)),
        ("Edition", num(4)),
        ("Type", num(2)),
        ("Affinity", num(affinity)),
        ("OffenseType", num(1)),
        ("IsRanged", Json::Bool(true)),
        ("Defense", num(1200)),
        ("Offense", num(0)),
        ("DefenseType", num(2)),
        ("UnitCount", num(1)),
        ("ChargeCount", num(4)),
        ("Category", s("Tree")),
        (
            "OrbInfo",
            obj(vec![
                ("Frost", num(0)),
                ("Nature", num(2)),
                ("Shadow", num(0)),
                ("Fire", num(1)),
                ("Neutral", num(-3)),
            ]),
        ),
        ("Abilities", Json::Array(abilities)),
    ])
}

#[test]
fn code_names() {
    assert_eq!(rarity_text(Some(0)), "Common");
    assert_eq!(rarity_text(Some(3)), "Ultra Rare");
    assert_eq!(rarity_text(Some(9)), "9");
    assert_eq!(rarity_text(None), "");
    assert_eq!(edition_text(Some(8)), "Amii");
    assert_eq!(edition_text(Some(3)), "3");
    assert_eq!(type_text(Some(0)), "Spell");
    assert_eq!(type_text(Some(1)), "1");
    assert_eq!(affinity_text(Some(1)), Some("Fire".to_string()));
    assert_eq!(affinity_text(Some(-1)), None);
    assert_eq!(size_text(Some(4)), "Building");
    assert_eq!(size_text(Some(5)), "");
    assert_eq!(counter_text(Some(4)), "Special");
    assert_eq!(counter_text(None), "");
    assert_eq!(per_level_values(Some(0)), None);
    assert_eq!(per_level_values(Some(5)), Some(vec![5, 5, 5, 5]));
}

#[test]
fn defaults_are_empty() {
    let c = Card::default();
    assert!(c.abilities.is_empty() && c.damage.is_none() && c.rarity.is_empty());
    let a = Ability::default();
    assert_eq!(a.cost, None);
    assert_eq!(a.upgrade_dependency, 0);
}

#[test]
fn new_cards_take_every_field() {
    let entries = vec![entry("Treefolk", -1, vec![ability("Strike", 0, "hits"), ability("Rage", 50, "grows")])];
    let idx = build_card_index(&entries).unwrap();
    assert_eq!(idx.len(), 1);
    let (name, c) = &idx[0];
    assert_eq!(name, "Treefolk");
    assert_eq!(c.rarity, "Rare");
    assert_eq!(c.edition, "Lost Souls");
    assert_eq!(c.typ, "Unit");
    assert!(c.affinity_variants.is_empty());
    assert_eq!(c.power_cost, vec![70, 70, 70, 70]);
    assert_eq!(c.weapon_type, "Ranged");
    assert_eq!(c.health, Some(vec![1200, 1200, 1200, 1200]));
    assert_eq!(c.damage, None);
    assert_eq!(c.size, "L");
    assert_eq!(c.counter, "M");
    assert_eq!(c.squadsize, 1);
    assert_eq!(c.charges, 4);
    assert_eq!(c.class, "Tree");
    assert_eq!(c.orbs, vec!["Nature", "Nature", "Fire"]);
    assert_eq!(c.abilities.len(), 2);
    assert_eq!(c.abilities[0].name, "Strike");
    assert_eq!(c.abilities[0].cost, None);
    assert_eq!(c.abilities[1].cost, Some(50));
    assert_eq!(c.abilities[1].description, "grows");
    assert!(c.upgrades.is_empty() && c.description.is_empty());
}

#[test]
fn special_offense_makes_a_special_weapon() {
    let mut e = entry("Sparks", 0, vec![]);
    if let Json::Object(entries) = &mut e {
        for (k, v) in entries.iter_mut() {
            if k == "OffenseType" {
                *v = num(4);
            }
            if k == "IsRanged" {
                *v = Json::Null;
            }
        }
    }
    let idx = build_card_index(&vec![e]).unwrap();
    assert_eq!(idx[0].1.weapon_type, "Special");
    assert_eq!(idx[0].1.counter, "Special");
    assert_eq!(idx[0].1.affinity_variants, vec!["Frost"]);
}

#[test]
fn entries_with_the_same_name_are_merged() {
    let entries = vec![
        entry("Bandit Lancer", 1, vec![ability("Charge", 0, "a")]),
        entry("Other", -1, vec![]),
        entry("Bandit Lancer", 3, vec![ability("Charge", 99, "b"), ability("Shield", 20, "c")]),
        entry("Bandit Lancer", 7, vec![]),
    ];
    let idx = build_card_index(&entries).unwrap();
    assert_eq!(idx.len(), 2);
    assert_eq!(idx[0].0, "Bandit Lancer");
    assert_eq!(idx[1].0, "Other");
    let c = &idx[0].1;
    assert_eq!(c.affinity_variants, vec!["Fire", "Shadow"]);
    assert_eq!(c.abilities.len(), 2);
    assert_eq!(c.abilities[0].description, "a");
    assert_eq!(c.abilities[1].name, "Shield");
    assert_eq!(c.abilities[1].cost, Some(20));
}

#[test]
fn promo_entries_are_skipped() {
    let reply = obj(vec![(
        "Result",
        Json::Array(vec![obj(vec![("Name", s("Nomad (promo)"))]), entry("Nomad", 2, vec![])]),
    )]);
    let idx = card_index_from_reply(&reply).unwrap();
    assert_eq!(idx.len(), 1);
    assert_eq!(idx[0].0, "Nomad");
    assert_eq!(idx[0].1.affinity_variants, vec!["Nature"]);
}

#[test]
fn affinity_codes_outside_the_names_are_written_out() {
    let idx = build_card_index(&vec![entry("Odd", 12, vec![])]).unwrap();
    assert_eq!(idx[0].1.affinity_variants, vec!["12"]);
}

#[test]
fn unreadable_entries_are_refused() {
    assert!(card_index_from_reply(&obj(vec![("Result", s("none"))])).is_none());
    assert!(card_index_from_reply(&obj(vec![])).is_none());
    assert!(build_card_index(&vec![obj(vec![("Rarity", num(1))])]).is_none());
    let mut missing_cost = entry("A", 0, vec![]);
    if let Json::Object(entries) = &mut missing_cost {
        entries.retain(|(k, _)| k != "Cost");
    }
    assert!(build_card_index(&vec![missing_cost]).is_none());
    let bad_ability = entry("A", 0, vec![obj(vec![("Name", s("X"))])]);
    assert!(build_card_index(&vec![bad_ability]).is_none());
}

#[test]
fn repeated_abilities_of_a_merged_entry_need_only_a_name() {
    let first = entry("A", 0, vec![ability("X", 1, "x")]);
    let second = obj(vec![("Name", s("A")), ("Affinity", num(1)), ("Abilities", Json::Array(vec![obj(vec![("Name", s("X"))])]))]);
    let idx = build_card_index(&vec![first, second]).unwrap();
    assert_eq!(idx[0].1.affinity_variants, vec!["Frost", "Fire"]);
    assert_eq!(idx[0].1.abilities.len(), 1);
    let third = obj(vec![("Name", s("A")), ("Affinity", num(1)), ("Abilities", Json::Array(vec![obj(vec![("Name", s("Y"))])]))]);
    assert!(build_card_index(&vec![entry("A", 0, vec![]), third]).is_none());
}

#[test]
fn later_entries_only_add_affinity_and_abilities() {
    let mut changed = entry("Bandit Lancer", 3, vec![ability("Shield", 20, "c")]);
    if let Json::Object(fields) = &mut changed {
        for (k, v) in fields.iter_mut() {
            if k == "Rarity" || k == "Cost" || k == "Type" {
                *v = num(0);
            }
            if k == "OrbInfo" {
                *v = Json::Null;
            }
        }
    }
    let a = build_card_index(&vec![
        entry("Bandit Lancer", 1, vec![ability("Charge", 0, "a")]),
        entry("Bandit Lancer", 3, vec![ability("Shield", 20, "c")]),
    ])
    .unwrap();
    let b = build_card_index(&vec![entry("Bandit Lancer", 1, vec![ability("Charge", 0, "a")]), changed]).unwrap();
    assert_eq!(a, b);
    assert_eq!(b[0].1.rarity, a[0].1.rarity);
    assert_eq!(b[0].1.abilities.len(), 2);
}

#[test]
fn abilities_have_no_values() {
    let idx = build_card_index(&vec![entry("Treefolk", -1, vec![ability("Strike", 0, "hits")])]).unwrap();
    assert_eq!(idx[0].1.abilities[0].values, None);
    assert_eq!(Ability::default().values, None);
}

#[test]
fn cards_come_out_ordered_by_name() {
    let reply = obj(vec![(
        "Result",
        Json::Array(vec![
            entry("Treefolk", 1, vec![]),
            entry("Bandit Lancer", 1, vec![]),
            entry("Zyclop", 1, vec![]),
            entry("Bandit Lancer", 2, vec![]),
            entry("Abomination", 1, vec![]),
            entry("bandit", 1, vec![]),
        ]),
    )]);
    let cards = cards_by_name(&reply).unwrap();
    let names: Vec<&str> = cards.iter().map(|(n, _)| n.as_str()).collect();
    assert_eq!(names, vec!["Abomination", "Bandit Lancer", "Treefolk", "Zyclop", "bandit"]);
    assert_eq!(cards[1].1.affinity_variants, vec!["Fire", "Nature"]);
    assert!(cards_by_name(&obj(vec![])).is_none());
}

#[test]
fn sorting_by_name_keeps_every_card() {
    let idx = vec![
        ("b".to_string(), Card::default()),
        ("ab".to_string(), Card::default()),
        ("a".to_string(), Card::default()),
    ];
    let sorted = sort_by_name(idx);
    let names: Vec<&str> = sorted.iter().map(|(n, _)| n.as_str()).collect();
    assert_eq!(names, vec!["a", "ab", "b"]);
}
