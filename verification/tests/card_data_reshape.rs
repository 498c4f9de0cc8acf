use wikibot::card_data::{collect_listings, reshape_card_data_exec};
use wikibot::json_text::json_to_text;
use wikibot::json::{Json, JsonNumber};

fn s(text: &str) -> Json {
    Json::Str(text.to_string())
}

fn num(n: i64) -> Json {
    Json::Number(JsonNumber::PosInt(n as u64))
}

fn obj(entries: Vec<(&str, Json)>) -> Json {
    Json::Object(entries.into_iter().map(|(k, v)| (k.to_string(), v)).collect())
}

fn levels(n: i64) -> Json {
    Json::Array(vec![num(n), num(n), num(n), num(n)])
}

fn card(typ: &str, variants: Json) -> Json {
    obj(vec![
        ("affinity_variants", variants),
        ("power_cost", levels(80)),
        ("damage", levels(300)),
        ("health", Json::Null),
        ("type", s(typ)),
        ("size", s("M")),
        ("counter", s("L")),
        ("weapon_type", s("Melee")),
        ("upgrades", Json::Array(vec![])),
    ])
}

fn maps() -> Json {
    obj(vec![
        ("U1", obj(vec![("Map A", Json::Array(vec![s("Treefolk (Nature)"), s("X")]))])),
        ("U2", obj(vec![("Map B", Json::Array(vec![s("Bolt")]))])),
        ("U3", obj(vec![("Map C", Json::Array(vec![s("Treefolk (Frost)"), s("Treefolk (Nature)")]))])),
    ])
}

fn location(upgrades: &Json, key: &str) -> Option<String> {
    upgrades.get(key).and_then(|u| u.get("location")).and_then(|l| l.as_str()).map(|l| l.to_string())
}

#[test]
fn listings_run_through_the_three_groups() {
    let l = collect_listings(&maps());
    let pairs: Vec<(&str, &str)> = l.iter().map(|(a, b)| (a.as_str(), b.as_str())).collect();
    assert_eq!(
        pairs,
        vec![
            ("Map A", "Treefolk (Nature)"),
            ("Map A", "X"),
            ("Map B", "Bolt"),
            ("Map C", "Treefolk (Frost)"),
            ("Map C", "Treefolk (Nature)"),
        ]
    );
}

#[test]
fn cards_are_reshaped_and_get_upgrade_locations() {
    let mut data = obj(vec![
        ("Satanael", obj(vec![("anything", num(1))])),
        ("Treefolk", card("Unit", Json::Array(vec![s("Nature"), s("Frost")]))),
        ("Bolt", card("Spelling", Json::Null)),
    ]);
    assert!(reshape_card_data_exec(&mut data, &maps()));

    let satanael = data.get("Satanael").unwrap();
    assert_eq!(satanael.get("anything").and_then(|v| v.as_i64()), Some(1));

    let tree = data.get("Treefolk").unwrap();
    let cost = tree.get("power_cost").unwrap().as_array().unwrap();
    assert_eq!(cost[0].as_i64(), Some(80));
    assert!(cost[1].is_null() && cost[2].is_null() && cost[3].is_null());
    let damage = tree.get("damage").unwrap().as_array().unwrap();
    assert!(damage[3].is_null());
    assert!(tree.get("health").unwrap().is_null());
    assert_eq!(tree.get("size").and_then(|v| v.as_str()), Some("M"));
    let up = tree.get("upgrades").unwrap();
    assert_eq!(up.as_object().unwrap().len(), 2);
    assert_eq!(location(up, "Nature"), Some("Map C".to_string()));
    assert_eq!(location(up, "Frost"), Some("Map C".to_string()));
    assert!(up.get("Nature").unwrap().get("general").unwrap().is_null());

    let bolt = data.get("Bolt").unwrap();
    assert!(bolt.get("size").unwrap().is_null());
    assert!(bolt.get("counter").unwrap().is_null());
    assert!(bolt.get("weapon_type").unwrap().is_null());
    assert!(bolt.get("damage").unwrap().is_null());
    assert!(bolt.get("health").unwrap().is_null());
    let up = bolt.get("upgrades").unwrap();
    assert_eq!(up.as_object().unwrap().len(), 1);
    assert_eq!(location(up, "normal"), Some("Map B".to_string()));
}

#[test]
fn buildings_keep_damage_but_lose_unit_fields() {
    let mut data = obj(vec![("Tower", card("Building", Json::Null))]);
    assert!(reshape_card_data_exec(&mut data, &maps()));
    let tower = data.get("Tower").unwrap();
    assert!(tower.get("size").unwrap().is_null());
    let damage = tower.get("damage").unwrap().as_array().unwrap();
    assert_eq!(damage[0].as_i64(), Some(300));
    assert!(tower.get("upgrades").unwrap().as_object().unwrap().is_empty());
}

#[test]
fn unreadable_data_is_refused() {
    let mut short = obj(vec![("A", obj(vec![("power_cost", Json::Array(vec![num(1)])), ("type", s("Unit")), ("upgrades", Json::Null)]))]);
    assert!(!reshape_card_data_exec(&mut short, &maps()));
    let mut no_upgrades = obj(vec![("A", obj(vec![("power_cost", levels(1)), ("type", s("Unit"))]))]);
    assert!(!reshape_card_data_exec(&mut no_upgrades, &maps()));
    let mut fine = obj(vec![("A", card("Unit", Json::Null))]);
    assert!(!reshape_card_data_exec(&mut fine, &obj(vec![("U1", obj(vec![]))])));
    let mut not_object = Json::Array(vec![]);
    assert!(!reshape_card_data_exec(&mut not_object, &maps()));
}

#[test]
fn only_satanael_needs_no_maps() {
    let mut data = obj(vec![("Satanael", num(3))]);
    assert!(reshape_card_data_exec(&mut data, &Json::Null));
    assert_eq!(data.get("Satanael").and_then(|v| v.as_i64()), Some(3));
}

#[test]
fn reshaping_twice_changes_nothing_more() {
    let mut data = obj(vec![
        ("Treefolk", card("Unit", Json::Array(vec![s("Nature"), s("Frost")]))),
        ("Bolt", card("Spelling", Json::Null)),
        ("Tower", card("Building", Json::Null)),
    ]);
    assert!(reshape_card_data_exec(&mut data, &maps()));
    let once = json_to_text(&data);
    assert!(reshape_card_data_exec(&mut data, &maps()));
    assert_eq!(json_to_text(&data), once);
}
