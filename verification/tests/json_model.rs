use wikibot::json::{Json, JsonNumber};

fn s(text: &str) -> Json {
    Json::Str(text.to_string())
}

fn num(n: i64) -> Json {
    if n < 0 {
        Json::Number(JsonNumber::NegInt(n))
    } else {
        Json::Number(JsonNumber::PosInt(n as u64))
    }
}

fn obj(entries: Vec<(&str, Json)>) -> Json {
    Json::Object(entries.into_iter().map(|(k, v)| (k.to_string(), v)).collect())
}

#[test]
fn get_finds_members_of_objects_only() {
    let v = obj(vec![("a", num(1)), ("b", s("x"))]);
    assert_eq!(v.get("a").and_then(|x| x.as_i64()), Some(1));
    assert_eq!(v.get("b").and_then(|x| x.as_str()), Some("x"));
    assert!(v.get("c").is_none());
    assert!(s("a").get("a").is_none());
    assert!(Json::Array(vec![num(1)]).get("0").is_none());
}

#[test]
fn at_gives_null_for_missing_members() {
    let v = obj(vec![("query", obj(vec![("tokens", obj(vec![("logintoken", s("t"))]))]))]);
    assert_eq!(v.at("query").at("tokens").at("logintoken").as_str(), Some("t"));
    assert!(v.at("nothing").at("deeper").is_null());
    assert!(num(3).at("x").is_null());
}

#[test]
fn first_entry_wins_on_duplicate_keys() {
    let v = obj(vec![("a", num(1)), ("a", num(2))]);
    assert_eq!(v.get("a").and_then(|x| x.as_i64()), Some(1));
}

#[test]
fn items_of_arrays() {
    let v = Json::Array(vec![s("a"), s("b")]);
    assert_eq!(v.item(1).and_then(|x| x.as_str()), Some("b"));
    assert!(v.item(2).is_none());
    assert!(v.at_item(5).is_null());
    assert!(obj(vec![]).item(0).is_none());
}

#[test]
fn integers_as_i64() {
    assert_eq!(num(-5).as_i64(), Some(-5));
    assert_eq!(Json::Number(JsonNumber::PosInt(u64::MAX)).as_i64(), None);
    assert_eq!(Json::Number(JsonNumber::PosInt(9_223_372_036_854_775_807)).as_i64(), Some(i64::MAX));
    assert_eq!(Json::Number(JsonNumber::Float("1.5".to_string())).as_i64(), None);
    assert_eq!(s("1").as_i64(), None);
    assert_eq!(Json::Bool(true).as_bool(), Some(true));
    assert_eq!(Json::Null.as_bool(), None);
}

#[test]
fn kinds_of_values() {
    assert!(obj(vec![]).is_object());
    assert!(!obj(vec![]).is_array());
    assert!(Json::Array(vec![]).is_array());
    assert!(Json::Null.is_null());
    assert!(!num(0).is_null());
    assert!(obj(vec![("a", num(1))]).as_object().is_some());
    assert!(num(1).as_array().is_none());
}

#[test]
fn set_key_replaces_or_appends() {
    let mut v = obj(vec![("a", num(1)), ("b", num(2))]);
    v.set_key("a", s("new"));
    v.set_key("c", num(3));
    assert_eq!(v.get("a").and_then(|x| x.as_str()), Some("new"));
    assert_eq!(v.get("b").and_then(|x| x.as_i64()), Some(2));
    assert_eq!(v.get("c").and_then(|x| x.as_i64()), Some(3));
    let keys: Vec<&str> = v.as_object().unwrap().iter().map(|(k, _)| k.as_str()).collect();
    assert_eq!(keys, vec!["a", "b", "c"]);
}

#[test]
fn set_key_turns_null_into_an_object() {
    let mut v = Json::Null;
    v.set_key("size", Json::Null);
    assert!(v.is_object());
    assert!(v.get("size").unwrap().is_null());
}

#[test]
fn null_levels_clears_all_but_the_first_level() {
    let mut v = obj(vec![("power_cost", Json::Array(vec![num(60), num(61), num(62), num(63), num(64)]))]);
    v.null_levels("power_cost");
    let levels = v.get("power_cost").unwrap().as_array().unwrap();
    assert_eq!(levels.len(), 5);
    assert_eq!(levels[0].as_i64(), Some(60));
    assert!(levels[1].is_null() && levels[2].is_null() && levels[3].is_null());
    assert_eq!(levels[4].as_i64(), Some(64));
}
