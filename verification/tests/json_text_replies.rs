use wikibot::error::ReplyError;
use wikibot::json::{Json, JsonNumber};
use wikibot::json_text::{json_to_text, parse_json};
use wikibot::listing::{infobox_titles_text, Listing};
use wikibot::upload::edit_token_text;

#[test]
fn parse_reads_objects_arrays_and_numbers() {
    let j = parse_json("{\"b\":[1,-2,1.5,null,true],\"a\":\"x\"}").unwrap();
    assert_eq!(j.at("a").as_str(), Some("x"));
    let items = j.at("b").as_array().unwrap();
    assert_eq!(items.len(), 5);
    assert!(matches!(items[0], Json::Number(JsonNumber::PosInt(1))));
    assert!(matches!(items[1], Json::Number(JsonNumber::NegInt(-2))));
    assert!(matches!(&items[2], Json::Number(JsonNumber::Float(t)) if t == "1.5"));
    assert!(items[3].is_null());
    assert_eq!(items[4].as_bool(), Some(true));
}

#[test]
fn parse_refuses_text_that_is_not_json() {
    assert!(parse_json("{\"a\":").is_none());
    assert!(parse_json("not json").is_none());
}

#[test]
fn text_of_a_value_is_compact_with_sorted_keys() {
    let j = Json::Object(vec![
        ("b".to_string(), Json::Number(JsonNumber::NegInt(-3))),
        ("a".to_string(), Json::Array(vec![Json::Null, Json::Bool(false), Json::Str("q\"".to_string())])),
    ]);
    assert_eq!(json_to_text(&j), "{\"a\":[null,false,\"q\\\"\"],\"b\":-3}");
    let back = parse_json(&json_to_text(&j)).unwrap();
    assert_eq!(json_to_text(&back), json_to_text(&j));
}

#[test]
fn listing_takes_in_reply_text() {
    let mut l = Listing::new("allpages", "ap");
    let page = "{\"query\":{\"allpages\":[{\"title\":\"A\"},{\"title\":\"B\"}]},\"query-continue\":{\"allpages\":{\"apfrom\":\"C\"}}}";
    assert_eq!(l.absorb_text(page), Ok(()));
    assert_eq!(l.results(), &vec!["A".to_string(), "B".to_string()]);
    assert!(l.has_next());
    assert!(l.next_url().ends_with("&apfrom=C"));
    assert_eq!(l.absorb_text("<html>"), Err(ReplyError::NotJson));
    assert_eq!(l.absorb_text("{\"query\":{\"allpages\":[{\"name\":\"D\"}]}}"), Err(ReplyError::Unexpected));
    assert_eq!(l.results().len(), 2);
    assert_eq!(l.absorb_text("{\"query\":{\"allpages\":[{\"title\":\"C\"}]}}"), Ok(()));
    assert!(!l.has_next());
    assert_eq!(l.results().len(), 3);
}

#[test]
fn infobox_titles_from_reply_text() {
    let reply = "{\"query\":{\"allinfoboxes\":[{\"title\":\"Vorlage:A\"}]}}";
    assert_eq!(infobox_titles_text(reply, "allinfoboxes"), Ok(vec!["Vorlage:A".to_string()]));
    assert_eq!(infobox_titles_text("", "allinfoboxes"), Err(ReplyError::NotJson));
    assert_eq!(infobox_titles_text("{}", "allinfoboxes"), Err(ReplyError::Unexpected));
}

#[test]
fn edit_token_from_reply_text() {
    let reply = "{\"query\":{\"pages\":{\"-1\":{\"edittoken\":\"tok+\\\\\"}}}}";
    assert_eq!(edit_token_text(reply), Ok("tok+\\".to_string()));
    assert_eq!(edit_token_text("{"), Err(ReplyError::NotJson));
    assert_eq!(edit_token_text("{\"query\":{\"pages\":{}}}"), Err(ReplyError::Unexpected));
}
