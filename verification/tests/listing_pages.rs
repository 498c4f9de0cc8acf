use wikibot::json::Json;
use wikibot::listing::{infobox_titles, infobox_url, names_json_text, Listing, LIST_QUERY};

fn s(text: &str) -> Json {
    Json::Str(text.to_string())
}

fn obj(entries: Vec<(&str, Json)>) -> Json {
    Json::Object(entries.into_iter().map(|(k, v)| (k.to_string(), v)).collect())
}

#[test]
fn pages_are_followed_until_no_continuation() {
    let mut l = Listing::new("allpages", "ap");
    assert!(l.has_next());
    assert_eq!(
        l.next_url(),
        "https://leagueoflegends.fandom.com/de/api.php?action=query&format=json&list=allpages&aplimit=5000"
    );
    let first = obj(vec![
        ("query", obj(vec![("allpages", Json::Array(vec![obj(vec![("title", s("A"))]), obj(vec![("title", s("B"))])]))])),
        ("query-continue", obj(vec![("allpages", obj(vec![("apfrom", s("C"))]))])),
    ]);
    assert!(l.absorb(&first));
    assert!(l.has_next());
    assert!(l.next_url().ends_with("&aplimit=5000&apfrom=C"));
    let second = obj(vec![(
        "query",
        obj(vec![("allpages", obj(vec![("1", obj(vec![("title", s("C"))])), ("2", obj(vec![("title", s("D"))]))]))]),
    )]);
    assert!(l.absorb(&second));
    assert!(!l.has_next());
    assert_eq!(l.results(), &vec!["A".to_string(), "B".to_string(), "C".to_string(), "D".to_string()]);
}

#[test]
fn categories_use_the_star_field() {
    let mut l = Listing::new("allcategories", "ac");
    let reply = obj(vec![("query", obj(vec![("allcategories", Json::Array(vec![obj(vec![("*", s("Champions"))])]))]))]);
    assert!(l.absorb(&reply));
    assert_eq!(l.results(), &vec!["Champions".to_string()]);
    assert!(!l.has_next());
}

#[test]
fn lists_of_other_shapes_add_nothing() {
    let mut l = Listing::new("allimages", "ai");
    assert!(l.absorb(&obj(vec![("query", obj(vec![("allimages", s("none"))]))])));
    assert!(l.results().is_empty());
}

#[test]
fn infobox_lists() {
    assert_eq!(infobox_url("allinfoboxes"), format!("{}allinfoboxes", LIST_QUERY));
    let reply = obj(vec![(
        "query",
        obj(vec![("allinfoboxes", Json::Array(vec![obj(vec![("title", s("Vorlage:A"))]), obj(vec![("title", s("Vorlage:B"))])]))]),
    )]);
    assert_eq!(infobox_titles(&reply, "allinfoboxes"), Some(vec!["Vorlage:A".to_string(), "Vorlage:B".to_string()]));
    assert_eq!(infobox_titles(&obj(vec![]), "allinfoboxes"), None);
}

#[test]
fn unreadable_pages_change_nothing() {
    let mut l = Listing::new("allpages", "ap");
    let bad = obj(vec![("query", obj(vec![("allpages", Json::Array(vec![obj(vec![("name", s("A"))])]))]))]);
    assert!(!l.absorb(&bad));
    let no_marker = obj(vec![("query-continue", obj(vec![]))]);
    assert!(!l.absorb(&no_marker));
    assert!(l.has_next());
    assert!(l.results().is_empty());
}

#[test]
fn names_are_written_as_a_json_array() {
    assert_eq!(names_json_text(&vec!["A".to_string(), "B \"b\"".to_string()]), "[\"A\",\"B \\\"b\\\"\"]");
    assert_eq!(names_json_text(&vec![]), "[]");
}
