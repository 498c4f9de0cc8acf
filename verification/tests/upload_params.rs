use wikibot::json::Json;
use wikibot::upload::{edit_token, titles_param, token_form, upload_parameters, upload_query};

fn s(text: &str) -> Json {
    Json::Str(text.to_string())
}

fn obj(entries: Vec<(&str, Json)>) -> Json {
    Json::Object(entries.into_iter().map(|(k, v)| (k.to_string(), v)).collect())
}

fn pairs(v: &[(String, String)]) -> Vec<(&str, &str)> {
    v.iter().map(|(a, b)| (a.as_str(), b.as_str())).collect()
}

#[test]
fn titles_join_file_pages() {
    assert_eq!(titles_param(&vec![]), "");
    assert_eq!(titles_param(&vec!["a.png".to_string()]), "Datei:a.png");
    assert_eq!(
        titles_param(&vec!["a.png".to_string(), "b.jpg".to_string(), "ü.png".to_string()]),
        "Datei:a.png|Datei:b.jpg|Datei:ü.png"
    );
}

#[test]
fn token_form_asks_for_an_edit_token() {
    let f = token_form("Datei:a.png");
    assert_eq!(
        pairs(&f),
        vec![("action", "query"), ("format", "json"), ("prop", "info"), ("intoken", "edit"), ("titles", "Datei:a.png")]
    );
}

#[test]
fn edit_token_of_the_first_page() {
    let reply = obj(vec![(
        "query",
        obj(vec![("pages", obj(vec![("-1", obj(vec![("edittoken", s("tok+\\"))])), ("-2", obj(vec![("edittoken", s("other"))]))]))]),
    )]);
    assert_eq!(edit_token(&reply), Some("tok+\\".to_string()));
    assert_eq!(edit_token(&obj(vec![("query", obj(vec![("pages", obj(vec![]))]))])), None);
    assert_eq!(edit_token(&obj(vec![])), None);
}

#[test]
fn upload_query_names_the_file() {
    let q = upload_query("a.png", "tok");
    assert_eq!(
        pairs(&q),
        vec![
            ("action", "upload"),
            ("text", "{{Dateienkategorisierung}}"),
            ("format", "json"),
            ("filename", "a.png"),
            ("ignorewarnings", "1"),
            ("token", "tok"),
        ]
    );
}

#[test]
fn upload_parameters_default_to_empty_text() {
    assert_eq!(
        pairs(&upload_parameters(None, "a.png")),
        vec![("action", "upload"), ("text", ""), ("filename", "a.png"), ("ignorewarnings", "")]
    );
    assert_eq!(pairs(&upload_parameters(Some("Beschreibung"), "a.png"))[1], ("text", "Beschreibung"));
}
