use wikibot::client::{format_query, LoginAction, LoginStage, WikiClient, USER_AGENT};
use wikibot::error::ClientError;
use wikibot::json::Json;

fn s(text: &str) -> Json {
    Json::Str(text.to_string())
}

fn obj(entries: Vec<(&str, Json)>) -> Json {
    Json::Object(entries.into_iter().map(|(k, v)| (k.to_string(), v)).collect())
}

fn pairs(v: &[(String, String)]) -> Vec<(&str, &str)> {
    v.iter().map(|(a, b)| (a.as_str(), b.as_str())).collect()
}

fn token_reply(kind: &str, token: &str) -> Json {
    obj(vec![("batchcomplete", Json::Bool(true)), ("query", obj(vec![("tokens", obj(vec![(kind, s(token))]))]))])
}

fn logged_in_client() -> WikiClient {
    let mut c = WikiClient::from("https://wiki.example/api.php").unwrap();
    c.credentials("Bot", "secret");
    let (stage, _) = c.login_start();
    let (stage, _) = c.login_step(stage, &token_reply("logintoken", "lt+\\"));
    let reply = obj(vec![("login", obj(vec![("result", s("Success"))]))]);
    let (stage, _) = c.login_step(stage, &reply);
    let (stage, action) = c.login_step(stage, &token_reply("csrftoken", "abc+\\"));
    assert_eq!(stage, LoginStage::Finished);
    assert!(matches!(action, LoginAction::Finish(Ok(()))));
    c
}

#[test]
fn format_query_asks_for_json() {
    let q = format_query();
    assert_eq!(pairs(&q), vec![("format", "json"), ("formatversion", "2")]);
}

#[test]
fn fresh_clients_are_not_logged_in() {
    let c = WikiClient::new().unwrap();
    assert!(!c.logged_in());
    assert_eq!(c.api_url(), "");
    let c = WikiClient::from("https://wiki.example/api.php").unwrap();
    assert!(!c.logged_in());
    assert_eq!(c.api_url(), "https://wiki.example/api.php");
    assert!(USER_AGENT.ends_with(" using rust/reqwest"));
}

#[test]
fn url_can_be_changed() {
    let mut c = WikiClient::new().unwrap();
    c.url("https://other.example/api.php");
    assert_eq!(c.api_url(), "https://other.example/api.php");
}

#[test]
fn read_requests_carry_no_token() {
    let c = logged_in_client();
    let form = c.post_form(&[("action", "query"), ("list", "allpages")]);
    assert_eq!(pairs(&form), vec![("action", "query"), ("list", "allpages")]);
}

#[test]
fn write_requests_carry_the_token() {
    let c = logged_in_client();
    for action in ["delete", "edit", "move", "upload"] {
        let form = c.post_form(&[("action", action), ("title", "Seite")]);
        assert_eq!(pairs(&form), vec![("action", action), ("title", "Seite"), ("token", "abc+\\")]);
    }
    let form = c.post_form(&[("title", "Seite"), ("action", "edit")]);
    assert_eq!(form.last().unwrap().1, "abc+\\");
    let form = c.post_form(&[("edit", "action")]);
    assert_eq!(form.len(), 1);
}

#[test]
fn login_exchange_succeeds() {
    let mut c = WikiClient::from("https://wiki.example/api.php").unwrap();
    c.credentials("Bot", "secret");
    let (stage, action) = c.login_start();
    assert_eq!(stage, LoginStage::AwaitingLoginToken);
    match action {
        LoginAction::Get(q) => assert_eq!(pairs(&q), vec![("action", "query"), ("meta", "tokens"), ("type", "login")]),
        _ => panic!("expected a query"),
    }
    let (stage, action) = c.login_step(stage, &token_reply("logintoken", "lt"));
    assert_eq!(stage, LoginStage::AwaitingLoginResult);
    match action {
        LoginAction::Post(f) => assert_eq!(
            pairs(&f),
            vec![("action", "login"), ("lgname", "Bot"), ("lgpassword", "secret"), ("lgtoken", "lt")]
        ),
        _ => panic!("expected a login"),
    }
    let reply = obj(vec![("login", obj(vec![("result", s("Success")), ("lgusername", s("Bot"))]))]);
    let (stage, action) = c.login_step(stage, &reply);
    assert_eq!(stage, LoginStage::AwaitingCsrfToken);
    match action {
        LoginAction::Get(q) => assert_eq!(pairs(&q), vec![("action", "query"), ("meta", "tokens"), ("type", "csrf")]),
        _ => panic!("expected a query"),
    }
    assert!(!c.logged_in());
    let (stage, action) = c.login_step(stage, &token_reply("csrftoken", "abc+\\"));
    assert_eq!(stage, LoginStage::Finished);
    assert!(matches!(action, LoginAction::Finish(Ok(()))));
    assert!(c.logged_in());
}

#[test]
fn missing_login_token_is_reported_with_the_reply() {
    let mut c = WikiClient::from("https://wiki.example/api.php").unwrap();
    let (stage, _) = c.login_start();
    let (stage, action) = c.login_step(stage, &obj(vec![("error", s("x"))]));
    assert_eq!(stage, LoginStage::Finished);
    match action {
        LoginAction::Finish(Err(ClientError::TokenNotFound(text))) => assert_eq!(text, "{\"error\":\"x\"}"),
        _ => panic!("expected TokenNotFound"),
    }
}

#[test]
fn failed_login_gives_the_reason() {
    let mut c = WikiClient::from("https://wiki.example/api.php").unwrap();
    let reply = obj(vec![("login", obj(vec![("result", s("Failed")), ("reason", s("Incorrect password"))]))]);
    let (stage, action) = c.login_step(LoginStage::AwaitingLoginResult, &reply);
    assert_eq!(stage, LoginStage::Finished);
    match action {
        LoginAction::Finish(Err(ClientError::LoginFailed(why))) => assert_eq!(why, "Incorrect password"),
        _ => panic!("expected LoginFailed"),
    }
    let reply = obj(vec![("login", obj(vec![("result", s("Failed"))]))]);
    match c.login_step(LoginStage::AwaitingLoginResult, &reply).1 {
        LoginAction::Finish(Err(ClientError::LoginFailed(why))) => assert_eq!(why, "no reason provided"),
        _ => panic!("expected LoginFailed"),
    }
    match c.login_step(LoginStage::AwaitingLoginResult, &obj(vec![])).1 {
        LoginAction::Finish(Err(ClientError::LoginFailed(why))) => assert_eq!(why, "unknown error"),
        _ => panic!("expected LoginFailed"),
    }
    assert!(!c.logged_in());
}

#[test]
fn anonymous_csrf_token_is_refused() {
    let mut c = WikiClient::from("https://wiki.example/api.php").unwrap();
    let (stage, action) = c.login_step(LoginStage::AwaitingCsrfToken, &token_reply("csrftoken", "+\\\\"));
    assert_eq!(stage, LoginStage::Finished);
    match action {
        LoginAction::Finish(Err(ClientError::TokenNotFound(text))) => assert_eq!(text, "token was '+\\\\' aka empty"),
        _ => panic!("expected TokenNotFound"),
    }
    assert!(!c.logged_in());
    match c.login_step(LoginStage::AwaitingCsrfToken, &obj(vec![])).1 {
        LoginAction::Finish(Err(ClientError::TokenNotFound(text))) => assert_eq!(text, "{}"),
        _ => panic!("expected TokenNotFound"),
    }
}

#[test]
fn clone_keeps_the_login() {
    let c = logged_in_client();
    let d = c.clone();
    assert!(d.logged_in());
    assert_eq!(d.api_url(), c.api_url());
    let r: &WikiClient = c.as_ref();
    assert_eq!(r.api_url(), "https://wiki.example/api.php");
    let _http = c.client();
}

#[test]
fn clients_keep_cookies_and_send_the_user_agent() {
    let c = WikiClient::new().unwrap();
    assert!(c.http_settings().cookie_store);
    assert_eq!(c.http_settings().user_agent.as_deref(), Some(USER_AGENT));
    let d = WikiClient::from("https://wiki.example/api.php").unwrap().clone();
    assert!(d.http_settings().cookie_store);
    assert_eq!(d.http_settings().user_agent.as_deref(), Some(USER_AGENT));
}

#[test]
fn clones_share_the_http_client_settings() {
    let c = logged_in_client();
    let d = c.clone();
    assert_eq!(d.http_settings().cookie_store, c.http_settings().cookie_store);
    assert_eq!(d.api_url(), c.api_url());
}
