//! The MediaWiki API client: its configuration, the parameters it sends, and the
//! login exchange as a state machine that the caller drives with the wiki's replies.
use vstd::prelude::*;
use crate::error::ClientError;
use crate::http::{build_client, client_builder, with_cookie_store, with_user_agent, Http, HttpSettings, HttpSettingsView};
use crate::json::{Json, JsonView};
use crate::json_text::{json_text, json_to_text};
use crate::text::str_eq;

verus! {

/// The model of a list of request parameters: name and value of each pair.
pub type ParamsView = Seq<(Seq<char>, Seq<char>)>;

/// The `User-Agent` header that every request carries.
pub const USER_AGENT: &'static str = "wikibot/0.1.0 using rust/reqwest";

/// A name/value parameter pair.
pub fn param(name: &str, value: &str) -> (r: (String, String))
    ensures
        r.0@ == name@,
        r.1@ == value@,
{
    (name.to_owned(), value.to_owned())
}

/// The query that selects JSON replies in the current format: every request to the
/// API carries it.
pub fn format_query() -> (r: Vec<(String, String)>)
    ensures
        r.deep_view() == seq![("format"@, "json"@), ("formatversion"@, "2"@)],
{
    let mut q: Vec<(String, String)> = Vec::new();
    q.push(param("format", "json"));
    q.push(param("formatversion", "2"));
    assert(q.deep_view() =~= seq![("format"@, "json"@), ("formatversion"@, "2"@)]);
    q
}

/// The actions of the API that change the wiki and so need the CSRF token.
pub open spec fn is_write_action(action: Seq<char>) -> bool {
    ||| action == "delete"@
    ||| action == "edit"@
    ||| action == "move"@
    ||| action == "upload"@
}

/// Some parameter selects an action that changes the wiki.
pub open spec fn needs_token(params: ParamsView) -> bool {
    exists|i: int| 0 <= i < params.len() && params[i].0 == "action"@ && is_write_action(params[i].1)
}

/// The form that a POST request sends: the parameters, followed by the CSRF token
/// when they ask for an action that changes the wiki.
pub open spec fn post_form_view(params: ParamsView, csrf_token: Seq<char>) -> ParamsView {
    if needs_token(params) {
        params.push(("token"@, csrf_token))
    } else {
        params
    }
}

fn is_write_action_exec(action: &str) -> (r: bool)
    ensures
        r == is_write_action(action@),
{
    str_eq(action, "delete") || str_eq(action, "edit") || str_eq(action, "move") || str_eq(
        action,
        "upload",
    )
}

/// The model of a wiki client: where the API is, whom to log in as, the CSRF token
/// that a successful login obtained (empty before), and the settings of its HTTP client.
pub struct WikiClientView {
    pub url: Seq<char>,
    pub loginname: Seq<char>,
    pub password: Seq<char>,
    pub csrf_token: Seq<char>,
    pub http: HttpSettingsView,
}

/// The settings of the client's HTTP client: a cookie store, which keeps the login
/// session between requests, and the crate's user agent.
pub open spec fn client_settings() -> HttpSettingsView {
    HttpSettingsView { cookie_store: true, user_agent: Some(USER_AGENT@) }
}

/// A client of one MediaWiki API endpoint.
#[derive(Debug)]
pub struct WikiClient {
    client: Http,
    url: String,
    loginname: String,
    password: String,
    csrf_token: String,
}

impl View for WikiClient {
    type V = WikiClientView;

    closed spec fn view(&self) -> WikiClientView {
        WikiClientView {
            url: self.url@,
            loginname: self.loginname@,
            password: self.password@,
            csrf_token: self.csrf_token@,
            http: self.client.settings(),
        }
    }
}

impl Clone for WikiClient {
    /// A client with the same configuration and token that shares the HTTP client.
    fn clone(&self) -> (r: Self)
        ensures
            r@ == self@,
            r.http() == self.http(),
    {
        WikiClient {
            client: self.client.share(),
            url: self.url.clone(),
            loginname: self.loginname.clone(),
            password: self.password.clone(),
            csrf_token: self.csrf_token.clone(),
        }
    }
}

impl AsRef<WikiClient> for WikiClient {
    fn as_ref(&self) -> (r: &WikiClient)
        ensures
            r == self,
    {
        self
    }
}

/// A client that holds the token is logged in.
pub open spec fn is_logged_in(c: WikiClientView) -> bool {
    c.csrf_token.len() > 0
}

/// The stages of the login exchange.
#[derive(Clone, Copy, Debug, PartialEq, Eq)]
pub enum LoginStage {
    /// Waiting for the reply that carries the login token.
    AwaitingLoginToken,
    /// Waiting for the reply to the login itself.
    AwaitingLoginResult,
    /// Waiting for the reply that carries the CSRF token.
    AwaitingCsrfToken,
    /// The exchange is over.
    Finished,
}

/// What the caller does next in the login exchange.
#[derive(Debug)]
pub enum LoginAction {
    /// Send a GET request with these parameters and hand back the JSON reply.
    Get(Vec<(String, String)>),
    /// Send a POST request with this form and hand back the JSON reply.
    Post(Vec<(String, String)>),
    /// Stop: the exchange ended with this outcome.
    Finish(Result<(), ClientError>),
}

/// The login token of a reply to the login-token query.
pub open spec fn login_token_of(reply: JsonView) -> Option<Seq<char>> {
    reply.at("query"@).at("tokens"@).at("logintoken"@).as_str()
}

/// The result field of a reply to the login.
pub open spec fn login_result_of(reply: JsonView) -> Option<Seq<char>> {
    reply.at("login"@).at("result"@).as_str()
}

/// The reason field of a reply to the login.
pub open spec fn login_reason_of(reply: JsonView) -> Option<Seq<char>> {
    reply.at("login"@).at("reason"@).as_str()
}

/// The CSRF token of a reply to the CSRF-token query.
pub open spec fn csrf_token_of(reply: JsonView) -> Option<Seq<char>> {
    reply.at("query"@).at("tokens"@).at("csrftoken"@).as_str()
}

/// The CSRF token of a reply, when it is one that a logged-in session can use.
pub open spec fn accepted_csrf_token(reply: JsonView) -> Option<Seq<char>> {
    match csrf_token_of(reply) {
        Some(t) => if t == refused_token() {
            None
        } else {
            Some(t)
        },
        None => None,
    }
}

/// The stage after a reply: the login token leads to the login, a login that did not
/// fail leads to the CSRF-token query, and everything else ends the exchange.
pub open spec fn login_next_stage(stage: LoginStage, reply: JsonView) -> LoginStage {
    match stage {
        LoginStage::AwaitingLoginToken => if login_token_of(reply) is Some {
            LoginStage::AwaitingLoginResult
        } else {
            LoginStage::Finished
        },
        LoginStage::AwaitingLoginResult => if login_result_of(reply) is Some && login_result_of(
            reply,
        )->0 != "Failed"@ {
            LoginStage::AwaitingCsrfToken
        } else {
            LoginStage::Finished
        },
        _ => LoginStage::Finished,
    }
}

/// How many replies the exchange still waits for at most.
pub open spec fn stages_left(stage: LoginStage) -> nat {
    match stage {
        LoginStage::AwaitingLoginToken => 3,
        LoginStage::AwaitingLoginResult => 2,
        LoginStage::AwaitingCsrfToken => 1,
        LoginStage::Finished => 0,
    }
}

/// Law: every reply moves the login exchange forward, so it ends after at most three
/// replies, whatever the wiki answers.
pub proof fn law_login_advances(stage: LoginStage, reply: JsonView)
    requires
        stage != LoginStage::Finished,
    ensures
        stages_left(login_next_stage(stage, reply)) < stages_left(stage),
{
}

/// Law: a POST form keeps the parameters it was given, in order, and adds at most the
/// token, exactly for actions that change the wiki.
pub proof fn law_post_form_shape(params: ParamsView, token: Seq<char>)
    ensures
        post_form_view(params, token).take(params.len() as int) == params,
        needs_token(params) ==> post_form_view(params, token).len() == params.len() + 1
            && post_form_view(params, token).last() == ("token"@, token),
        !needs_token(params) ==> post_form_view(params, token) == params,
{
    if needs_token(params) {
        assert(post_form_view(params, token).take(params.len() as int) =~= params);
    } else {
        assert(params.take(params.len() as int) =~= params);
    }
}

/// Law: once a login has stored the CSRF token of the wiki's reply, every POST form of an
/// action that changes the wiki ends with exactly that token.
pub proof fn law_write_requests_carry_login_token(
    c: WikiClientView,
    reply: JsonView,
    params: ParamsView,
)
    requires
        accepted_csrf_token(reply) is Some,
        needs_token(params),
    ensures
        post_form_view(
            params,
            (WikiClientView { csrf_token: accepted_csrf_token(reply)->0, ..c }).csrf_token,
        ).last() == ("token"@, accepted_csrf_token(reply)->0),
{
}

/// The text `+\\` (a plus and two backslashes) that a CSRF token is checked against: a
/// token equal to it is taken as empty and refused.
pub open spec fn refused_token() -> Seq<char> {
    "+\\\\"@
}

/// Law: a token query asks the `tokens` meta query for exactly the given type of token.
pub proof fn law_token_query_asks_for_kind(kind: Seq<char>, other: Seq<char>)
    ensures
        token_query_view(kind).len() == 3,
        token_query_view(kind)[0] == ("action"@, "query"@),
        token_query_view(kind)[1] == ("meta"@, "tokens"@),
        token_query_view(kind).last() == ("type"@, kind),
        token_query_view(kind) == token_query_view(other) ==> kind == other,
{
    if token_query_view(kind) == token_query_view(other) {
        assert(token_query_view(kind)[2] == token_query_view(other)[2]);
    }
}

/// Law: the login form sends the reply's login token verbatim, with the client's account:
/// it names the login action, the login name and the password, and ends with the token
/// exactly as given; different tokens give different forms.
pub proof fn law_login_form_sends_token(c: WikiClientView, token: Seq<char>, other: Seq<char>)
    ensures
        login_form_view(c, token).len() == 4,
        login_form_view(c, token)[0] == ("action"@, "login"@),
        login_form_view(c, token)[1] == ("lgname"@, c.loginname),
        login_form_view(c, token)[2] == ("lgpassword"@, c.password),
        login_form_view(c, token).last() == ("lgtoken"@, token),
        login_form_view(c, token) == login_form_view(c, other) ==> token == other,
{
    if login_form_view(c, token) == login_form_view(c, other) {
        assert(login_form_view(c, token)[3] == login_form_view(c, other)[3]);
    }
}

/// The query for a token of the given type.
pub open spec fn token_query_view(kind: Seq<char>) -> ParamsView {
    seq![("action"@, "query"@), ("meta"@, "tokens"@), ("type"@, kind)]
}

/// The form of the login request.
pub open spec fn login_form_view(c: WikiClientView, token: Seq<char>) -> ParamsView {
    seq![("action"@, "login"@), ("lgname"@, c.loginname), ("lgpassword"@, c.password), ("lgtoken"@, token)]
}

fn token_query(kind: &str) -> (r: Vec<(String, String)>)
    ensures
        r.deep_view() == token_query_view(kind@),
{
    let mut q: Vec<(String, String)> = Vec::new();
    q.push(param("action", "query"));
    q.push(param("meta", "tokens"));
    q.push(param("type", kind));
    assert(q.deep_view() =~= token_query_view(kind@));
    q
}

fn build_http() -> (r: Result<Http, ClientError>)
    ensures
        match r {
            Ok(h) => h.settings() == client_settings(),
            Err(e) => e is BuildFailed,
        },
{
    let builder = client_builder();
    let builder = with_cookie_store(builder, true);
    let builder = with_user_agent(builder, USER_AGENT);
    match build_client(builder) {
        Ok(client) => Ok(client),
        Err(source) => Err(ClientError::BuildFailed { source }),
    }
}

impl WikiClient {
    /// The HTTP client that carries the requests.
    pub closed spec fn http(&self) -> reqwest::Client {
        self.client.handle()
    }

    /// A client with a cookie store and the crate's user agent, with no endpoint, no
    /// credentials and no token yet.
    pub fn new() -> (r: Result<WikiClient, ClientError>)
        ensures
            match r {
                Ok(c) => c@ == (WikiClientView {
                    url: Seq::empty(),
                    loginname: Seq::empty(),
                    password: Seq::empty(),
                    csrf_token: Seq::empty(),
                    http: client_settings(),
                }),
                Err(e) => e is BuildFailed,
            },
    {
        let client = build_http()?;
        Ok(WikiClient {
            client,
            url: String::new(),
            loginname: String::new(),
            password: String::new(),
            csrf_token: String::new(),
        })
    }

    /// A client for the API at `url`, with no credentials and no token yet.
    pub fn from(url: &str) -> (r: Result<WikiClient, ClientError>)
        ensures
            match r {
                Ok(c) => c@ == (WikiClientView {
                    url: url@,
                    loginname: Seq::empty(),
                    password: Seq::empty(),
                    csrf_token: Seq::empty(),
                    http: client_settings(),
                }),
                Err(e) => e is BuildFailed,
            },
    {
        let client = build_http()?;
        Ok(WikiClient {
            client,
            url: url.to_owned(),
            loginname: String::new(),
            password: String::new(),
            csrf_token: String::new(),
        })
    }

    /// Points the client at another API endpoint.
    pub fn url(&mut self, url: &str)
        ensures
            final(self)@ == (WikiClientView { url: url@, ..old(self)@ }),
            final(self).http() == old(self).http(),
    {
        self.url = url.to_owned();
    }

    /// Sets the account to log in as.
    pub fn credentials(&mut self, loginname: &str, password: &str)
        ensures
            final(self)@ == (WikiClientView {
                loginname: loginname@,
                password: password@,
                ..old(self)@
            }),
            final(self).http() == old(self).http(),
    {
        self.loginname = loginname.to_owned();
        self.password = password.to_owned();
    }

    /// The address of the API endpoint.
    pub fn api_url(&self) -> (r: &str)
        ensures
            r@ == self@.url,
    {
        self.url.as_str()
    }

    /// The HTTP client that carries the requests.
    pub fn client(&self) -> (r: &reqwest::Client)
        ensures
            *r == self.http(),
    {
        self.client.client()
    }

    /// The settings that the HTTP client was built with.
    pub fn http_settings(&self) -> (r: &HttpSettings)
        ensures
            r@ == self@.http,
    {
        self.client.built_with()
    }

    /// Whether a login obtained a token.
    pub fn logged_in(&self) -> (r: bool)
        ensures
            r == is_logged_in(self@),
    {
        !self.csrf_token.as_str().is_empty()
    }

    /// The form of a POST request: the parameters, with the CSRF token appended when
    /// one of them asks for `delete`, `edit`, `move` or `upload`.
    pub fn post_form(&self, parameters: &[(&str, &str)]) -> (r: Vec<(String, String)>)
        ensures
            r.deep_view() == post_form_view(parameters.deep_view(), self@.csrf_token),
    {
        let ghost pv = parameters.deep_view();
        let n = parameters.len();
        let mut out: Vec<(String, String)> = Vec::new();
        let mut write = false;
        let mut i: usize = 0;
        while i < n
            invariant
                n == parameters@.len(),
                pv == parameters.deep_view(),
                i <= n,
                out.deep_view() =~= pv.take(i as int),
                write == exists|j: int|
                    0 <= j < i && pv[j].0 == "action"@ && is_write_action(pv[j].1),
            decreases n - i,
        {
            let (name, value) = parameters[i];
            if str_eq(name, "action") && is_write_action_exec(value) {
                write = true;
            }
            let ghost prev = out@;
            assert(out.deep_view().len() == i);
            out.push(param(name, value));
            proof {
                assert(out@.len() == i + 1);
                assert(pv[i as int] == (name@, value@));
                assert forall|j: int| 0 <= j < i + 1 implies out.deep_view()[j] == pv.take(
                    i + 1,
                )[j] by {
                    if j < i {
                        assert(out@[j] == prev[j]);
                        assert(pv.take(i as int)[j] == pv[j]);
                    }
                }
                assert(out.deep_view() =~= pv.take(i + 1));
            }
            i = i + 1;
        }
        proof {
            assert(pv.take(n as int) =~= pv);
        }
        if write {
            out.push(param("token", self.csrf_token.as_str()));
            assert(out.deep_view() =~= pv.push(("token"@, self@.csrf_token)));
        }
        out
    }

    /// The first request of the login exchange: the query for a login token.
    pub fn login_start(&self) -> (r: (LoginStage, LoginAction))
        ensures
            r.0 == LoginStage::AwaitingLoginToken,
            r.1 matches LoginAction::Get(q) && q.deep_view() == token_query_view("login"@),
    {
        (LoginStage::AwaitingLoginToken, LoginAction::Get(token_query("login")))
    }

    /// One step of the login exchange: takes the stage and the JSON reply to the last
    /// request, and gives the next stage and what to do. A reply without the token that
    /// was asked for ends the exchange with the reply written out as JSON text. The CSRF
    /// token is stored when its reply carries one that is not the placeholder `+\\`.
    pub fn login_step(&mut self, stage: LoginStage, reply: &Json) -> (r: (
        LoginStage,
        LoginAction,
    ))
        requires
            stage != LoginStage::Finished,
        ensures
            r.0 == login_next_stage(stage, reply@),
            stage == LoginStage::AwaitingLoginToken ==> match login_token_of(reply@) {
                Some(t) => r.0 == LoginStage::AwaitingLoginResult && (r.1 matches LoginAction::Post(
                    f,
                ) && f.deep_view() == login_form_view(old(self)@, t)),
                None => r.0 == LoginStage::Finished && (r.1 matches LoginAction::Finish(
                    Err(ClientError::TokenNotFound(s)),
                ) && s@ == json_text(reply@)),
            },
            stage == LoginStage::AwaitingLoginResult ==> match login_result_of(reply@) {
                Some(res) => if res == "Failed"@ {
                    r.0 == LoginStage::Finished && (r.1 matches LoginAction::Finish(
                        Err(ClientError::LoginFailed(why)),
                    ) && why@ == match login_reason_of(reply@) {
                        Some(reason) => reason,
                        None => "no reason provided"@,
                    })
                } else {
                    r.0 == LoginStage::AwaitingCsrfToken && (r.1 matches LoginAction::Get(q)
                        && q.deep_view() == token_query_view("csrf"@))
                },
                None => r.0 == LoginStage::Finished && (r.1 matches LoginAction::Finish(
                    Err(ClientError::LoginFailed(why)),
                ) && why@ == "unknown error"@),
            },
            stage == LoginStage::AwaitingCsrfToken ==> r.0 == LoginStage::Finished && match csrf_token_of(
                reply@,
            ) {
                Some(t) => if t == refused_token() {
                    r.1 matches LoginAction::Finish(Err(ClientError::TokenNotFound(s))) && s@
                        == "token was '+\\\\' aka empty"@
                } else {
                    r.1 matches LoginAction::Finish(Ok(()))
                },
                None => r.1 matches LoginAction::Finish(Err(ClientError::TokenNotFound(s))) && s@
                    == json_text(reply@),
            },
            final(self)@ == (if stage == LoginStage::AwaitingCsrfToken && accepted_csrf_token(
                reply@,
            ) is Some {
                WikiClientView { csrf_token: accepted_csrf_token(reply@)->0, ..old(self)@ }
            } else {
                old(self)@
            }),
            final(self).http() == old(self).http(),
    {
        match stage {
            LoginStage::AwaitingLoginToken => {
                match reply.at("query").at("tokens").at("logintoken").as_str() {
                    Some(token) => {
                        let mut form: Vec<(String, String)> = Vec::new();
                        form.push(param("action", "login"));
                        form.push(param("lgname", self.loginname.as_str()));
                        form.push(param("lgpassword", self.password.as_str()));
                        form.push(param("lgtoken", token));
                        assert(form.deep_view() =~= login_form_view(self@, token@));
                        (LoginStage::AwaitingLoginResult, LoginAction::Post(form))
                    },
                    None => (
                        LoginStage::Finished,
                        LoginAction::Finish(Err(ClientError::TokenNotFound(json_to_text(reply)))),
                    ),
                }
            },
            LoginStage::AwaitingLoginResult => {
                let login = reply.at("login");
                match login.at("result").as_str() {
                    Some(result) => {
                        if str_eq(result, "Failed") {
                            let why = match login.at("reason").as_str() {
                                Some(reason) => reason.to_owned(),
                                None => "no reason provided".to_owned(),
                            };
                            (LoginStage::Finished, LoginAction::Finish(Err(ClientError::LoginFailed(why))))
                        } else {
                            (LoginStage::AwaitingCsrfToken, LoginAction::Get(token_query("csrf")))
                        }
                    },
                    None => (
                        LoginStage::Finished,
                        LoginAction::Finish(
                            Err(ClientError::LoginFailed("unknown error".to_owned())),
                        ),
                    ),
                }
            },
            _ => {
                match reply.at("query").at("tokens").at("csrftoken").as_str() {
                    Some(token) => {
                        if str_eq(token, "+\\\\") {
                            (
                                LoginStage::Finished,
                                LoginAction::Finish(
                                    Err(
                                        ClientError::TokenNotFound(
                                            "token was '+\\\\' aka empty".to_owned(),
                                        ),
                                    ),
                                ),
                            )
                        } else {
                            self.csrf_token = token.to_owned();
                            (LoginStage::Finished, LoginAction::Finish(Ok(())))
                        }
                    },
                    None => (
                        LoginStage::Finished,
                        LoginAction::Finish(Err(ClientError::TokenNotFound(json_to_text(reply)))),
                    ),
                }
            },
        }
    }
}

} // verus!
