//! The HTTP client handle that the wiki client carries, built through `reqwest`.
use vstd::prelude::*;

verus! {

/// The `reqwest` asynchronous HTTP client; opaque to verification.
#[verifier::external_type_specification]
#[verifier::external_body]
pub struct ExClient(reqwest::Client);

/// The builder for a `reqwest` client; opaque to verification.
#[verifier::external_type_specification]
#[verifier::external_body]
pub struct ExClientBuilder(reqwest::ClientBuilder);

/// The error type of `reqwest`; opaque to verification.
#[verifier::external_type_specification]
#[verifier::external_body]
pub struct ExReqwestError(reqwest::Error);

/// `reqwest::Client::clone` is derived over the client's one `Arc` field: the copy is a
/// handle to the same client (connection pool, cookie store and settings), so it is
/// claimed equal to the original.
pub assume_specification[ <reqwest::Client as Clone>::clone ](client: &reqwest::Client) -> (r: reqwest::Client)
    ensures
        r == *client,
;

/// The settings of an HTTP client that the library fixes: whether it keeps cookies
/// between requests, and the `User-Agent` header it sends, if any.
pub struct HttpSettingsView {
    pub cookie_store: bool,
    pub user_agent: Option<Seq<char>>,
}

/// The settings that an HTTP client is built with, as plain values.
#[derive(Debug)]
pub struct HttpSettings {
    pub cookie_store: bool,
    pub user_agent: Option<String>,
}

impl View for HttpSettings {
    type V = HttpSettingsView;

    open spec fn view(&self) -> HttpSettingsView {
        HttpSettingsView {
            cookie_store: self.cookie_store,
            user_agent: match self.user_agent {
                Some(a) => Some(a@),
                None => None,
            },
        }
    }
}

impl HttpSettings {
    /// A copy of the settings.
    pub fn duplicate(&self) -> (r: HttpSettings)
        ensures
            r@ == self@,
    {
        HttpSettings {
            cookie_store: self.cookie_store,
            user_agent: match &self.user_agent {
                Some(a) => Some(a.clone()),
                None => None,
            },
        }
    }
}

/// A `reqwest` client builder, with the settings that were handed to it.
#[derive(Debug)]
pub struct HttpBuilder {
    builder: reqwest::ClientBuilder,
    settings: HttpSettings,
}

impl HttpBuilder {
    /// The settings that were handed to the builder.
    pub closed spec fn settings(&self) -> HttpSettingsView {
        self.settings@
    }
}

/// A `reqwest` client, with the settings it was built with.
#[derive(Debug)]
pub struct Http {
    client: reqwest::Client,
    settings: HttpSettings,
}

impl Http {
    /// The settings that the client was built with.
    pub closed spec fn settings(&self) -> HttpSettingsView {
        self.settings@
    }

    /// The `reqwest` client itself.
    pub closed spec fn handle(&self) -> reqwest::Client {
        self.client
    }

    /// The `reqwest` client that carries the requests.
    pub fn client(&self) -> (r: &reqwest::Client)
        ensures
            *r == self.handle(),
    {
        &self.client
    }

    /// The settings that the client was built with.
    pub fn built_with(&self) -> (r: &HttpSettings)
        ensures
            r@ == self.settings(),
    {
        &self.settings
    }

    /// A second handle to the same client, with the same settings.
    pub fn share(&self) -> (r: Http)
        ensures
            r.settings() == self.settings(),
            r.handle() == self.handle(),
    {
        Http { client: self.client.clone(), settings: self.settings.duplicate() }
    }
}

/// Calls `reqwest::Client::builder`, which starts from the default configuration: no
/// cookie store and no `User-Agent` header.
#[verifier::external_body]
pub(crate) fn client_builder() -> (r: HttpBuilder)
    ensures
        r.settings() == (HttpSettingsView { cookie_store: false, user_agent: None }),
{
    HttpBuilder {
        builder: reqwest::Client::builder(),
        settings: HttpSettings { cookie_store: false, user_agent: None },
    }
}

/// Calls `reqwest::ClientBuilder::cookie_store`, which switches the persistent cookie
/// jar on or off; the other settings stay.
#[verifier::external_body]
pub(crate) fn with_cookie_store(b: HttpBuilder, enable: bool) -> (r: HttpBuilder)
    ensures
        r.settings() == (HttpSettingsView { cookie_store: enable, ..b.settings() }),
{
    HttpBuilder {
        builder: b.builder.cookie_store(enable),
        settings: HttpSettings { cookie_store: enable, user_agent: b.settings.user_agent },
    }
}

/// Calls `reqwest::ClientBuilder::user_agent`, which sets the `User-Agent` header of every
/// request; the other settings stay. (A value that is no valid header makes the later
/// `build` fail.)
#[verifier::external_body]
pub(crate) fn with_user_agent(b: HttpBuilder, agent: &str) -> (r: HttpBuilder)
    ensures
        r.settings() == (HttpSettingsView { user_agent: Some(agent@), ..b.settings() }),
{
    HttpBuilder {
        builder: b.builder.user_agent(agent),
        settings: HttpSettings { cookie_store: b.settings.cookie_store, user_agent: Some(agent.to_owned()) },
    }
}

/// Calls `reqwest::ClientBuilder::build`: a client built from it has the builder's
/// settings. Whether it succeeds depends on the machine (the TLS backend and the resolver
/// configuration), so nothing is claimed of the outcome.
#[verifier::external_body]
pub(crate) fn build_client(b: HttpBuilder) -> (r: Result<Http, reqwest::Error>)
    ensures
        r matches Ok(h) ==> h.settings() == b.settings(),
{
    let settings = b.settings;
    b.builder.build().map(|client| Http { client, settings })
}

} // verus!
