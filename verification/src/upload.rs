//! Uploading files to the wiki: the titles query that obtains an edit token, the token
//! read from its reply, and the parameters of each upload.
use vstd::prelude::*;
use crate::client::{param, ParamsView};
use crate::error::ReplyError;
use crate::json::{entries_view, Json, JsonView};
use crate::json_text::{json_of_text, parse_json};
use crate::text::strings_view;

verus! {

/// The file pages of the names, each as `Datei:<name>|`, run together.
pub open spec fn file_pages(names: Seq<Seq<char>>) -> Seq<char>
    decreases names.len(),
{
    if names.len() == 0 {
        Seq::empty()
    } else {
        file_pages(names.drop_last()) + "Datei:"@ + names.last() + "|"@
    }
}

/// The `titles` value for the names: their file pages with the last `|` dropped.
pub open spec fn titles_view(names: Seq<Seq<char>>) -> Seq<char> {
    let pages = file_pages(names);
    if pages.len() == 0 {
        pages
    } else {
        pages.drop_last()
    }
}

/// Law: the titles of the files are their file pages joined by `|`: adding a file adds
/// `|Datei:<name>` (or `Datei:<name>` to an empty list).
pub proof fn law_titles_join(names: Seq<Seq<char>>, name: Seq<char>)
    ensures
        titles_view(names.push(name)) == if names.len() == 0 {
            "Datei:"@ + name
        } else {
            titles_view(names) + "|"@ + "Datei:"@ + name
        },
{
    reveal_strlit("|");
    let longer = names.push(name);
    assert(longer.drop_last() =~= names);
    assert(longer.last() == name);
    let pages = file_pages(names);
    assert(file_pages(longer) == pages + "Datei:"@ + name + "|"@);
    assert((pages + "Datei:"@ + name + "|"@).drop_last() =~= pages + "Datei:"@ + name);
    if names.len() == 0 {
        assert(pages =~= Seq::empty());
        assert(pages + "Datei:"@ + name =~= "Datei:"@ + name);
    } else {
        let shorter = names.drop_last();
        assert(pages == file_pages(shorter) + "Datei:"@ + names.last() + "|"@);
        assert(pages.len() > 0);
        assert(pages.drop_last() + "|"@ =~= pages);
        assert(pages + "Datei:"@ + name =~= pages.drop_last() + "|"@ + "Datei:"@ + name);
    }
}

/// The `titles` value that names the file pages of the files, separated by `|`.
pub fn titles_param(names: &Vec<String>) -> (r: String)
    ensures
        r@ == titles_view(strings_view(names@)),
{
    let ghost nv = strings_view(names@);
    let n = names.len();
    let mut pages = String::new();
    let mut i: usize = 0;
    proof {
        assert(nv.take(0) =~= Seq::<Seq<char>>::empty());
    }
    while i < n
        invariant
            n == names@.len(),
            nv == strings_view(names@),
            i <= n,
            pages@ == file_pages(nv.take(i as int)),
        decreases n - i,
    {
        proof {
            assert(nv.take(i + 1).drop_last() =~= nv.take(i as int));
            assert(nv.take(i + 1).last() == names@[i as int]@);
        }
        pages.append("Datei:");
        pages.append(names[i].as_str());
        pages.append("|");
        i = i + 1;
    }
    proof {
        assert(nv.take(n as int) =~= nv);
    }
    if pages.as_str().is_empty() {
        pages
    } else {
        let chars = crate::text::chars_of(pages.as_str());
        let last = chars.len() - 1;
        let trimmed = pages.as_str().substring_char(0, last);
        trimmed.to_owned()
    }
}

/// The form of the request for an edit token and the page information of the titles.
pub open spec fn token_form_view(titles: Seq<char>) -> ParamsView {
    seq![
        ("action"@, "query"@),
        ("format"@, "json"@),
        ("prop"@, "info"@),
        ("intoken"@, "edit"@),
        ("titles"@, titles),
    ]
}

/// The form of the request for an edit token for the titles.
pub fn token_form(titles: &str) -> (r: Vec<(String, String)>)
    ensures
        r.deep_view() == token_form_view(titles@),
{
    let mut f: Vec<(String, String)> = Vec::new();
    f.push(param("action", "query"));
    f.push(param("format", "json"));
    f.push(param("prop", "info"));
    f.push(param("intoken", "edit"));
    f.push(param("titles", titles));
    assert(f.deep_view() =~= token_form_view(titles@));
    f
}

/// The pages of a token reply: `query.pages`.
pub open spec fn reply_pages(reply: JsonView) -> JsonView {
    reply.at("query"@).at("pages"@)
}

/// A token reply that can be read: its pages are an object whose first page has an edit
/// token.
pub open spec fn token_reply_ok(reply: JsonView) -> bool {
    let pages = reply_pages(reply);
    &&& pages is Object
    &&& pages.as_object()->0.len() > 0
    &&& pages.as_object()->0[0].1.at("edittoken"@).as_str() is Some
}

/// The edit token of the first page of the reply.
pub open spec fn edit_token_view(reply: JsonView) -> Seq<char> {
    reply_pages(reply).as_object()->0[0].1.at("edittoken"@).as_str()->0
}

/// The edit token of a token reply: that of its first page; `None` when the reply has no
/// page or the first page has no token.
pub fn edit_token(reply: &Json) -> (r: Option<String>)
    ensures
        r is Some <==> token_reply_ok(reply@),
        r matches Some(t) ==> t@ == edit_token_view(reply@),
{
    let pages = match reply.at("query").at("pages").as_object() {
        Some(p) => p,
        None => {
            return None;
        },
    };
    if pages.len() == 0 {
        return None;
    }
    assert(entries_view(pages@)[0] == (pages@[0].0@, pages@[0].1@));
    match pages[0].1.at("edittoken").as_str() {
        Some(t) => Some(t.to_owned()),
        None => None,
    }
}

/// The edit token from the text of a token reply.
pub fn edit_token_text(text: &str) -> (r: Result<String, ReplyError>)
    ensures
        match json_of_text(text@) {
            None => r matches Err(e) && e == ReplyError::NotJson,
            Some(reply) => if token_reply_ok(reply) {
                r matches Ok(t) && t@ == edit_token_view(reply)
            } else {
                r matches Err(e) && e == ReplyError::Unexpected
            },
        },
{
    match parse_json(text) {
        None => Err(ReplyError::NotJson),
        Some(reply) => match edit_token(&reply) {
            Some(t) => Ok(t),
            None => Err(ReplyError::Unexpected),
        },
    }
}

/// The query of the upload of one file, categorised and with warnings ignored.
pub open spec fn upload_query_view(file_name: Seq<char>, token: Seq<char>) -> ParamsView {
    seq![
        ("action"@, "upload"@),
        ("text"@, "{{Dateienkategorisierung}}"@),
        ("format"@, "json"@),
        ("filename"@, file_name),
        ("ignorewarnings"@, "1"@),
        ("token"@, token),
    ]
}

/// The query of the upload of one file.
pub fn upload_query(file_name: &str, token: &str) -> (r: Vec<(String, String)>)
    ensures
        r.deep_view() == upload_query_view(file_name@, token@),
{
    let mut q: Vec<(String, String)> = Vec::new();
    q.push(param("action", "upload"));
    q.push(param("text", "{{Dateienkategorisierung}}"));
    q.push(param("format", "json"));
    q.push(param("filename", file_name));
    q.push(param("ignorewarnings", "1"));
    q.push(param("token", token));
    assert(q.deep_view() =~= upload_query_view(file_name@, token@));
    q
}

/// Law: the token query asks for an edit token of exactly the given titles, in JSON.
pub proof fn law_token_form_sends_titles(titles: Seq<char>, other: Seq<char>)
    ensures
        token_form_view(titles).len() == 5,
        token_form_view(titles)[0] == ("action"@, "query"@),
        token_form_view(titles)[1] == ("format"@, "json"@),
        token_form_view(titles)[3] == ("intoken"@, "edit"@),
        token_form_view(titles).last() == ("titles"@, titles),
        token_form_view(titles) == token_form_view(other) ==> titles == other,
{
    if token_form_view(titles) == token_form_view(other) {
        assert(token_form_view(titles)[4] == token_form_view(other)[4]);
    }
}

/// Law: the upload query sends the file name and the edit token verbatim: the token is
/// its last parameter exactly as given, the file name its fourth, and different tokens or
/// file names give different queries.
pub proof fn law_upload_query_sends_token(file_name: Seq<char>, token: Seq<char>, other_name: Seq<char>, other_token: Seq<char>)
    ensures
        upload_query_view(file_name, token).len() == 6,
        upload_query_view(file_name, token)[0] == ("action"@, "upload"@),
        upload_query_view(file_name, token)[3] == ("filename"@, file_name),
        upload_query_view(file_name, token).last() == ("token"@, token),
        upload_query_view(file_name, token) == upload_query_view(other_name, other_token)
            ==> file_name == other_name && token == other_token,
{
    if upload_query_view(file_name, token) == upload_query_view(other_name, other_token) {
        assert(upload_query_view(file_name, token)[3] == upload_query_view(other_name, other_token)[3]);
        assert(upload_query_view(file_name, token)[5] == upload_query_view(other_name, other_token)[5]);
    }
}

/// The parameters of an upload through the client: the page text (empty when none is
/// given) and the file name, with warnings ignored.
pub open spec fn upload_parameters_view(text: Option<Seq<char>>, file_name: Seq<char>) -> ParamsView {
    seq![
        ("action"@, "upload"@),
        ("text"@, match text {
            Some(t) => t,
            None => Seq::empty(),
        }),
        ("filename"@, file_name),
        ("ignorewarnings"@, Seq::empty()),
    ]
}

/// The parameters of an upload through the client.
pub fn upload_parameters(text: Option<&str>, file_name: &str) -> (r: Vec<(String, String)>)
    ensures
        r.deep_view() == upload_parameters_view(
            match text {
                Some(t) => Some(t@),
                None => None,
            },
            file_name@,
        ),
{
    let body = match text {
        Some(t) => t.to_owned(),
        None => String::new(),
    };
    let mut p: Vec<(String, String)> = Vec::new();
    p.push(param("action", "upload"));
    p.push(("text".to_owned(), body));
    p.push(param("filename", file_name));
    p.push(("ignorewarnings".to_owned(), String::new()));
    assert(p.deep_view() =~= upload_parameters_view(
        match text {
            Some(t) => Some(t@),
            None => None,
        },
        file_name@,
    ));
    p
}

} // verus!
