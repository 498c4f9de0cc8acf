//! Listing pages of the wiki: the paged `list=` queries, followed through their
//! continuation markers, and the infobox lists.
use vstd::prelude::*;
use crate::error::ReplyError;
use crate::json::{entries_view, items_view, Json, JsonView};
use crate::json_text::{json_of_text, json_text, json_to_text, parse_json};
use crate::text::{str_eq, strings_view};

verus! {

/// The query endpoint of the wiki, up to the name of the list.
pub const LIST_QUERY: &'static str = "https://leagueoflegends.fandom.com/de/api.php?action=query&format=json&list=";

/// The field of a list item that holds its name: `*` for categories (`ac`), `title`
/// for the others.
pub open spec fn getter(short: Seq<char>) -> Seq<char> {
    if short == "ac"@ {
        "*"@
    } else {
        "title"@
    }
}

/// The address of the next page of a list.
pub open spec fn page_url(long: Seq<char>, short: Seq<char>, continue_from: Seq<char>) -> Seq<char> {
    LIST_QUERY@ + long + "&"@ + short + "limit=5000"@ + continue_from
}

/// The list of a reply: `query.<long>`.
pub open spec fn page_list(reply: JsonView, long: Seq<char>) -> JsonView {
    reply.at("query"@).at(long)
}

/// The names on one page: the `getter` field of each item of the list, whether the list
/// is an object or an array; nothing for other lists.
pub open spec fn page_names(reply: JsonView, long: Seq<char>, field: Seq<char>) -> Seq<Seq<char>> {
    let list = page_list(reply, long);
    match list {
        JsonView::Object(entries) => Seq::new(
            entries.len(),
            |i: int| entries[i].1.at(field).as_str()->0,
        ),
        JsonView::Array(items) => Seq::new(items.len(), |i: int| items[i].at(field).as_str()->0),
        _ => Seq::empty(),
    }
}

/// The continuation marker of a reply: `query-continue.<long>.<short>from`.
pub open spec fn continuation(reply: JsonView, long: Seq<char>, short: Seq<char>) -> Option<Seq<char>> {
    reply.at("query-continue"@).at(long).at(short + "from"@).as_str()
}

/// A page that can be read: each item of the list has its name, and a reply that goes
/// on has a continuation marker.
pub open spec fn page_ok(reply: JsonView, long: Seq<char>, short: Seq<char>) -> bool {
    let list = page_list(reply, long);
    let field = getter(short);
    &&& list is Object ==> forall|i: int|
        0 <= i < list.as_object()->0.len() ==> (#[trigger] list.as_object()->0[i]).1.at(
            field,
        ).as_str() is Some
    &&& list is Array ==> forall|i: int|
        0 <= i < list.as_array()->0.len() ==> (#[trigger] list.as_array()->0[i]).at(field).as_str() is Some
    &&& reply.get("query-continue"@) is Some ==> continuation(reply, long, short) is Some
}

/// The model of a list being fetched.
pub struct ListingView {
    pub long: Seq<char>,
    pub short: Seq<char>,
    pub continue_from: Seq<char>,
    pub results: Seq<Seq<char>>,
    pub has_next: bool,
}

/// A list being fetched page by page: the list's name (`long`) and its parameter
/// prefix (`short`), where to go on from, the names found so far, and whether there is
/// another page.
pub struct Listing {
    long: String,
    short: String,
    continue_from: String,
    results: Vec<String>,
    has_next: bool,
}

impl View for Listing {
    type V = ListingView;

    closed spec fn view(&self) -> ListingView {
        ListingView {
            long: self.long@,
            short: self.short@,
            continue_from: self.continue_from@,
            results: strings_view(self.results@),
            has_next: self.has_next,
        }
    }
}

fn push_names(results: &mut Vec<String>, reply: &Json, long: &str, field: &str)
    requires
        page_list(reply@, long@) is Object ==> forall|i: int|
            0 <= i < page_list(reply@, long@).as_object()->0.len() ==> (#[trigger] page_list(
                reply@,
                long@,
            ).as_object()->0[i]).1.at(field@).as_str() is Some,
        page_list(reply@, long@) is Array ==> forall|i: int|
            0 <= i < page_list(reply@, long@).as_array()->0.len() ==> (#[trigger] page_list(
                reply@,
                long@,
            ).as_array()->0[i]).at(field@).as_str() is Some,
    ensures
        strings_view(final(results)@) == strings_view(old(results)@) + page_names(
            reply@,
            long@,
            field@,
        ),
{
    let ghost start = strings_view(results@);
    let ghost names = page_names(reply@, long@, field@);
    let list = reply.at("query").at(long);
    if list.is_object() {
        let entries = list.as_object().unwrap();
        let ghost ev = entries_view(entries@);
        assert forall|k: int| 0 <= k < ev.len() implies (#[trigger] ev[k]).1.at(field@).as_str() is Some by {
            assert(ev[k] == page_list(reply@, long@).as_object()->0[k]);
        }
        let n = entries.len();
        let mut i: usize = 0;
        while i < n
            invariant
                n == entries@.len(),
                ev == entries_view(entries@),
                ev == list@.as_object()->0,
                names == page_names(reply@, long@, field@),
                list@ == page_list(reply@, long@),
                list@ is Object,
                forall|k: int| 0 <= k < ev.len() ==> (#[trigger] ev[k]).1.at(field@).as_str() is Some,
                i <= n,
                strings_view(results@) =~= start + names.take(i as int),
            decreases n - i,
        {
            assert(ev[i as int] == (entries@[i as int].0@, entries@[i as int].1@));
            let name = entries[i].1.at(field).as_str().unwrap();
            let ghost prev = results@;
            results.push(name.to_owned());
            proof {
                assert(strings_view(results@) =~= strings_view(prev).push(name@));
                assert(names.take(i + 1) =~= names.take(i as int).push(name@));
            }
            i = i + 1;
        }
        assert(names.take(n as int) =~= names);
    } else if list.is_array() {
        let items = list.as_array().unwrap();
        let ghost iv = items_view(items@);
        assert forall|k: int| 0 <= k < iv.len() implies (#[trigger] iv[k]).at(field@).as_str() is Some by {
            assert(iv[k] == page_list(reply@, long@).as_array()->0[k]);
        }
        let n = items.len();
        let mut i: usize = 0;
        while i < n
            invariant
                n == items@.len(),
                iv == items_view(items@),
                iv == list@.as_array()->0,
                names == page_names(reply@, long@, field@),
                list@ == page_list(reply@, long@),
                list@ is Array,
                forall|k: int| 0 <= k < iv.len() ==> (#[trigger] iv[k]).at(field@).as_str() is Some,
                i <= n,
                strings_view(results@) =~= start + names.take(i as int),
            decreases n - i,
        {
            assert(iv[i as int] == items@[i as int]@);
            let name = items[i].at(field).as_str().unwrap();
            let ghost prev = results@;
            results.push(name.to_owned());
            proof {
                assert(strings_view(results@) =~= strings_view(prev).push(name@));
                assert(names.take(i + 1) =~= names.take(i as int).push(name@));
            }
            i = i + 1;
        }
        assert(names.take(n as int) =~= names);
    } else {
        assert(names =~= Seq::empty());
        assert(strings_view(results@) =~= start + names);
    }
}

fn names_readable(reply: &Json, long: &str, field: &str) -> (r: bool)
    ensures
        r == ((page_list(reply@, long@) is Object ==> forall|i: int|
            0 <= i < page_list(reply@, long@).as_object()->0.len() ==> (#[trigger] page_list(
                reply@,
                long@,
            ).as_object()->0[i]).1.at(field@).as_str() is Some) && (page_list(reply@, long@) is Array
            ==> forall|i: int|
            0 <= i < page_list(reply@, long@).as_array()->0.len() ==> (#[trigger] page_list(
                reply@,
                long@,
            ).as_array()->0[i]).at(field@).as_str() is Some)),
{
    let list = reply.at("query").at(long);
    if list.is_object() {
        let entries = list.as_object().unwrap();
        let ghost ev = entries_view(entries@);
        let n = entries.len();
        let mut i: usize = 0;
        while i < n
            invariant
                n == entries@.len(),
                ev == entries_view(entries@),
                ev == page_list(reply@, long@).as_object()->0,
                page_list(reply@, long@) is Object,
                i <= n,
                forall|k: int| 0 <= k < i ==> (#[trigger] ev[k]).1.at(field@).as_str() is Some,
            decreases n - i,
        {
            assert(ev[i as int] == (entries@[i as int].0@, entries@[i as int].1@));
            if entries[i].1.at(field).as_str().is_none() {
                assert(page_list(reply@, long@).as_object()->0[i as int].1.at(field@).as_str() is None);
                return false;
            }
            i = i + 1;
        }
        true
    } else if list.is_array() {
        let items = list.as_array().unwrap();
        let ghost iv = items_view(items@);
        let n = items.len();
        let mut i: usize = 0;
        while i < n
            invariant
                n == items@.len(),
                iv == items_view(items@),
                iv == page_list(reply@, long@).as_array()->0,
                page_list(reply@, long@) is Array,
                i <= n,
                forall|k: int| 0 <= k < i ==> (#[trigger] iv[k]).at(field@).as_str() is Some,
            decreases n - i,
        {
            assert(iv[i as int] == items@[i as int]@);
            if items[i].at(field).as_str().is_none() {
                assert(page_list(reply@, long@).as_array()->0[i as int].at(field@).as_str() is None);
                return false;
            }
            i = i + 1;
        }
        true
    } else {
        true
    }
}

/// Whether a reply is a page that can be read.
pub fn page_check(reply: &Json, long: &str, short: &str) -> (r: bool)
    ensures
        r == page_ok(reply@, long@, short@),
{
    let field = if str_eq(short, "ac") {
        "*"
    } else {
        "title"
    };
    if !names_readable(reply, long, field) {
        return false;
    }
    if reply.get("query-continue").is_some() {
        let mut marker = short.to_owned();
        marker.append("from");
        reply.at("query-continue").at(long).at(marker.as_str()).as_str().is_some()
    } else {
        true
    }
}

/// Law: every page of a list asks for the same list: the address of any page is the
/// address of the first page, `LIST_QUERY`, the list's long name, `&`, its short name and
/// `limit=5000`, followed by the continuation; so it starts with `LIST_QUERY` and the
/// long name whatever page it is.
pub proof fn law_pages_ask_for_the_same_list(long: Seq<char>, short: Seq<char>, continue_from: Seq<char>)
    ensures
        page_url(long, short, Seq::empty()) == LIST_QUERY@ + long + "&"@ + short + "limit=5000"@,
        page_url(long, short, continue_from) == page_url(long, short, Seq::empty()) + continue_from,
        page_url(long, short, continue_from).take((LIST_QUERY@ + long + "&"@).len() as int)
            == LIST_QUERY@ + long + "&"@,
{
    let first = LIST_QUERY@ + long + "&"@ + short + "limit=5000"@;
    assert(first + Seq::<char>::empty() =~= first);
    let head = LIST_QUERY@ + long + "&"@;
    assert(page_url(long, short, continue_from) =~= head + (short + "limit=5000"@ + continue_from));
    assert((head + (short + "limit=5000"@ + continue_from)).take(head.len() as int) =~= head);
}

/// The list after a page that can be read: its names are added, and the list goes on from
/// the page's continuation marker, or ends when the page has none.
pub open spec fn after_page(l: ListingView, reply: JsonView) -> ListingView {
    ListingView {
        results: l.results + page_names(reply, l.long, getter(l.short)),
        has_next: reply.get("query-continue"@) is Some && l.has_next,
        continue_from: if reply.get("query-continue"@) is Some {
            "&"@ + l.short + "from="@ + continuation(reply, l.long, l.short)->0
        } else {
            l.continue_from
        },
        ..l
    }
}

impl Listing {
    /// A list that has not been fetched yet.
    pub fn new(long: &str, short: &str) -> (r: Listing)
        ensures
            r@ == (ListingView {
                long: long@,
                short: short@,
                continue_from: Seq::empty(),
                results: Seq::empty(),
                has_next: true,
            }),
    {
        let r = Listing {
            long: long.to_owned(),
            short: short.to_owned(),
            continue_from: String::new(),
            results: Vec::new(),
            has_next: true,
        };
        assert(r@.results =~= Seq::empty());
        r
    }

    /// Whether another page is to be fetched.
    pub fn has_next(&self) -> (r: bool)
        ensures
            r == self@.has_next,
    {
        self.has_next
    }

    /// The names found so far.
    pub fn results(&self) -> (r: &Vec<String>)
        ensures
            strings_view(r@) == self@.results,
    {
        &self.results
    }

    /// The address of the next page.
    pub fn next_url(&self) -> (r: String)
        ensures
            r@ == page_url(self@.long, self@.short, self@.continue_from),
    {
        let mut url = LIST_QUERY.to_owned();
        url.append(self.long.as_str());
        url.append("&");
        url.append(self.short.as_str());
        url.append("limit=5000");
        url.append(self.continue_from.as_str());
        url
    }

    /// Takes in the reply for the next page: its names are added, and the list goes on
    /// from its continuation marker, or ends when the reply has none. Returns whether the
    /// page could be read; a page that cannot leaves the list as it was.
    pub fn absorb(&mut self, reply: &Json) -> (ok: bool)
        ensures
            ok == page_ok(reply@, old(self)@.long, old(self)@.short),
            !ok ==> final(self)@ == old(self)@,
            ok ==> final(self)@.long == old(self)@.long,
            ok ==> final(self)@.short == old(self)@.short,
            ok ==> final(self)@.results == old(self)@.results + page_names(
                reply@,
                old(self)@.long,
                getter(old(self)@.short),
            ),
            ok ==> match reply@.get("query-continue"@) {
                None => !final(self)@.has_next && final(self)@.continue_from == old(
                    self,
                )@.continue_from,
                Some(_) => final(self)@.has_next == old(self)@.has_next && final(self)@.continue_from
                    == "&"@ + old(self)@.short + "from="@ + continuation(
                    reply@,
                    old(self)@.long,
                    old(self)@.short,
                )->0,
            },
    {
        if !page_check(reply, self.long.as_str(), self.short.as_str()) {
            return false;
        }
        let field = if str_eq(self.short.as_str(), "ac") {
            "*"
        } else {
            "title"
        };
        push_names(&mut self.results, reply, self.long.as_str(), field);
        match reply.get("query-continue") {
            None => {
                self.has_next = false;
            },
            Some(_) => {
                let mut marker = self.short.clone();
                marker.append("from");
                let from = reply.at("query-continue").at(self.long.as_str()).at(
                    marker.as_str(),
                ).as_str().unwrap();
                let mut next = "&".to_owned();
                next.append(self.short.as_str());
                next.append("from=");
                next.append(from);
                self.continue_from = next;
            },
        }
        true
    }

    /// Takes in the text of the reply for the next page. Text that is not JSON, or a page
    /// that cannot be read, leaves the list as it was.
    pub fn absorb_text(&mut self, text: &str) -> (r: Result<(), ReplyError>)
        ensures
            match json_of_text(text@) {
                None => (r matches Err(e) && e == ReplyError::NotJson) && final(self)@ == old(self)@,
                Some(reply) => if page_ok(reply, old(self)@.long, old(self)@.short) {
                    r is Ok && final(self)@ == after_page(old(self)@, reply)
                } else {
                    (r matches Err(e) && e == ReplyError::Unexpected) && final(self)@ == old(self)@
                },
            },
    {
        let reply = match parse_json(text) {
            Some(j) => j,
            None => {
                return Err(ReplyError::NotJson);
            },
        };
        if self.absorb(&reply) {
            assert(self@ == after_page(old(self)@, reply@));
            Ok(())
        } else {
            Err(ReplyError::Unexpected)
        }
    }
}

/// The address of an infobox list query.
pub open spec fn infobox_url_view(typ: Seq<char>) -> Seq<char> {
    LIST_QUERY@ + typ
}

/// The address of the query for the infobox list `typ`.
pub fn infobox_url(typ: &str) -> (r: String)
    ensures
        r@ == infobox_url_view(typ@),
{
    let mut url = LIST_QUERY.to_owned();
    url.append(typ);
    url
}

/// An infobox reply that can be read: its list is an array whose items have titles.
pub open spec fn infobox_reply_ok(reply: JsonView, typ: Seq<char>) -> bool {
    let list = page_list(reply, typ);
    &&& list is Array
    &&& forall|i: int|
        0 <= i < list.as_array()->0.len() ==> (#[trigger] list.as_array()->0[i]).at("title"@).as_str() is Some
}

/// The titles of an infobox list reply, in order; `None` when the list is not an array of
/// titled items.
pub fn infobox_titles(reply: &Json, typ: &str) -> (r: Option<Vec<String>>)
    ensures
        r is Some <==> infobox_reply_ok(reply@, typ@),
        r matches Some(titles) ==> strings_view(titles@) == page_names(reply@, typ@, "title"@),
{
    if !reply.at("query").at(typ).is_array() || !names_readable(reply, typ, "title") {
        return None;
    }
    let mut out: Vec<String> = Vec::new();
    assert(strings_view(out@) =~= Seq::empty());
    push_names(&mut out, reply, typ, "title");
    assert(strings_view(out@) =~= page_names(reply@, typ@, "title"@));
    Some(out)
}

/// The titles of the infobox list `typ` from the text of its reply.
pub fn infobox_titles_text(text: &str, typ: &str) -> (r: Result<Vec<String>, ReplyError>)
    ensures
        match json_of_text(text@) {
            None => r matches Err(e) && e == ReplyError::NotJson,
            Some(reply) => if infobox_reply_ok(reply, typ@) {
                r matches Ok(titles) && strings_view(titles@) == page_names(reply, typ@, "title"@)
            } else {
                r matches Err(e) && e == ReplyError::Unexpected
            },
        },
{
    match parse_json(text) {
        None => Err(ReplyError::NotJson),
        Some(reply) => match infobox_titles(&reply, typ) {
            Some(titles) => Ok(titles),
            None => Err(ReplyError::Unexpected),
        },
    }
}

/// The JSON model of a list of names: an array of strings, in order.
pub open spec fn names_json(names: Seq<Seq<char>>) -> JsonView {
    JsonView::Array(Seq::new(names.len(), |i: int| JsonView::Str(names[i])))
}

/// The JSON text of a list of names, as the list commands write their results.
pub fn names_json_text(names: &Vec<String>) -> (r: String)
    ensures
        r@ == json_text(names_json(strings_view(names@))),
{
    let ghost target = names_json(strings_view(names@))->Array_0;
    let mut items: Vec<Json> = Vec::new();
    let n = names.len();
    let mut i: usize = 0;
    while i < n
        invariant
            n == names@.len(),
            i <= n,
            target == names_json(strings_view(names@))->Array_0,
            target.len() == n,
            items@.len() == i,
            items_view(items@) =~= target.take(i as int),
        decreases n - i,
    {
        let item = Json::Str(names[i].as_str().to_owned());
        assert(item@ == JsonView::Str(names@[i as int]@));
        let ghost prev = items@;
        items.push(item);
        proof {
            assert(prev.len() == i);
            assert(items@ == prev.push(item));
            assert(items@[i as int]@ == JsonView::Str(names@[i as int]@));
            assert forall|k: int| 0 <= k < i implies #[trigger] items@[k] == prev[k] by {}
            assert(items_view(items@) =~= target.take(i + 1));
        }
        i = i + 1;
    }
    proof {
        assert(target.take(n as int) =~= target);
        Json::lemma_array_view(items);
    }
    let list = Json::Array(items);
    json_to_text(&list)
}

} // verus!
