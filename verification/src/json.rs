//! A JSON document model with the lookups and in-place edits that the bot performs
//! on API replies and data files.
//!
//! `Json` is the executable value; `JsonView` is its mathematical model. Objects are
//! sequences of entries in iteration order; a lookup finds the first entry with the key.
use vstd::prelude::*;
use crate::text::str_eq;

verus! {

/// A JSON number, split as the JSON parser keeps it: non-negative integers,
/// negative integers, and everything else (kept as its decimal text).
#[derive(Debug)]
pub enum JsonNumber {
    PosInt(u64),
    NegInt(i64),
    Float(String),
}

/// A JSON value.
#[derive(Debug)]
pub enum Json {
    Null,
    Bool(bool),
    Number(JsonNumber),
    Str(String),
    Array(Vec<Json>),
    Object(Vec<(String, Json)>),
}

/// The model of a JSON number.
pub enum NumberView {
    PosInt(u64),
    NegInt(i64),
    Float(Seq<char>),
}

/// The model of a JSON value.
pub enum JsonView {
    Null,
    Bool(bool),
    Number(NumberView),
    Str(Seq<char>),
    Array(Seq<JsonView>),
    Object(Seq<(Seq<char>, JsonView)>),
}

impl View for JsonNumber {
    type V = NumberView;

    open spec fn view(&self) -> NumberView {
        match self {
            JsonNumber::PosInt(u) => NumberView::PosInt(*u),
            JsonNumber::NegInt(i) => NumberView::NegInt(*i),
            JsonNumber::Float(s) => NumberView::Float(s@),
        }
    }
}

/// The model of a JSON value, defined by recursion on the value.
pub open spec fn json_view(j: Json) -> JsonView
    decreases j,
{
    match j {
        Json::Null => JsonView::Null,
        Json::Bool(b) => JsonView::Bool(b),
        Json::Number(n) => JsonView::Number(n@),
        Json::Str(s) => JsonView::Str(s@),
        Json::Array(items) => JsonView::Array(
            Seq::new(
                items@.len(),
                |i: int|
                    if 0 <= i < items@.len() {
                        json_view(items@[i])
                    } else {
                        JsonView::Null
                    },
            ),
        ),
        Json::Object(entries) => JsonView::Object(
            Seq::new(
                entries@.len(),
                |i: int|
                    if 0 <= i < entries@.len() {
                        (entries@[i].0@, json_view(entries@[i].1))
                    } else {
                        (Seq::empty(), JsonView::Null)
                    },
            ),
        ),
    }
}

impl View for Json {
    type V = JsonView;

    open spec fn view(&self) -> JsonView {
        json_view(*self)
    }
}

/// The model of a sequence of object entries.
pub open spec fn entries_view(entries: Seq<(String, Json)>) -> Seq<(Seq<char>, JsonView)> {
    Seq::new(entries.len(), |i: int| (entries[i].0@, entries[i].1@))
}

/// The model of a sequence of array items.
pub open spec fn items_view(items: Seq<Json>) -> Seq<JsonView> {
    Seq::new(items.len(), |i: int| items[i]@)
}

/// The model of an optional reference to a value.
pub open spec fn opt_view(o: Option<&Json>) -> Option<JsonView> {
    match o {
        Some(v) => Some(v@),
        None => None,
    }
}

/// `i` is the position of the first entry whose key is `key`.
pub open spec fn first_key_at(entries: Seq<(Seq<char>, JsonView)>, key: Seq<char>, i: int) -> bool {
    &&& 0 <= i < entries.len()
    &&& entries[i].0 == key
    &&& forall|j: int| 0 <= j < i ==> entries[j].0 != key
}

/// Some entry has the key `key`.
pub open spec fn has_key(entries: Seq<(Seq<char>, JsonView)>, key: Seq<char>) -> bool {
    exists|i: int| 0 <= i < entries.len() && entries[i].0 == key
}

/// The position of the first entry with the key `key`, or -1.
pub open spec fn key_pos(entries: Seq<(Seq<char>, JsonView)>, key: Seq<char>) -> int {
    if has_key(entries, key) {
        choose|i: int| first_key_at(entries, key, i)
    } else {
        -1
    }
}

/// The value of the first entry with the key `key`.
pub open spec fn lookup(entries: Seq<(Seq<char>, JsonView)>, key: Seq<char>) -> Option<JsonView> {
    if has_key(entries, key) {
        Some(entries[key_pos(entries, key)].1)
    } else {
        None
    }
}

/// The entries after a map insertion: the first entry with the key gets the new value,
/// or a new entry is appended when there is none.
pub open spec fn entries_insert(
    entries: Seq<(Seq<char>, JsonView)>,
    key: Seq<char>,
    value: JsonView,
) -> Seq<(Seq<char>, JsonView)> {
    if has_key(entries, key) {
        entries.update(key_pos(entries, key), (key, value))
    } else {
        entries.push((key, value))
    }
}

/// No key occurs twice among the entries.
pub open spec fn keys_distinct(entries: Seq<(Seq<char>, JsonView)>) -> bool {
    forall|i: int, j: int|
        0 <= i < entries.len() && 0 <= j < entries.len() && i != j ==> entries[i].0 != entries[j].0
}

impl JsonView {
    /// `Value::get` with a key: the member of an object, nothing for other values.
    pub open spec fn get(self, key: Seq<char>) -> Option<JsonView> {
        match self {
            JsonView::Object(entries) => lookup(entries, key),
            _ => None,
        }
    }

    /// `value[key]`: the member of an object, `null` when there is none.
    pub open spec fn at(self, key: Seq<char>) -> JsonView {
        match self.get(key) {
            Some(v) => v,
            None => JsonView::Null,
        }
    }

    /// `Value::get` with a position: the item of an array, nothing for other values.
    pub open spec fn item(self, i: int) -> Option<JsonView> {
        match self {
            JsonView::Array(items) => if 0 <= i < items.len() {
                Some(items[i])
            } else {
                None
            },
            _ => None,
        }
    }

    /// `value[i]`: the item of an array, `null` when there is none.
    pub open spec fn at_item(self, i: int) -> JsonView {
        match self.item(i) {
            Some(v) => v,
            None => JsonView::Null,
        }
    }

    pub open spec fn as_str(self) -> Option<Seq<char>> {
        match self {
            JsonView::Str(s) => Some(s),
            _ => None,
        }
    }

    /// An integer that fits in `i64`.
    pub open spec fn as_i64(self) -> Option<i64> {
        match self {
            JsonView::Number(NumberView::PosInt(u)) => if u <= i64::MAX {
                Some(u as i64)
            } else {
                None
            },
            JsonView::Number(NumberView::NegInt(i)) => Some(i),
            _ => None,
        }
    }

    pub open spec fn as_bool(self) -> Option<bool> {
        match self {
            JsonView::Bool(b) => Some(b),
            _ => None,
        }
    }

    pub open spec fn as_array(self) -> Option<Seq<JsonView>> {
        match self {
            JsonView::Array(items) => Some(items),
            _ => None,
        }
    }

    pub open spec fn as_object(self) -> Option<Seq<(Seq<char>, JsonView)>> {
        match self {
            JsonView::Object(entries) => Some(entries),
            _ => None,
        }
    }

    pub open spec fn is_null(self) -> bool {
        self is Null
    }

    /// The value after `value[key] = v`: an object gets the entry set (appended when
    /// absent); `null` first becomes an empty object.
    pub open spec fn with_key(self, key: Seq<char>, v: JsonView) -> JsonView {
        match self {
            JsonView::Object(entries) => JsonView::Object(entries_insert(entries, key, v)),
            JsonView::Null => JsonView::Object(seq![(key, v)]),
            _ => self,
        }
    }

    /// `value[key]` can be assigned to: the value is an object or `null`.
    pub open spec fn key_assignable(self) -> bool {
        self is Object || self is Null
    }
}

/// The first match of a key, once some entry has it, exists and is unique.
pub proof fn lemma_first_key(entries: Seq<(Seq<char>, JsonView)>, key: Seq<char>, i: int)
    requires
        0 <= i < entries.len(),
        entries[i].0 == key,
    ensures
        has_key(entries, key),
        first_key_at(entries, key, key_pos(entries, key)),
        forall|k: int| first_key_at(entries, key, k) ==> k == key_pos(entries, key),
    decreases i,
{
    if exists|j: int| 0 <= j < i && entries[j].0 == key {
        let j = choose|j: int| 0 <= j < i && entries[j].0 == key;
        lemma_first_key(entries, key, j);
    } else {
        assert(first_key_at(entries, key, i));
    }
    let p = key_pos(entries, key);
    assert forall|k: int| first_key_at(entries, key, k) implies k == p by {
        if k < p {
            assert(entries[k].0 == key);
        } else if p < k {
            assert(entries[p].0 == key);
        }
    }
}

/// Reading a key right after inserting it gives the inserted value; the other keys
/// read as before.
pub proof fn lemma_insert_lookup(
    entries: Seq<(Seq<char>, JsonView)>,
    key: Seq<char>,
    value: JsonView,
    other: Seq<char>,
)
    ensures
        lookup(entries_insert(entries, key, value), key) == Some(value),
        other != key ==> lookup(entries_insert(entries, key, value), other) == lookup(
            entries,
            other,
        ),
{
    let after = entries_insert(entries, key, value);
    if has_key(entries, key) {
        let p = key_pos(entries, key);
        let w = choose|i: int| 0 <= i < entries.len() && entries[i].0 == key;
        lemma_first_key(entries, key, w);
        assert(after[p].0 == key);
        lemma_first_key(after, key, p);
        assert(first_key_at(after, key, p));
    } else {
        let n = entries.len() as int;
        assert(after[n].0 == key);
        lemma_first_key(after, key, n);
        assert(first_key_at(after, key, n));
    }
    if other != key {
        if has_key(entries, other) {
            let w = choose|i: int| 0 <= i < entries.len() && entries[i].0 == other;
            lemma_first_key(entries, other, w);
            let q = key_pos(entries, other);
            assert(after[q].0 == other);
            lemma_first_key(after, other, q);
            assert(first_key_at(after, other, q));
        } else {
            assert forall|i: int| 0 <= i < after.len() implies after[i].0 != other by {
                if i < entries.len() {
                    assert(entries[i].0 != other);
                }
            }
        }
    }
}

/// Law: after `value[key] = item` the key reads as `item`, and every other key reads as
/// before.
pub proof fn law_with_key_reads(v: JsonView, key: Seq<char>, item: JsonView, other: Seq<char>)
    requires
        v.key_assignable(),
    ensures
        v.with_key(key, item).get(key) == Some(item),
        other != key ==> v.with_key(key, item).get(other) == v.get(other),
{
    match v {
        JsonView::Object(entries) => {
            lemma_insert_lookup(entries, key, item, other);
        },
        _ => {
            let e = seq![(key, item)];
            assert(e[0].0 == key);
            lemma_first_key(e, key, 0);
            if other != key {
                assert(!has_key(e, other));
            }
        },
    }
}

/// Setting a key of an object to the value it already reads as leaves the object as it
/// was; the result of setting a key of an object is an object that reads the new value
/// under the key and reads as before under every other key.
pub proof fn lemma_with_key_object(v: JsonView, key: Seq<char>, item: JsonView)
    requires
        v is Object,
    ensures
        v.with_key(key, item) is Object,
        v.get(key) == Some(item) ==> v.with_key(key, item) == v,
        forall|other: Seq<char>|
            #[trigger] v.with_key(key, item).get(other) == if other == key {
                Some(item)
            } else {
                v.get(other)
            },
{
    let entries = v->Object_0;
    assert forall|other: Seq<char>|
        #[trigger] v.with_key(key, item).get(other) == if other == key {
            Some(item)
        } else {
            v.get(other)
        } by {
        law_with_key_reads(v, key, item, other);
    }
    if v.get(key) == Some(item) {
        let w = choose|i: int| 0 <= i < entries.len() && entries[i].0 == key;
        lemma_first_key(entries, key, w);
        let p = key_pos(entries, key);
        assert(entries[p] == (key, item));
        assert(entries.update(p, (key, item)) =~= entries);
    }
}

/// Inserting into entries whose keys are distinct keeps them distinct.
pub proof fn lemma_insert_keeps_keys_distinct(
    entries: Seq<(Seq<char>, JsonView)>,
    key: Seq<char>,
    value: JsonView,
)
    requires
        keys_distinct(entries),
    ensures
        keys_distinct(entries_insert(entries, key, value)),
{
    if has_key(entries, key) {
        let w = choose|i: int| 0 <= i < entries.len() && entries[i].0 == key;
        lemma_first_key(entries, key, w);
    }
}

impl Json {
    /// The model of an object's entries agrees with `entries_view`.
    pub proof fn lemma_object_view(entries: Vec<(String, Json)>)
        ensures
            Json::Object(entries)@ == JsonView::Object(entries_view(entries@)),
    {
        let j = Json::Object(entries);
        let m = j@->Object_0;
        assert(m.len() == entries@.len());
        assert forall|i: int| 0 <= i < m.len() implies m[i] == entries_view(entries@)[i] by {}
        assert(m =~= entries_view(entries@));
    }

    /// The model of an array's items agrees with `items_view`.
    pub proof fn lemma_array_view(items: Vec<Json>)
        ensures
            Json::Array(items)@ == JsonView::Array(items_view(items@)),
    {
        let j = Json::Array(items);
        let m = j@->Array_0;
        assert(m.len() == items@.len());
        assert forall|i: int| 0 <= i < m.len() implies m[i] == items_view(items@)[i] by {}
        assert(m =~= items_view(items@));
    }
}

/// The position of the first entry with the key, if any.
pub fn find_key(entries: &Vec<(String, Json)>, key: &str) -> (r: Option<usize>)
    ensures
        match r {
            Some(i) => first_key_at(entries_view(entries@), key@, i as int) && i as int
                == key_pos(entries_view(entries@), key@),
            None => !has_key(entries_view(entries@), key@),
        },
{
    let ghost ev = entries_view(entries@);
    let n = entries.len();
    let mut i: usize = 0;
    while i < n
        invariant
            n == entries@.len(),
            ev == entries_view(entries@),
            i <= n,
            forall|j: int| 0 <= j < i ==> ev[j].0 != key@,
        decreases n - i,
    {
        if str_eq(entries[i].0.as_str(), key) {
            proof {
                lemma_first_key(ev, key@, i as int);
            }
            return Some(i);
        }
        i = i + 1;
    }
    None
}

/// `Map::get` on entries: the value of the first entry with the key.
pub fn entries_get<'a>(entries: &'a Vec<(String, Json)>, key: &str) -> (r: Option<&'a Json>)
    ensures
        opt_view(r) == lookup(entries_view(entries@), key@),
{
    match find_key(entries, key) {
        Some(i) => Some(&entries[i].1),
        None => None,
    }
}

/// `Map::insert` on entries: replaces the value of the first entry with the key, or
/// appends a new entry.
pub fn entries_insert_exec(entries: &mut Vec<(String, Json)>, key: String, value: Json)
    ensures
        entries_view(final(entries)@) == entries_insert(entries_view(old(entries)@), key@, value@),
{
    let ghost ev = entries_view(entries@);
    let ghost kv = key@;
    let ghost vv = value@;
    match find_key(entries, key.as_str()) {
        Some(i) => {
            entries.set(i, (key, value));
            assert(entries_view(entries@) =~= ev.update(i as int, (kv, vv)));
        },
        None => {
            entries.push((key, value));
            assert(entries_view(entries@) =~= ev.push((kv, vv)));
        },
    }
}

impl Json {
    /// `Value::get` with a key.
    pub fn get(&self, key: &str) -> (r: Option<&Json>)
        ensures
            opt_view(r) == self@.get(key@),
    {
        match self {
            Json::Object(entries) => {
                proof {
                    Json::lemma_object_view(*entries);
                }
                entries_get(entries, key)
            },
            _ => None,
        }
    }

    /// `value[key]`.
    pub fn at(&self, key: &str) -> (r: &Json)
        ensures
            r@ == self@.at(key@),
    {
        match self.get(key) {
            Some(v) => v,
            None => &Json::Null,
        }
    }

    /// `Value::get` with a position.
    pub fn item(&self, i: usize) -> (r: Option<&Json>)
        ensures
            opt_view(r) == self@.item(i as int),
    {
        match self {
            Json::Array(items) => {
                proof {
                    Json::lemma_array_view(*items);
                }
                if i < items.len() {
                    Some(&items[i])
                } else {
                    None
                }
            },
            _ => None,
        }
    }

    /// `value[i]`.
    pub fn at_item(&self, i: usize) -> (r: &Json)
        ensures
            r@ == self@.at_item(i as int),
    {
        match self.item(i) {
            Some(v) => v,
            None => &Json::Null,
        }
    }

    pub fn as_str(&self) -> (r: Option<&str>)
        ensures
            match r {
                Some(s) => self@.as_str() == Some(s@),
                None => self@.as_str() is None,
            },
    {
        match self {
            Json::Str(s) => Some(s.as_str()),
            _ => None,
        }
    }

    pub fn as_i64(&self) -> (r: Option<i64>)
        ensures
            r == self@.as_i64(),
    {
        match self {
            Json::Number(JsonNumber::PosInt(u)) => if *u <= 9223372036854775807u64 {
                Some(*u as i64)
            } else {
                None
            },
            Json::Number(JsonNumber::NegInt(i)) => Some(*i),
            _ => None,
        }
    }

    pub fn as_bool(&self) -> (r: Option<bool>)
        ensures
            r == self@.as_bool(),
    {
        match self {
            Json::Bool(b) => Some(*b),
            _ => None,
        }
    }

    pub fn as_array(&self) -> (r: Option<&Vec<Json>>)
        ensures
            match r {
                Some(items) => self@.as_array() == Some(items_view(items@)),
                None => self@.as_array() is None,
            },
    {
        match self {
            Json::Array(items) => {
                proof {
                    Json::lemma_array_view(*items);
                }
                Some(items)
            },
            _ => None,
        }
    }

    pub fn as_object(&self) -> (r: Option<&Vec<(String, Json)>>)
        ensures
            match r {
                Some(entries) => self@.as_object() == Some(entries_view(entries@)),
                None => self@.as_object() is None,
            },
    {
        match self {
            Json::Object(entries) => {
                proof {
                    Json::lemma_object_view(*entries);
                }
                Some(entries)
            },
            _ => None,
        }
    }

    pub fn is_null(&self) -> (r: bool)
        ensures
            r == self@.is_null(),
    {
        match self {
            Json::Null => true,
            _ => false,
        }
    }

    pub fn is_object(&self) -> (r: bool)
        ensures
            r == self@ is Object,
    {
        match self {
            Json::Object(_) => true,
            _ => false,
        }
    }

    pub fn is_array(&self) -> (r: bool)
        ensures
            r == self@ is Array,
    {
        match self {
            Json::Array(_) => true,
            _ => false,
        }
    }
}

/// The model after `value[key][1..4]` are each set to `null` (an array of at least four
/// items under `key`).
pub open spec fn null_levels_view(v: JsonView, key: Seq<char>) -> JsonView {
    v.with_key(
        key,
        JsonView::Array(
            v.at(key).as_array()->0.update(1, JsonView::Null).update(2, JsonView::Null).update(
                3,
                JsonView::Null,
            ),
        ),
    )
}

/// Law: clearing the levels after the first keeps the list's length and first level, and
/// leaves every other member as it was.
pub proof fn law_null_levels(v: JsonView, key: Seq<char>, other: Seq<char>)
    requires
        v is Object,
        v.get(key) is Some,
        v.get(key)->0 is Array,
        v.get(key)->0.as_array()->0.len() >= 4,
    ensures
        null_levels_view(v, key).get(key) matches Some(JsonView::Array(after)) && after.len()
            == v.get(key)->0.as_array()->0.len() && after[0] == v.get(key)->0.as_array()->0[0]
            && after[1] is Null && after[2] is Null && after[3] is Null,
        other != key ==> null_levels_view(v, key).get(other) == v.get(other),
{
    let items = v.at(key).as_array()->0;
    let updated = JsonView::Array(
        items.update(1, JsonView::Null).update(2, JsonView::Null).update(3, JsonView::Null),
    );
    law_with_key_reads(v, key, updated, other);
}

impl Json {
    /// `value[key] = item`: sets the member of an object, adding it when absent; `null`
    /// first becomes an empty object.
    pub fn set_key(&mut self, key: &str, item: Json)
        requires
            old(self)@.key_assignable(),
        ensures
            final(self)@ == old(self)@.with_key(key@, item@),
    {
        let ghost iv = item@;
        match self {
            Json::Object(entries) => {
                proof {
                    Json::lemma_object_view(*entries);
                }
                entries_insert_exec(entries, key.to_owned(), item);
                proof {
                    Json::lemma_object_view(*entries);
                }
            },
            _ => {
                let mut entries: Vec<(String, Json)> = Vec::new();
                entries.push((key.to_owned(), item));
                proof {
                    Json::lemma_object_view(entries);
                    assert(entries_view(entries@) =~= seq![(key@, iv)]);
                }
                *self = Json::Object(entries);
            },
        }
    }

    /// `value[key][1].take(); value[key][2].take(); value[key][3].take()`: clears the
    /// levels after the first of a per-level list.
    pub fn null_levels(&mut self, key: &str)
        requires
            old(self)@ is Object,
            old(self)@.get(key@) is Some,
            old(self)@.get(key@)->0 is Array,
            old(self)@.get(key@)->0.as_array()->0.len() >= 4,
        ensures
            final(self)@ == null_levels_view(old(self)@, key@),
    {
        let ghost before = self@;
        match self {
            Json::Object(entries) => {
                proof {
                    Json::lemma_object_view(*entries);
                }
                let ghost ev = entries_view(entries@);
                let pos = find_key(entries, key).unwrap();
                let mut slot: (String, Json) = (String::new(), Json::Null);
                entries.set_and_swap(pos, &mut slot);
                match &mut slot.1 {
                    Json::Array(items) => {
                        proof {
                            Json::lemma_array_view(*items);
                        }
                        let ghost old_items = items_view(items@);
                        items.set(1, Json::Null);
                        items.set(2, Json::Null);
                        items.set(3, Json::Null);
                        proof {
                            assert(items_view(items@) =~= old_items.update(1, JsonView::Null).update(
                                2,
                                JsonView::Null,
                            ).update(3, JsonView::Null));
                            Json::lemma_array_view(*items);
                        }
                    },
                    _ => {},
                }
                let ghost new_entry = (slot.0@, slot.1@);
                entries.set(pos, slot);
                proof {
                    assert(entries_view(entries@) =~= ev.update(pos as int, new_entry));
                    Json::lemma_object_view(*entries);
                }
            },
            _ => {},
        }
    }
}

} // verus!
