//! JSON values as plain data: the untyped structured data in which call
//! requests arrive and schemas are written.
//!
//! An object keeps its members in the order they were written, and that
//! order is significant: the members of a schema's `properties` give the
//! positional order of a tool's arguments. A number is kept as its literal.
use vstd::prelude::*;
use crate::number::{
    integer_text, is_json_number, json_number, lemma_integer_text_is_json_number,
    wide_integer_to_text,
};

verus! {

/// A JSON number, held as its literal text.
#[derive(Debug)]
pub struct Number {
    text: String,
}

impl View for Number {
    type V = Seq<char>;

    closed spec fn view(&self) -> Seq<char> {
        self.text@
    }
}

impl Number {
    #[verifier::type_invariant]
    spec fn holds_literal(self) -> bool {
        is_json_number(self.text@)
    }

    /// The number written as `text`, where `text` is a JSON number literal.
    pub fn parse(text: &str) -> (r: Option<Number>)
        ensures
            r is Some <==> is_json_number(text@),
            r is Some ==> r->0@ == text@,
    {
        if json_number(text) {
            Some(Number { text: String::from_str(text) })
        } else {
            None
        }
    }

    /// The number `n`, written in decimal.
    pub fn from_i128(n: i128) -> (r: Number)
        ensures
            r@ == integer_text(n as int),
    {
        proof {
            lemma_integer_text_is_json_number(n as int);
        }
        Number { text: wide_integer_to_text(n) }
    }

    /// The number `n`, written in decimal.
    pub fn from_i64(n: i64) -> (r: Number)
        ensures
            r@ == integer_text(n as int),
    {
        Number::from_i128(n as i128)
    }

    /// Every number holds a number literal. Calling this costs nothing and
    /// lets a caller know it.
    pub fn known_literal(&self)
        ensures
            is_json_number(self@),
    {
        proof {
            use_type_invariant(self);
        }
    }

    /// The literal text of the number.
    pub fn as_str(&self) -> (r: &str)
        ensures
            r@ == self@,
    {
        self.text.as_str()
    }
}

impl Clone for Number {
    fn clone(&self) -> (r: Number)
        ensures
            r@ == self@,
    {
        proof {
            use_type_invariant(self);
        }
        Number { text: self.text.clone() }
    }
}

/// A JSON value.
#[derive(Debug)]
pub enum Json {
    Null,
    Bool(bool),
    Number(Number),
    String(String),
    Array(Vec<Json>),
    /// The members in written order, each a key and its value.
    Object(Vec<(String, Json)>),
}

/// The mathematical value of a [`Json`].
pub enum JsonView {
    Null,
    Bool(bool),
    Number(Seq<char>),
    String(Seq<char>),
    Array(Seq<JsonView>),
    Object(Seq<(Seq<char>, JsonView)>),
}

/// The views of the values of `items`, in order.
pub open spec fn items_view(items: Seq<Json>) -> Seq<JsonView> {
    Seq::new(items.len(), |i: int| items[i]@)
}

/// The views of the members of `entries`, in order.
pub open spec fn entries_view(entries: Seq<(String, Json)>) -> Seq<(Seq<char>, JsonView)> {
    Seq::new(entries.len(), |i: int| (entries[i].0@, entries[i].1@))
}

/// The mathematical value of `j`.
pub open spec fn json_view(j: Json) -> JsonView
    decreases j,
{
    match j {
        Json::Null => JsonView::Null,
        Json::Bool(b) => JsonView::Bool(b),
        Json::Number(n) => JsonView::Number(n@),
        Json::String(s) => JsonView::String(s@),
        Json::Array(items) => JsonView::Array(
            Seq::new(
                items@.len(),
                |i: int|
                    if 0 <= i < items@.len() {
                        json_view(items@[i])
                    } else {
                        JsonView::Null
                    },
            ),
        ),
        Json::Object(entries) => JsonView::Object(
            Seq::new(
                entries@.len(),
                |i: int|
                    if 0 <= i < entries@.len() {
                        (entries@[i].0@, json_view(entries@[i].1))
                    } else {
                        (Seq::empty(), JsonView::Null)
                    },
            ),
        ),
    }
}

impl View for Json {
    type V = JsonView;

    open spec fn view(&self) -> JsonView {
        json_view(*self)
    }
}

/// The view of an array is the views of its items.
pub proof fn lemma_array_view(items: Vec<Json>)
    ensures
        Json::Array(items)@ == JsonView::Array(items_view(items@)),
{
    let a = Json::Array(items)@->Array_0;
    assert(a =~= items_view(items@));
}

/// The view of an object is the views of its members.
pub proof fn lemma_object_view(entries: Vec<(String, Json)>)
    ensures
        Json::Object(entries)@ == JsonView::Object(entries_view(entries@)),
{
    let o = Json::Object(entries)@->Object_0;
    assert(o =~= entries_view(entries@));
}

/// The value of the last member of `entries` whose key is `key`.
pub open spec fn lookup(entries: Seq<(Seq<char>, JsonView)>, key: Seq<char>) -> Option<JsonView>
    decreases entries.len(),
{
    if entries.len() == 0 {
        None
    } else if entries.last().0 == key {
        Some(entries.last().1)
    } else {
        lookup(entries.drop_last(), key)
    }
}

/// No two members of `entries` have the same key.
pub open spec fn distinct_keys(entries: Seq<(Seq<char>, JsonView)>) -> bool {
    forall|i: int, j: int|
        0 <= i < j < entries.len() ==> (#[trigger] entries[i]).0 != (#[trigger] entries[j]).0
}

/// `a` and `b` hold the same members, in whatever order.
pub open spec fn same_members(
    a: Seq<(Seq<char>, JsonView)>,
    b: Seq<(Seq<char>, JsonView)>,
) -> bool {
    forall|member: (Seq<char>, JsonView)| a.contains(member) <==> b.contains(member)
}

/// What a lookup finds is a member.
pub proof fn lemma_lookup_is_member(entries: Seq<(Seq<char>, JsonView)>, key: Seq<char>)
    ensures
        lookup(entries, key) is Some ==> entries.contains((key, lookup(entries, key)->0)),
    decreases entries.len(),
{
    if entries.len() > 0 {
        if entries.last().0 == key {
            assert(entries[entries.len() - 1] == (key, lookup(entries, key)->0));
        } else {
            lemma_lookup_is_member(entries.drop_last(), key);
            if lookup(entries, key) is Some {
                let member = (key, lookup(entries, key)->0);
                let i = choose|i: int|
                    0 <= i < entries.drop_last().len() && entries.drop_last()[i] == member;
                assert(entries[i] == member);
            }
        }
    }
}

/// Among members with distinct keys, a lookup finds each member by its key.
pub proof fn lemma_member_is_found(
    entries: Seq<(Seq<char>, JsonView)>,
    key: Seq<char>,
    value: JsonView,
)
    requires
        distinct_keys(entries),
        entries.contains((key, value)),
    ensures
        lookup(entries, key) == Some(value),
    decreases entries.len(),
{
    let i = choose|i: int| 0 <= i < entries.len() && entries[i] == (key, value);
    let last = entries.len() - 1;
    if entries[last].0 == key {
        if i < last {
            assert(entries[i].0 != entries[last].0);
        }
    } else {
        assert(entries.drop_last()[i] == (key, value));
        assert forall|a: int, b: int| 0 <= a < b < entries.drop_last().len() implies (
        #[trigger] entries.drop_last()[a]).0 != (#[trigger] entries.drop_last()[b]).0 by {
            assert(entries[a].0 != entries[b].0);
        }
        lemma_member_is_found(entries.drop_last(), key, value);
    }
}

/// Two objects with distinct keys and the same members give the same value
/// for every key, whatever order their members are written in.
pub proof fn lemma_lookup_ignores_order(
    a: Seq<(Seq<char>, JsonView)>,
    b: Seq<(Seq<char>, JsonView)>,
    key: Seq<char>,
)
    requires
        distinct_keys(a),
        distinct_keys(b),
        same_members(a, b),
    ensures
        lookup(a, key) == lookup(b, key),
{
    lemma_lookup_is_member(a, key);
    lemma_lookup_is_member(b, key);
    if lookup(a, key) is Some {
        let value = lookup(a, key)->0;
        assert(b.contains((key, value)));
        lemma_member_is_found(b, key, value);
    } else if lookup(b, key) is Some {
        let value = lookup(b, key)->0;
        assert(a.contains((key, value)));
        lemma_member_is_found(a, key, value);
    }
}

impl JsonView {
    /// The member `key` of an object; `None` for any other value.
    pub open spec fn get(self, key: Seq<char>) -> Option<JsonView> {
        match self {
            JsonView::Object(entries) => lookup(entries, key),
            _ => None,
        }
    }

    /// The members of an object; `None` for any other value.
    pub open spec fn as_object(self) -> Option<Seq<(Seq<char>, JsonView)>> {
        match self {
            JsonView::Object(entries) => Some(entries),
            _ => None,
        }
    }

    /// The items of an array; `None` for any other value.
    pub open spec fn as_array(self) -> Option<Seq<JsonView>> {
        match self {
            JsonView::Array(items) => Some(items),
            _ => None,
        }
    }

    /// The text of a string; `None` for any other value.
    pub open spec fn as_str(self) -> Option<Seq<char>> {
        match self {
            JsonView::String(s) => Some(s),
            _ => None,
        }
    }
}

/// The value of the last member of `entries` whose key is `key`.
pub fn find<'a>(entries: &'a Vec<(String, Json)>, key: &str) -> (r: Option<&'a Json>)
    ensures
        match r {
            Some(value) => lookup(entries_view(entries@), key@) == Some(value@),
            None => lookup(entries_view(entries@), key@) is None,
        },
{
    let mut i = entries.len();
    proof {
        assert(entries_view(entries@).take(entries.len() as int) =~= entries_view(entries@));
    }
    while i > 0
        invariant
            i <= entries.len(),
            lookup(entries_view(entries@), key@) == lookup(
                entries_view(entries@).take(i as int),
                key@,
            ),
        decreases i,
    {
        let ghost prefix = entries_view(entries@).take(i as int);
        proof {
            assert(prefix.last() == (entries@[i - 1].0@, entries@[i - 1].1@));
            assert(prefix.drop_last() =~= entries_view(entries@).take(i - 1));
        }
        i -= 1;
        if *entries[i].0.as_str() == *key {
            return Some(&entries[i].1);
        }
    }
    None
}

/// The member `key: value` of an object.
pub fn member(key: &str, value: Json) -> (r: (String, Json))
    ensures
        r.0@ == key@,
        r.1@ == value@,
{
    (String::from_str(key), value)
}

impl Json {
    /// The string `s`.
    pub fn string(s: &str) -> (r: Json)
        ensures
            r@ == JsonView::String(s@),
    {
        Json::String(String::from_str(s))
    }

    /// The number `n`.
    pub fn integer(n: i64) -> (r: Json)
        ensures
            r@ == JsonView::Number(integer_text(n as int)),
    {
        Json::Number(Number::from_i64(n))
    }

    /// The array of `items`.
    pub fn array(items: Vec<Json>) -> (r: Json)
        ensures
            r@ == JsonView::Array(items_view(items@)),
    {
        proof {
            lemma_array_view(items);
        }
        Json::Array(items)
    }

    /// The object with the members `entries`, in that order.
    pub fn object(entries: Vec<(String, Json)>) -> (r: Json)
        ensures
            r@ == JsonView::Object(entries_view(entries@)),
    {
        proof {
            lemma_object_view(entries);
        }
        Json::Object(entries)
    }

    /// The members of an object; `None` for any other value.
    pub fn as_object(&self) -> (r: Option<&Vec<(String, Json)>>)
        ensures
            match r {
                Some(entries) => self@.as_object() == Some(entries_view(entries@)),
                None => self@.as_object() is None,
            },
    {
        match self {
            Json::Object(entries) => {
                proof {
                    lemma_object_view(*entries);
                }
                Some(entries)
            },
            _ => None,
        }
    }

    /// The items of an array; `None` for any other value.
    pub fn as_array(&self) -> (r: Option<&Vec<Json>>)
        ensures
            match r {
                Some(items) => self@.as_array() == Some(items_view(items@)),
                None => self@.as_array() is None,
            },
    {
        match self {
            Json::Array(items) => {
                proof {
                    lemma_array_view(*items);
                }
                Some(items)
            },
            _ => None,
        }
    }

    /// The text of a string; `None` for any other value.
    pub fn as_str(&self) -> (r: Option<&str>)
        ensures
            match r {
                Some(s) => self@.as_str() == Some(s@),
                None => self@.as_str() is None,
            },
    {
        match self {
            Json::String(s) => Some(s.as_str()),
            _ => None,
        }
    }

    /// The member `key` of an object; `None` where there is none, and for
    /// any other value.
    pub fn get(&self, key: &str) -> (r: Option<&Json>)
        ensures
            match r {
                Some(value) => self@.get(key@) == Some(value@),
                None => self@.get(key@) is None,
            },
    {
        match self {
            Json::Object(entries) => {
                proof {
                    lemma_object_view(*entries);
                }
                find(entries, key)
            },
            _ => None,
        }
    }
}

fn copy_items(items: &Vec<Json>) -> (r: Vec<Json>)
    ensures
        items_view(r@) == items_view(items@),
    decreases items,
{
    let mut out: Vec<Json> = Vec::new();
    let mut i: usize = 0;
    while i < items.len()
        invariant
            i <= items.len(),
            out.len() == i,
            forall|k: int| 0 <= k < i ==> (#[trigger] out@[k])@ == items@[k]@,
        decreases items.len() - i,
    {
        out.push(copy_value(&items[i]));
        i += 1;
    }
    proof {
        assert(items_view(out@) =~= items_view(items@));
    }
    out
}

fn copy_entries(entries: &Vec<(String, Json)>) -> (r: Vec<(String, Json)>)
    ensures
        entries_view(r@) == entries_view(entries@),
    decreases entries,
{
    let mut out: Vec<(String, Json)> = Vec::new();
    let mut i: usize = 0;
    while i < entries.len()
        invariant
            i <= entries.len(),
            out.len() == i,
            forall|k: int|
                0 <= k < i ==> (#[trigger] out@[k]).0@ == entries@[k].0@ && out@[k].1@
                    == entries@[k].1@,
        decreases entries.len() - i,
    {
        out.push((entries[i].0.clone(), copy_value(&entries[i].1)));
        i += 1;
    }
    proof {
        assert(entries_view(out@) =~= entries_view(entries@));
    }
    out
}

fn copy_value(value: &Json) -> (r: Json)
    ensures
        r@ == value@,
    decreases value,
{
    match value {
        Json::Null => Json::Null,
        Json::Bool(b) => Json::Bool(*b),
        Json::Number(n) => Json::Number(n.clone()),
        Json::String(s) => Json::String(s.clone()),
        Json::Array(items) => {
            let copy = copy_items(items);
            proof {
                lemma_array_view(*items);
                lemma_array_view(copy);
            }
            Json::Array(copy)
        },
        Json::Object(entries) => {
            let copy = copy_entries(entries);
            proof {
                lemma_object_view(*entries);
                lemma_object_view(copy);
            }
            Json::Object(copy)
        },
    }
}

impl Clone for Json {
    /// A deep copy: the same mathematical value.
    fn clone(&self) -> (r: Json)
        ensures
            r@ == self@,
    {
        copy_value(self)
    }
}

} // verus!
