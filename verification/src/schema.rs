//! Checking a value against a JSON Schema with the Draft 7 validator of the
//! `jsonschema` crate.
//!
//! Values are handed to the validator as their canonical text, an object in
//! the order of its keys. A schema that holds a reference (a member `$ref`
//! in any of its objects) is refused before the validator sees it: the
//! validator follows references while it validates, without end where a
//! schema refers to itself.
use vstd::prelude::*;
use crate::json::{
    distinct_keys, entries_view, items_view, lemma_array_view, lemma_object_view, same_members,
    Json, JsonView,
};
use crate::number::is_json_number;
use crate::order::{by_key, lemma_by_key_ignores_order};
use crate::render::{object_text_by_key, text_of};
use crate::text::views;

verus! {

/// What the schema validator found.
#[derive(Debug)]
pub enum SchemaCheck {
    /// The instance conforms to the schema.
    Valid,
    /// The instance breaks the schema: one message per violation, in the
    /// validator's order. An instance that the validator cannot read at all
    /// (a number beyond its range, a nesting beyond its depth) is one
    /// violation.
    Violations(Vec<String>),
    /// The schema is itself unusable; the message says why.
    Malformed(String),
}

/// The mathematical value of a [`SchemaCheck`].
pub enum Verdict {
    Valid,
    Violations(Seq<Seq<char>>),
    Malformed(Seq<char>),
}

impl View for SchemaCheck {
    type V = Verdict;

    open spec fn view(&self) -> Verdict {
        match self {
            SchemaCheck::Valid => Verdict::Valid,
            SchemaCheck::Violations(messages) => Verdict::Violations(views(messages@)),
            SchemaCheck::Malformed(message) => Verdict::Malformed(message@),
        }
    }
}

/// Whether `v` is plain: none of its objects, at any depth, has a member
/// `$ref`, and each of its numbers is a number literal.
pub open spec fn plain(v: JsonView) -> bool
    decreases v, 0nat,
{
    match v {
        JsonView::Number(literal) => is_json_number(literal),
        JsonView::Array(items) => plain_items(items, items.len()),
        JsonView::Object(entries) => plain_members(entries, entries.len()),
        _ => true,
    }
}

/// Whether the first `n` values of `items` are plain.
pub open spec fn plain_items(items: Seq<JsonView>, n: nat) -> bool
    decreases items, n,
{
    if n == 0 || n > items.len() {
        true
    } else {
        plain_items(items, (n - 1) as nat) && plain(items[n - 1])
    }
}

/// Whether none of the first `n` members of `entries` is a member `$ref`,
/// and the value of each is plain.
pub open spec fn plain_members(entries: Seq<(Seq<char>, JsonView)>, n: nat) -> bool
    decreases entries, n,
{
    if n == 0 || n > entries.len() {
        true
    } else {
        plain_members(entries, (n - 1) as nat) && entries[n - 1].0 != "$ref"@ && plain(
            entries[n - 1].1,
        )
    }
}

/// Whether `text` is the canonical text of a plain value.
pub open spec fn plain_text(text: Seq<char>) -> bool {
    exists|v: JsonView| plain(v) && text == #[trigger] text_of(v)
}

/// The message with which a schema that holds a reference is refused.
pub open spec fn reference_message() -> Seq<char> {
    "schema references (`$ref`) are not supported"@
}

/// What a `serde_json::Value` holds, as the compact JSON text that
/// `serde_json` writes for it.
pub uninterp spec fn value_text(value: serde_json::Value) -> Seq<char>;

/// The schema that a compiled `jsonschema::JSONSchema` was compiled from,
/// as what that value holds.
pub uninterp spec fn compiled_from(compiled: jsonschema::JSONSchema) -> Seq<char>;

/// What `serde_json::from_str` makes of `text`: what the value it reads
/// holds, or the text of its error.
pub uninterp spec fn read_json(text: Seq<char>) -> Result<Seq<char>, Seq<char>>;

/// Why the schema that holds `schema` does not compile as a Draft 7 schema:
/// the text of the compile error, or `None` where it compiles.
pub uninterp spec fn compile_failure(schema: Seq<char>) -> Option<Seq<char>>;

/// The violations that the validator compiled from the schema that holds
/// `schema` finds in the value that holds `instance`, each as its text, in
/// the validator's order.
pub uninterp spec fn violations_of(schema: Seq<char>, instance: Seq<char>) -> Seq<Seq<char>>;

/// Trusted item: the type `serde_json::Value`, carried from the reader to
/// the validator and never looked into.
#[verifier::external_type_specification]
#[verifier::external_body]
pub struct ExValue(serde_json::Value);

/// Trusted item: the type `jsonschema::JSONSchema`, a compiled schema,
/// carried from the compiler to the validator and never looked into.
#[verifier::external_type_specification]
#[verifier::external_body]
pub struct ExJSONSchema(jsonschema::JSONSchema);

/// Trusted: `serde_json::from_str` reads `text` as one JSON value, or gives
/// an error, whose `Display` text is handed on. The contract gives the
/// outcome its name. It claims one fact more: what is read from the
/// canonical text of a plain value holds the canonical text of a plain
/// value again. The reader adds no member (of two with one key it keeps
/// the later), reads back each key and string as it was written, and
/// `serde_json` writes what it holds in the same compact form, with the
/// same escapes, and its numbers as number literals.
#[verifier::external_body]
fn read_value(text: &str) -> (r: Result<serde_json::Value, String>)
    ensures
        match r {
            Ok(value) => read_json(text@) == Ok::<Seq<char>, Seq<char>>(value_text(value))
                && (plain_text(text@) ==> plain_text(value_text(value))),
            Err(e) => read_json(text@) == Err::<Seq<char>, Seq<char>>(e@),
        },
{
    serde_json::from_str(text).map_err(|e: serde_json::Error| e.to_string())
}

/// Trusted: `jsonschema::CompilationOptions::compile`, with the draft set
/// to Draft 7, compiles `schema` or gives an error, whose `Display` text is
/// handed on. The contract gives the outcome its name and says which schema
/// the compiled one was made from. Schemas with a member `$ref` are left
/// out: for them the outcome would depend on how the crate's resolvers are
/// built.
#[verifier::external_body]
fn compile_schema(schema: &serde_json::Value) -> (r: Result<jsonschema::JSONSchema, String>)
    requires
        plain_text(value_text(*schema)),
    ensures
        match r {
            Ok(compiled) => compile_failure(value_text(*schema)) is None && compiled_from(compiled)
                == value_text(*schema),
            Err(e) => compile_failure(value_text(*schema)) == Some(e@),
        },
{
    let draft = jsonschema::Draft::Draft7;
    jsonschema::JSONSchema::options().with_draft(draft).compile(schema).map_err(|e| e.to_string())
}

/// Trusted: `jsonschema::JSONSchema::validate` gives `Ok` where it finds no
/// violation, which is handed on as the empty list, and else the
/// violations, each handed on as its `Display` text. The contract gives the
/// list its name. Schemas with a member `$ref` are left out: the validator
/// resolves a reference while it validates, and on a schema that refers to
/// itself it does not return.
#[verifier::external_body]
fn find_violations(compiled: &jsonschema::JSONSchema, instance: &serde_json::Value) -> (r: Vec<
    String,
>)
    requires
        plain_text(compiled_from(*compiled)),
    ensures
        views(r@) == violations_of(compiled_from(*compiled), value_text(*instance)),
{
    let found = match compiled.validate(instance) {
        Ok(()) => Vec::new(),
        Err(all) => all.map(|e| e.to_string()).collect(),
    };
    found
}

/// The verdict on the instance written as `instance` under the schema
/// written as `schema`: the schema is read and compiled, then the instance
/// is read and validated. A schema that is not read or does not compile is
/// malformed; an instance that is not read is one violation.
pub open spec fn schema_verdict(schema: Seq<char>, instance: Seq<char>) -> Verdict {
    match read_json(schema) {
        Err(reason) => Verdict::Malformed(reason),
        Ok(schema_held) => match compile_failure(schema_held) {
            Some(reason) => Verdict::Malformed(reason),
            None => match read_json(instance) {
                Err(reason) => Verdict::Violations(seq![reason]),
                Ok(instance_held) => if violations_of(schema_held, instance_held).len() == 0 {
                    Verdict::Valid
                } else {
                    Verdict::Violations(violations_of(schema_held, instance_held))
                },
            },
        },
    }
}

/// `v` with the members of an object in the order of their keys; any other
/// value as it is.
pub open spec fn keyed(v: JsonView) -> JsonView {
    match v {
        JsonView::Object(entries) => JsonView::Object(by_key(entries)),
        _ => v,
    }
}

/// The verdict on the value `instance` under the schema `schema`: a schema
/// that is not plain is malformed; else the verdict on their canonical
/// texts, the instance with its members by key.
pub open spec fn verdict(schema: JsonView, instance: JsonView) -> Verdict {
    if plain(schema) {
        schema_verdict(text_of(schema), text_of(keyed(instance)))
    } else {
        Verdict::Malformed(reference_message())
    }
}

/// The verdict does not depend on the order in which an object was
/// written: two objects with distinct keys and the same members get the
/// same verdict.
pub proof fn lemma_verdict_ignores_order(
    schema: JsonView,
    a: Seq<(Seq<char>, JsonView)>,
    b: Seq<(Seq<char>, JsonView)>,
)
    requires
        distinct_keys(a),
        distinct_keys(b),
        same_members(a, b),
    ensures
        verdict(schema, JsonView::Object(a)) == verdict(schema, JsonView::Object(b)),
{
    lemma_by_key_ignores_order(a, b);
}

fn all_plain(items: &Vec<Json>) -> (r: bool)
    ensures
        r == plain_items(items_view(items@), items@.len()),
    decreases items,
{
    let mut i: usize = 0;
    while i < items.len()
        invariant
            i <= items.len(),
            plain_items(items_view(items@), i as nat),
        decreases items.len() - i,
    {
        proof {
            assert(items_view(items@)[i as int] == items@[i as int]@);
        }
        if !is_plain(&items[i]) {
            proof {
                lemma_plain_items_stay_refused(items_view(items@), (i + 1) as nat, items@.len());
            }
            return false;
        }
        i += 1;
    }
    true
}

fn all_members_plain(entries: &Vec<(String, Json)>) -> (r: bool)
    ensures
        r == plain_members(entries_view(entries@), entries@.len()),
    decreases entries,
{
    let mut i: usize = 0;
    while i < entries.len()
        invariant
            i <= entries.len(),
            plain_members(entries_view(entries@), i as nat),
        decreases entries.len() - i,
    {
        proof {
            assert(entries_view(entries@)[i as int] == (entries@[i as int].0@, entries@[i as int].1@));
        }
        if *entries[i].0.as_str() == *"$ref" || !is_plain(&entries[i].1) {
            proof {
                lemma_plain_members_stay_refused(
                    entries_view(entries@),
                    (i + 1) as nat,
                    entries@.len(),
                );
            }
            return false;
        }
        i += 1;
    }
    true
}

/// Once one of the first values is not plain, more values are not either.
proof fn lemma_plain_items_stay_refused(items: Seq<JsonView>, n: nat, m: nat)
    requires
        n <= m <= items.len(),
        !plain_items(items, n),
    ensures
        !plain_items(items, m),
    decreases m,
{
    if n < m {
        lemma_plain_items_stay_refused(items, n, (m - 1) as nat);
    }
}

/// Once one of the first members is refused, more members are too.
proof fn lemma_plain_members_stay_refused(entries: Seq<(Seq<char>, JsonView)>, n: nat, m: nat)
    requires
        n <= m <= entries.len(),
        !plain_members(entries, n),
    ensures
        !plain_members(entries, m),
    decreases m,
{
    if n < m {
        lemma_plain_members_stay_refused(entries, n, (m - 1) as nat);
    }
}

/// Whether `value` is plain: it holds no reference.
pub fn is_plain(value: &Json) -> (r: bool)
    ensures
        r == plain(value@),
    decreases value,
{
    match value {
        Json::Number(n) => {
            n.known_literal();
            true
        },
        Json::Array(items) => {
            proof {
                lemma_array_view(*items);
            }
            all_plain(items)
        },
        Json::Object(entries) => {
            proof {
                lemma_object_view(*entries);
            }
            all_members_plain(entries)
        },
        _ => true,
    }
}

/// The verdict on the instance written as `instance` under the schema
/// written as `schema`, the text of a plain value.
fn check_texts(schema: &str, instance: &str) -> (r: SchemaCheck)
    requires
        plain_text(schema@),
    ensures
        r@ == schema_verdict(schema@, instance@),
{
    let schema_value = match read_value(schema) {
        Ok(value) => value,
        Err(reason) => {
            return SchemaCheck::Malformed(reason);
        },
    };
    let compiled = match compile_schema(&schema_value) {
        Ok(compiled) => compiled,
        Err(reason) => {
            return SchemaCheck::Malformed(reason);
        },
    };
    let instance_value = match read_value(instance) {
        Ok(value) => value,
        Err(reason) => {
            let mut found: Vec<String> = Vec::new();
            found.push(reason);
            proof {
                assert(views(found@) =~= seq![reason@]);
            }
            return SchemaCheck::Violations(found);
        },
    };
    let found = find_violations(&compiled, &instance_value);
    if found.len() == 0 {
        SchemaCheck::Valid
    } else {
        SchemaCheck::Violations(found)
    }
}

fn refused() -> (r: SchemaCheck)
    ensures
        r@ == Verdict::Malformed(reference_message()),
{
    SchemaCheck::Malformed(String::from_str("schema references (`$ref`) are not supported"))
}

/// Checks the object with the members `members` against the schema
/// `schema`.
pub fn validate_object(schema: &Json, members: &Vec<(String, Json)>) -> (r: SchemaCheck)
    ensures
        r@ == verdict(schema@, JsonView::Object(entries_view(members@))),
{
    if !is_plain(schema) {
        return refused();
    }
    let schema_text = schema.to_text();
    let instance_text = object_text_by_key(members);
    check_texts(schema_text.as_str(), instance_text.as_str())
}

/// Checks the value `instance` against the schema `schema`.
pub fn validate(schema: &Json, instance: &Json) -> (r: SchemaCheck)
    ensures
        r@ == verdict(schema@, instance@),
{
    match instance {
        Json::Object(members) => {
            proof {
                lemma_object_view(*members);
            }
            validate_object(schema, members)
        },
        _ => {
            if !is_plain(schema) {
                return refused();
            }
            let schema_text = schema.to_text();
            let instance_text = instance.to_text();
            check_texts(schema_text.as_str(), instance_text.as_str())
        },
    }
}

} // verus!
