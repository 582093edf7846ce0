//! Turning the named arguments of a request into the ordered, string-encoded
//! positional arguments of a call. The order is that of the schema's
//! `properties`, whatever order the request wrote its arguments in.
use vstd::prelude::*;
use crate::error::{missing_message, Failure, ToolError};
use crate::json::{
    distinct_keys, entries_view, find, items_view, lemma_lookup_ignores_order, lookup, same_members,
    Json, JsonView,
};
use crate::render::text_of;
use crate::request::{array_member, get_array, get_object, object_member};
use crate::schema::{SchemaCheck, Verdict};
use crate::text::{join, joined, views};

verus! {

/// How an argument's value is handed on: a string verbatim, without quotes;
/// any other value as its canonical text.
pub open spec fn argument_text(value: JsonView) -> Seq<char> {
    match value {
        JsonView::String(s) => s,
        _ => text_of(value),
    }
}

/// Whether the string `name` is among `items`.
pub open spec fn names(items: Seq<JsonView>, name: Seq<char>) -> bool {
    exists|i: int| 0 <= i < items.len() && #[trigger] items[i] == JsonView::String(name)
}

/// What the first `n` properties contribute, in their order: for each one
/// that `arguments` holds, the text of its value; nothing for an absent one
/// that is not required; the failure of the first absent one that is.
pub open spec fn ordered_prefix(
    properties: Seq<(Seq<char>, JsonView)>,
    required: Seq<JsonView>,
    arguments: Seq<(Seq<char>, JsonView)>,
    n: nat,
) -> Result<Seq<Seq<char>>, Failure>
    decreases n,
{
    if n == 0 {
        Ok(Seq::empty())
    } else {
        match ordered_prefix(properties, required, arguments, (n - 1) as nat) {
            Err(failure) => Err(failure),
            Ok(ordered) => {
                let name = properties[n - 1].0;
                match lookup(arguments, name) {
                    Some(value) => Ok(ordered.push(argument_text(value))),
                    None => if names(required, name) {
                        Err(Failure::BadArgs(missing_message(name)))
                    } else {
                        Ok(ordered)
                    },
                }
            },
        }
    }
}

/// The message for a registered schema that is no object.
pub open spec fn schema_format_message(tool: Seq<char>) -> Seq<char> {
    "Invalid parameter schema format for tool '"@ + tool + "'"@
}

/// The message for a registered schema without a `required` array.
pub open spec fn no_required_message(tool: Seq<char>) -> Seq<char> {
    "Schema for tool '"@ + tool + "' missing 'required' array"@
}

/// The message for a registered schema without a `properties` object.
pub open spec fn no_properties_message(tool: Seq<char>) -> Seq<char> {
    "Schema for tool '"@ + tool + "' missing 'properties'"@
}

/// The ordered arguments that `arguments` give under `schema`, the schema of
/// the tool named `tool`. A schema that is no object, or has no `required`
/// array, or no `properties` object, is a fault of the registered
/// descriptor.
pub open spec fn marshaled(
    tool: Seq<char>,
    schema: JsonView,
    arguments: Seq<(Seq<char>, JsonView)>,
) -> Result<Seq<Seq<char>>, Failure> {
    match schema.as_object() {
        None => Err(Failure::Execution(schema_format_message(tool))),
        Some(members) => match array_member(members, "required"@) {
            None => Err(Failure::Execution(no_required_message(tool))),
            Some(required) => match object_member(members, "properties"@) {
                None => Err(Failure::Execution(no_properties_message(tool))),
                Some(properties) => ordered_prefix(
                    properties,
                    required,
                    arguments,
                    properties.len(),
                ),
            },
        },
    }
}

/// The message for a registered schema that the validator cannot use, for
/// the reason it gave.
pub open spec fn compile_message(tool: Seq<char>, reason: Seq<char>) -> Seq<char> {
    "Failed to compile schema for tool '"@ + tool + "': "@ + reason
}

/// The message for arguments that break the schema: the violations,
/// separated by `; `.
pub open spec fn violation_message(tool: Seq<char>, violations: Seq<Seq<char>>) -> Seq<char> {
    "Argument validation failed for tool '"@ + tool + "': "@ + joined(violations, "; "@)
}

/// The ordered arguments of a call, given the validator's verdict on its
/// arguments: an unusable schema is a fault of the descriptor, violations
/// are the caller's, and valid arguments are marshaled.
pub open spec fn checked(
    tool: Seq<char>,
    schema: JsonView,
    arguments: Seq<(Seq<char>, JsonView)>,
    verdict: Verdict,
) -> Result<Seq<Seq<char>>, Failure> {
    match verdict {
        Verdict::Malformed(reason) => Err(Failure::Execution(compile_message(tool, reason))),
        Verdict::Violations(violations) => Err(
            Failure::BadArgs(violation_message(tool, violations)),
        ),
        Verdict::Valid => marshaled(tool, schema, arguments),
    }
}

/// The mathematical value of the outcome of a marshaling.
pub open spec fn ordering(r: Result<Vec<String>, ToolError>) -> Result<Seq<Seq<char>>, Failure> {
    match r {
        Ok(ordered) => Ok(views(ordered@)),
        Err(e) => Err(e@),
    }
}

/// Once a required property is found missing, more properties report the
/// same failure.
pub proof fn lemma_missing_persists(
    properties: Seq<(Seq<char>, JsonView)>,
    required: Seq<JsonView>,
    arguments: Seq<(Seq<char>, JsonView)>,
    n: nat,
    m: nat,
)
    requires
        n <= m,
        ordered_prefix(properties, required, arguments, n) is Err,
    ensures
        ordered_prefix(properties, required, arguments, m) == ordered_prefix(
            properties,
            required,
            arguments,
            n,
        ),
    decreases m,
{
    if n < m {
        lemma_missing_persists(properties, required, arguments, n, (m - 1) as nat);
    }
}

/// The order in which a request writes its arguments does not matter: two
/// arguments objects with the same members contribute the same ordered
/// arguments.
pub proof fn lemma_order_is_schema_driven(
    properties: Seq<(Seq<char>, JsonView)>,
    required: Seq<JsonView>,
    a: Seq<(Seq<char>, JsonView)>,
    b: Seq<(Seq<char>, JsonView)>,
    n: nat,
)
    requires
        distinct_keys(a),
        distinct_keys(b),
        same_members(a, b),
    ensures
        ordered_prefix(properties, required, a, n) == ordered_prefix(properties, required, b, n),
    decreases n,
{
    if n > 0 {
        lemma_order_is_schema_driven(properties, required, a, b, (n - 1) as nat);
        lemma_lookup_ignores_order(a, b, properties[n - 1].0);
    }
}

/// Marshaling is driven by the schema, not by the request: two arguments
/// objects that hold the same members, in whatever order, marshal to the
/// same ordered arguments, and so does a call on the same verdict.
pub proof fn lemma_marshal_ignores_order(
    tool: Seq<char>,
    schema: JsonView,
    a: Seq<(Seq<char>, JsonView)>,
    b: Seq<(Seq<char>, JsonView)>,
    verdict: Verdict,
)
    requires
        distinct_keys(a),
        distinct_keys(b),
        same_members(a, b),
    ensures
        marshaled(tool, schema, a) == marshaled(tool, schema, b),
        checked(tool, schema, a, verdict) == checked(tool, schema, b, verdict),
{
    if let Some(members) = schema.as_object() {
        if let Some(required) = array_member(members, "required"@) {
            if let Some(properties) = object_member(members, "properties"@) {
                lemma_order_is_schema_driven(properties, required, a, b, properties.len());
            }
        }
    }
}

/// The text in which `value` is handed on as an argument.
pub fn encode_argument(value: &Json) -> (r: String)
    ensures
        r@ == argument_text(value@),
{
    match value {
        Json::String(s) => s.clone(),
        _ => value.to_text(),
    }
}

/// Whether the string `name` is among `items`.
pub fn names_include(items: &Vec<Json>, name: &str) -> (r: bool)
    ensures
        r == names(items_view(items@), name@),
{
    let mut i: usize = 0;
    while i < items.len()
        invariant
            i <= items.len(),
            forall|k: int| 0 <= k < i ==> items_view(items@)[k] != JsonView::String(name@),
        decreases items.len() - i,
    {
        match items[i].as_str() {
            Some(s) => {
                if *s == *name {
                    proof {
                        assert(items_view(items@)[i as int] == JsonView::String(name@));
                    }
                    return true;
                }
            },
            None => {},
        }
        i += 1;
    }
    false
}

fn execution_error(before: &str, tool: &str, after: &str) -> (r: ToolError)
    ensures
        r@ == Failure::Execution(before@ + tool@ + after@),
{
    let mut message = String::from_str(before);
    message.append(tool);
    message.append(after);
    ToolError::Execution(message)
}

/// Puts the named `arguments` in the order of the properties of `schema`,
/// the parameter schema of the tool named `tool`.
pub fn marshal(tool: &str, schema: &Json, arguments: &Vec<(String, Json)>) -> (r: Result<
    Vec<String>,
    ToolError,
>)
    ensures
        ordering(r) == marshaled(tool@, schema@, entries_view(arguments@)),
{
    let members = match schema.as_object() {
        Some(members) => members,
        None => {
            return Err(execution_error("Invalid parameter schema format for tool '", tool, "'"));
        },
    };
    let required = match get_array(members, "required") {
        Some(required) => required,
        None => {
            return Err(execution_error("Schema for tool '", tool, "' missing 'required' array"));
        },
    };
    let properties = match get_object(members, "properties") {
        Some(properties) => properties,
        None => {
            return Err(execution_error("Schema for tool '", tool, "' missing 'properties'"));
        },
    };
    let ghost props = entries_view(properties@);
    let ghost reqs = items_view(required@);
    let ghost given = entries_view(arguments@);
    let mut ordered: Vec<String> = Vec::new();
    let mut i: usize = 0;
    proof {
        assert(views(ordered@) =~= Seq::<Seq<char>>::empty());
    }
    while i < properties.len()
        invariant
            i <= properties.len(),
            props == entries_view(properties@),
            reqs == items_view(required@),
            given == entries_view(arguments@),
            marshaled(tool@, schema@, given) == ordered_prefix(props, reqs, given, props.len()),
            ordered_prefix(props, reqs, given, i as nat) == Ok::<Seq<Seq<char>>, Failure>(
                views(ordered@),
            ),
        decreases properties.len() - i,
    {
        let name = properties[i].0.as_str();
        let ghost before = views(ordered@);
        proof {
            assert(props[i as int].0 == name@);
        }
        match find(arguments, name) {
            Some(value) => {
                ordered.push(encode_argument(value));
                proof {
                    assert(views(ordered@) =~= before.push(argument_text(value@)));
                }
            },
            None => {
                if names_include(required, name) {
                    proof {
                        lemma_missing_persists(
                            props,
                            reqs,
                            given,
                            (i + 1) as nat,
                            properties.len() as nat,
                        );
                    }
                    return Err(ToolError::missing_argument(name));
                }
            },
        }
        i += 1;
    }
    Ok(ordered)
}

/// The ordered arguments of a call to the tool named `tool`, given the
/// validator's finding `check` on its arguments.
pub fn marshal_checked(
    tool: &str,
    schema: &Json,
    arguments: &Vec<(String, Json)>,
    check: &SchemaCheck,
) -> (r: Result<Vec<String>, ToolError>)
    ensures
        ordering(r) == checked(tool@, schema@, entries_view(arguments@), check@),
{
    match check {
        SchemaCheck::Malformed(reason) => {
            let mut message = String::from_str("Failed to compile schema for tool '");
            message.append(tool);
            message.append("': ");
            message.append(reason.as_str());
            Err(ToolError::Execution(message))
        },
        SchemaCheck::Violations(violations) => {
            let mut message = String::from_str("Argument validation failed for tool '");
            message.append(tool);
            message.append("': ");
            message.append(join(violations, "; ").as_str());
            Err(ToolError::BadArgs(message))
        },
        SchemaCheck::Valid => marshal(tool, schema, arguments),
    }
}

} // verus!
