//! The shape of a call request:
//! `{"type": "function", "function": {"name": .., "arguments": {..}}}`.
//! Any other member, a `parameters` schema inside `function` included, is
//! not read.
use vstd::prelude::*;
use crate::error::{Failure, ToolError};
use crate::json::{entries_view, find, lookup, Json, JsonView};

verus! {

/// What a call request asks for: the tool's name and the named arguments.
pub struct Request {
    pub name: Seq<char>,
    pub arguments: Seq<(Seq<char>, JsonView)>,
}

/// A call request that was read: the tool's name and the named arguments,
/// borrowed from the request.
pub struct CallRequest<'a> {
    pub name: &'a str,
    pub arguments: &'a Vec<(String, Json)>,
}

impl<'a> View for CallRequest<'a> {
    type V = Request;

    open spec fn view(&self) -> Request {
        Request { name: self.name@, arguments: entries_view(self.arguments@) }
    }
}

/// The member `key` of `members`, where it is a string.
pub open spec fn string_member(members: Seq<(Seq<char>, JsonView)>, key: Seq<char>) -> Option<
    Seq<char>,
> {
    match lookup(members, key) {
        Some(value) => value.as_str(),
        None => None,
    }
}

/// The member `key` of `members`, where it is an object.
pub open spec fn object_member(members: Seq<(Seq<char>, JsonView)>, key: Seq<char>) -> Option<
    Seq<(Seq<char>, JsonView)>,
> {
    match lookup(members, key) {
        Some(value) => value.as_object(),
        None => None,
    }
}

/// The member `key` of `members`, where it is an array.
pub open spec fn array_member(members: Seq<(Seq<char>, JsonView)>, key: Seq<char>) -> Option<
    Seq<JsonView>,
> {
    match lookup(members, key) {
        Some(value) => value.as_array(),
        None => None,
    }
}

/// The message for a request whose `type` is `found`, not `function`.
pub open spec fn wrong_type_message(found: Seq<char>) -> Seq<char> {
    "Invalid input type: expected 'function', got '"@ + found + "'"@
}

/// What the part of a request under `function` asks for.
pub open spec fn function_request(function: Seq<(Seq<char>, JsonView)>) -> Result<
    Request,
    Failure,
> {
    match string_member(function, "name"@) {
        None => Err(Failure::BadArgs("Missing or invalid 'function.name'"@)),
        Some(name) => match object_member(function, "arguments"@) {
            None => Err(Failure::BadArgs("Missing or invalid 'arguments' field"@)),
            Some(arguments) => Ok(Request { name, arguments }),
        },
    }
}

/// What the request `input` asks for, or why it is no call request. The
/// checks come in this order: `input` is an object; its `type` is a string;
/// that string is `function`; its `function` is an object; the `name` in
/// it is a string; the `arguments` in it are an object.
pub open spec fn request_of(input: JsonView) -> Result<Request, Failure> {
    match input.as_object() {
        None => Err(Failure::BadArgs("Expected JSON object"@)),
        Some(members) => match string_member(members, "type"@) {
            None => Err(Failure::BadArgs("Missing or invalid 'type' field"@)),
            Some(kind) => if kind != "function"@ {
                Err(Failure::BadArgs(wrong_type_message(kind)))
            } else {
                match object_member(members, "function"@) {
                    None => Err(Failure::BadArgs("Missing or invalid 'function' field"@)),
                    Some(function) => function_request(function),
                }
            },
        },
    }
}

/// The call request for the tool `name` with the arguments `arguments`,
/// carrying the schema `parameters` where there is one.
pub open spec fn call_request(name: Seq<char>, arguments: JsonView, parameters: Option<JsonView>)
    -> JsonView {
    let function = match parameters {
        Some(schema) => seq![
            ("name"@, JsonView::String(name)),
            ("arguments"@, arguments),
            ("parameters"@, schema),
        ],
        None => seq![("name"@, JsonView::String(name)), ("arguments"@, arguments)],
    };
    JsonView::Object(
        seq![("type"@, JsonView::String("function"@)), ("function"@, JsonView::Object(function))],
    )
}

/// A call request that is written for a tool's name and an object of
/// arguments reads back as that name and those arguments, whatever schema
/// it carries.
pub proof fn lemma_call_request_reads_back(
    name: Seq<char>,
    arguments: Seq<(Seq<char>, JsonView)>,
    parameters: Option<JsonView>,
)
    ensures
        request_of(call_request(name, JsonView::Object(arguments), parameters)) == Ok::<
            Request,
            Failure,
        >(Request { name, arguments }),
{
    reveal_strlit("type");
    reveal_strlit("function");
    reveal_strlit("name");
    reveal_strlit("arguments");
    reveal_strlit("parameters");
    assert("type"@.len() != "function"@.len());
    assert("name"@.len() != "arguments"@.len());
    assert("name"@.len() != "parameters"@.len());
    assert("arguments"@.len() != "parameters"@.len());
    reveal_with_fuel(lookup, 4);
    let request = call_request(name, JsonView::Object(arguments), parameters);
    let members = request->Object_0;
    assert(members.drop_last() =~= seq![("type"@, JsonView::String("function"@))]);
    let function = members[1].1->Object_0;
    match parameters {
        Some(schema) => {
            assert(function.drop_last() =~= seq![
                ("name"@, JsonView::String(name)),
                ("arguments"@, JsonView::Object(arguments)),
            ]);
            assert(function.drop_last().drop_last() =~= seq![("name"@, JsonView::String(name))]);
        },
        None => {
            assert(function.drop_last() =~= seq![("name"@, JsonView::String(name))]);
        },
    }
}

/// A `parameters` schema that a request carries under `function` plays no
/// part in what the request asks for.
pub proof fn lemma_injected_parameters_ignored(
    function: Seq<(Seq<char>, JsonView)>,
    schema: JsonView,
)
    ensures
        function_request(function.push(("parameters"@, schema))) == function_request(function),
{
    reveal_strlit("parameters");
    reveal_strlit("name");
    reveal_strlit("arguments");
    let injected = function.push(("parameters"@, schema));
    assert(injected.drop_last() =~= function);
    assert("parameters"@.len() != "name"@.len());
    assert("parameters"@.len() != "arguments"@.len());
}

/// Only the `type` of a request and the `name` and `arguments` under its
/// `function` decide what it asks for.
pub proof fn lemma_request_reads_three_members(a: JsonView, b: JsonView)
    requires
        a.as_object() is Some,
        b.as_object() is Some,
        string_member(a.as_object()->0, "type"@) == string_member(b.as_object()->0, "type"@),
        object_member(a.as_object()->0, "function"@) is Some,
        object_member(b.as_object()->0, "function"@) is Some,
        string_member(object_member(a.as_object()->0, "function"@)->0, "name"@) == string_member(
            object_member(b.as_object()->0, "function"@)->0,
            "name"@,
        ),
        object_member(object_member(a.as_object()->0, "function"@)->0, "arguments"@)
            == object_member(object_member(b.as_object()->0, "function"@)->0, "arguments"@),
    ensures
        request_of(a) == request_of(b),
{
}

/// The mathematical value of the outcome of reading a request.
pub open spec fn reading(r: Result<CallRequest<'_>, ToolError>) -> Result<Request, Failure> {
    match r {
        Ok(request) => Ok(request@),
        Err(e) => Err(e@),
    }
}

fn bad_args(message: &str) -> (r: ToolError)
    ensures
        r@ == Failure::BadArgs(message@),
{
    ToolError::BadArgs(String::from_str(message))
}

/// The member `key` of `members`, where it is a string.
pub fn get_str<'a>(members: &'a Vec<(String, Json)>, key: &str) -> (r: Option<&'a str>)
    ensures
        match r {
            Some(s) => string_member(entries_view(members@), key@) == Some(s@),
            None => string_member(entries_view(members@), key@) is None,
        },
{
    match find(members, key) {
        Some(value) => value.as_str(),
        None => None,
    }
}

/// The member `key` of `members`, where it is an object.
pub fn get_object<'a>(members: &'a Vec<(String, Json)>, key: &str) -> (r: Option<
    &'a Vec<(String, Json)>,
>)
    ensures
        match r {
            Some(inner) => object_member(entries_view(members@), key@) == Some(
                entries_view(inner@),
            ),
            None => object_member(entries_view(members@), key@) is None,
        },
{
    match find(members, key) {
        Some(value) => value.as_object(),
        None => None,
    }
}

/// The member `key` of `members`, where it is an array.
pub fn get_array<'a>(members: &'a Vec<(String, Json)>, key: &str) -> (r: Option<&'a Vec<Json>>)
    ensures
        match r {
            Some(items) => array_member(entries_view(members@), key@) == Some(
                crate::json::items_view(items@),
            ),
            None => array_member(entries_view(members@), key@) is None,
        },
{
    match find(members, key) {
        Some(value) => value.as_array(),
        None => None,
    }
}

/// Reads the call request `input`.
pub fn read_request<'a>(input: &'a Json) -> (r: Result<CallRequest<'a>, ToolError>)
    ensures
        reading(r) == request_of(input@),
{
    let members = match input.as_object() {
        Some(members) => members,
        None => {
            return Err(bad_args("Expected JSON object"));
        },
    };
    let kind = match get_str(members, "type") {
        Some(kind) => kind,
        None => {
            return Err(bad_args("Missing or invalid 'type' field"));
        },
    };
    if *kind != *"function" {
        let mut message = String::from_str("Invalid input type: expected 'function', got '");
        message.append(kind);
        message.append("'");
        return Err(ToolError::BadArgs(message));
    }
    let function = match get_object(members, "function") {
        Some(function) => function,
        None => {
            return Err(bad_args("Missing or invalid 'function' field"));
        },
    };
    let name = match get_str(function, "name") {
        Some(name) => name,
        None => {
            return Err(bad_args("Missing or invalid 'function.name'"));
        },
    };
    let arguments = match get_object(function, "arguments") {
        Some(arguments) => arguments,
        None => {
            return Err(bad_args("Missing or invalid 'arguments' field"));
        },
    };
    Ok(CallRequest { name, arguments })
}

} // verus!
