//! How the stages fit together for a tool whose schema is derived from its
//! parameters: marshaling follows the parameters, and as long as a request
//! supplies a leading run of the parameters, binding gives each parameter
//! the argument that the request wrote under its name.
//!
//! Such a schema holds no reference, so the validator is never refused it.
//!
//! Marshaling leaves no gap for an omitted optional argument. A request that
//! omits one optional argument and supplies a later one therefore has the
//! later one bound to the earlier parameter; the statements here say when
//! this cannot happen.
use vstd::prelude::*;
use crate::error::Failure;
use crate::executor::{
    bind_one, bound, lemma_bind_prefix_all, lemma_bound_values, omitted_value, parse_as,
    required_among, supplied_at, ArgView, ParamView,
};
use crate::json::{lookup, JsonView};
use crate::marshal::{argument_text, marshaled, names, ordered_prefix};
use crate::request::{array_member, object_member};
use crate::number::lemma_integer_text_is_json_number;
use crate::schema::{plain, plain_items, plain_members};
use crate::tool::{
    declared_default, properties_json, property_json, required_json, schema_of, type_json,
};

verus! {

/// The schema derived from `params` is an object whose `properties` and
/// `required` are the ones derived from `params`.
pub proof fn lemma_schema_members(params: Seq<ParamView>)
    ensures
        schema_of(params).as_object() is Some,
        object_member(schema_of(params).as_object()->0, "properties"@) == Some(
            properties_json(params),
        ),
        array_member(schema_of(params).as_object()->0, "required"@) == Some(
            required_json(params, params.len()),
        ),
{
    reveal_strlit("type");
    reveal_strlit("properties");
    reveal_strlit("required");
    assert("type"@.len() != "properties"@.len());
    assert("type"@.len() != "required"@.len());
    assert("properties"@.len() != "required"@.len());
    reveal_with_fuel(lookup, 4);
    let members = schema_of(params).as_object()->0;
    assert(members.drop_last() =~= seq![
        ("type"@, JsonView::String("object"@)),
        ("properties"@, JsonView::Object(properties_json(params))),
    ]);
    assert(members.drop_last().drop_last() =~= seq![("type"@, JsonView::String("object"@))]);
}

/// A name is among the required names of the first `n` parameters exactly
/// where one of them is required and bears it.
pub proof fn lemma_required_names(params: Seq<ParamView>, n: nat, name: Seq<char>)
    requires
        n <= params.len(),
    ensures
        names(required_json(params, n), name) <==> exists|j: int|
            0 <= j < n && !(#[trigger] params[j]).optional && params[j].name == name,
    decreases n,
{
    if n > 0 {
        lemma_required_names(params, (n - 1) as nat, name);
        let shorter = required_json(params, (n - 1) as nat);
        let longer = required_json(params, n);
        if params[n - 1].optional {
            if exists|j: int| 0 <= j < n && !(#[trigger] params[j]).optional && params[j].name == name {
                let j = choose|j: int|
                    0 <= j < n && !(#[trigger] params[j]).optional && params[j].name == name;
                assert(0 <= j < n - 1 && !params[j].optional && params[j].name == name);
            }
        } else {
            if names(longer, name) {
                let i = choose|i: int|
                    0 <= i < longer.len() && #[trigger] longer[i] == JsonView::String(name);
                if i < shorter.len() {
                    assert(shorter[i] == JsonView::String(name));
                    let j = choose|j: int|
                        0 <= j < n - 1 && !(#[trigger] params[j]).optional && params[j].name
                            == name;
                    assert(0 <= j < n && !params[j].optional && params[j].name == name);
                } else {
                    assert(!params[n - 1].optional && params[n - 1].name == name);
                }
            }
            if exists|j: int| 0 <= j < n && !(#[trigger] params[j]).optional && params[j].name == name {
                let j = choose|j: int|
                    0 <= j < n && !(#[trigger] params[j]).optional && params[j].name == name;
                if j < n - 1 {
                    assert(names(shorter, name));
                    let i = choose|i: int|
                        0 <= i < shorter.len() && #[trigger] shorter[i] == JsonView::String(name);
                    assert(longer[i] == JsonView::String(name));
                } else {
                    assert(longer[longer.len() - 1] == JsonView::String(name));
                }
            }
        }
    }
}

/// `arguments` supplies exactly the first `n` parameters of `params`, and
/// every parameter after them is optional.
pub open spec fn supplies_first(
    params: Seq<ParamView>,
    arguments: Seq<(Seq<char>, JsonView)>,
    n: nat,
) -> bool {
    &&& n <= params.len()
    &&& forall|i: int|
        0 <= i < params.len() ==> (lookup(arguments, (#[trigger] params[i]).name) is Some <==> i
            < n)
    &&& forall|i: int| n <= i < params.len() ==> (#[trigger] params[i]).optional
}

/// The texts of the arguments that `arguments` holds for the first `n`
/// parameters, in the parameters' order.
pub open spec fn supplied_texts(
    params: Seq<ParamView>,
    arguments: Seq<(Seq<char>, JsonView)>,
    n: nat,
) -> Seq<Seq<char>> {
    Seq::new(n, |i: int| argument_text(lookup(arguments, params[i].name)->0))
}

proof fn lemma_ordered_prefix_aligns(
    params: Seq<ParamView>,
    arguments: Seq<(Seq<char>, JsonView)>,
    n: nat,
    k: nat,
)
    requires
        supplies_first(params, arguments, n),
        k <= params.len(),
    ensures
        ordered_prefix(
            properties_json(params),
            required_json(params, params.len()),
            arguments,
            k,
        ) == Ok::<Seq<Seq<char>>, Failure>(
            supplied_texts(
                params,
                arguments,
                if k <= n {
                    k
                } else {
                    n
                },
            ),
        ),
    decreases k,
{
    if k == 0 {
        assert(supplied_texts(params, arguments, 0) =~= Seq::<Seq<char>>::empty());
    } else {
        lemma_ordered_prefix_aligns(params, arguments, n, (k - 1) as nat);
        let name = params[k - 1].name;
        assert(properties_json(params)[k - 1].0 == name);
        if k <= n {
            assert(lookup(arguments, params[k - 1].name) is Some);
            assert(supplied_texts(params, arguments, (k - 1) as nat).push(
                argument_text(lookup(arguments, name)->0),
            ) =~= supplied_texts(params, arguments, k));
        } else {
            assert(lookup(arguments, params[k - 1].name) is None);
            lemma_required_names(params, params.len(), name);
            if names(required_json(params, params.len()), name) {
                let j = choose|j: int|
                    0 <= j < params.len() && !(#[trigger] params[j]).optional && params[j].name
                        == name;
                assert(j < n);
                assert(lookup(arguments, params[j].name) is Some);
            }
        }
    }
}

/// Under the schema derived from `params`, a request that supplies exactly
/// the first `n` parameters marshals to their `n` texts, in the parameters'
/// order.
pub proof fn lemma_marshal_follows_parameters(
    tool: Seq<char>,
    params: Seq<ParamView>,
    arguments: Seq<(Seq<char>, JsonView)>,
    n: nat,
)
    requires
        supplies_first(params, arguments, n),
    ensures
        marshaled(tool, schema_of(params), arguments) == Ok::<Seq<Seq<char>>, Failure>(
            supplied_texts(params, arguments, n),
        ),
{
    lemma_schema_members(params);
    lemma_ordered_prefix_aligns(params, arguments, n, params.len());
    assert(properties_json(params).len() == params.len());
}

/// The required parameters among the first `n` are no more than `n`.
proof fn lemma_required_among_bound(params: Seq<ParamView>, n: nat)
    ensures
        required_among(params, n) <= n,
    decreases n,
{
    if n > 0 {
        lemma_required_among_bound(params, (n - 1) as nat);
    }
}

/// Parameters that are all optional add nothing to the required count.
proof fn lemma_required_among_optional_tail(params: Seq<ParamView>, n: nat, m: nat)
    requires
        n <= m <= params.len(),
        forall|i: int| n <= i < m ==> (#[trigger] params[i]).optional,
    ensures
        required_among(params, m) == required_among(params, n),
    decreases m,
{
    if n < m {
        lemma_required_among_optional_tail(params, n, (m - 1) as nat);
    }
}

/// Named arguments reach their own parameters: under the schema derived
/// from `params`, a request that supplies exactly the first `n` parameters,
/// each in a value whose text reads as its parameter's type, marshals and
/// binds; each of those parameters receives the parse of the argument
/// written under its name, and each later one what an omitted parameter
/// receives.
pub proof fn lemma_named_call_binds(
    tool: Seq<char>,
    params: Seq<ParamView>,
    arguments: Seq<(Seq<char>, JsonView)>,
    n: nat,
)
    requires
        supplies_first(params, arguments, n),
        forall|i: int|
            0 <= i < n ==> parse_as(
                (#[trigger] params[i]).kind,
                argument_text(lookup(arguments, params[i].name)->0),
            ) is Some,
    ensures
        marshaled(tool, schema_of(params), arguments) == Ok::<Seq<Seq<char>>, Failure>(
            supplied_texts(params, arguments, n),
        ),
        bound(params, supplied_texts(params, arguments, n)) is Ok,
        bound(params, supplied_texts(params, arguments, n))->Ok_0.len() == params.len(),
        forall|i: int|
            0 <= i < n ==> Some(
                #[trigger] bound(params, supplied_texts(params, arguments, n))->Ok_0[i],
            ) == parse_as(params[i].kind, argument_text(lookup(arguments, params[i].name)->0)),
        forall|i: int|
            n <= i < params.len() ==> #[trigger] bound(
                params,
                supplied_texts(params, arguments, n),
            )->Ok_0[i] == omitted_value(params[i]),
{
    let texts = supplied_texts(params, arguments, n);
    lemma_marshal_follows_parameters(tool, params, arguments, n);
    lemma_required_among_bound(params, n);
    lemma_required_among_optional_tail(params, n, params.len());
    assert forall|i: int| 0 <= i < params.len() implies (#[trigger] bind_one(
        params[i],
        supplied_at(texts, i),
    )) is Ok by {
        if i < n {
            assert(parse_as(params[i].kind, argument_text(lookup(arguments, params[i].name)->0))
                is Some);
        } else {
            assert(params[i].optional);
        }
    }
    lemma_bind_prefix_all(params, texts, params.len());
    let typed = bound(params, texts)->Ok_0;
    assert forall|i: int| 0 <= i < n implies Some(#[trigger] typed[i]) == parse_as(
        params[i].kind,
        argument_text(lookup(arguments, params[i].name)->0),
    ) by {
        lemma_bound_values(params, texts, i);
    }
    assert forall|i: int| n <= i < params.len() implies #[trigger] typed[i] == omitted_value(
        params[i],
    ) by {
        lemma_bound_values(params, texts, i);
    }
}

/// The schema of one parameter holds no reference.
pub proof fn lemma_property_is_plain(param: ParamView)
    ensures
        plain(property_json(param)),
{
    reveal_strlit("type");
    reveal_strlit("default");
    reveal_strlit("$ref");
    assert("type"@[0] != "$ref"@[0]);
    assert("default"@.len() != "$ref"@.len());
    reveal_with_fuel(plain, 3);
    reveal_with_fuel(plain_items, 3);
    reveal_with_fuel(plain_members, 3);
    let kind = type_json(param);
    assert(plain(kind));
    match declared_default(param) {
        Some(value) => {
            if let Some(ArgView::Integer(n)) = param.default {
                lemma_integer_text_is_json_number(n as int);
            }
            assert(plain(value));
        },
        None => {},
    }
}

proof fn lemma_properties_are_plain(params: Seq<ParamView>, n: nat)
    requires
        n <= params.len(),
        forall|i: int| 0 <= i < params.len() ==> (#[trigger] params[i]).name != "$ref"@,
    ensures
        plain_members(properties_json(params), n),
    decreases n,
{
    if n > 0 {
        lemma_properties_are_plain(params, (n - 1) as nat);
        lemma_property_is_plain(params[n - 1]);
        assert(properties_json(params)[n - 1] == (params[n - 1].name, property_json(params[n - 1])));
    }
}

proof fn lemma_required_names_are_plain(params: Seq<ParamView>, m: nat, n: nat)
    requires
        m <= params.len(),
        n <= required_json(params, m).len(),
    ensures
        plain_items(required_json(params, m), n),
    decreases n,
{
    if n > 0 {
        lemma_required_names_are_plain(params, m, (n - 1) as nat);
        lemma_required_are_strings(params, m, n - 1);
        assert(plain(required_json(params, m)[n - 1]));
    }
}

proof fn lemma_required_are_strings(params: Seq<ParamView>, m: nat, i: int)
    requires
        m <= params.len(),
        0 <= i < required_json(params, m).len(),
    ensures
        required_json(params, m)[i] is String,
    decreases m,
{
    if m > 0 {
        if params[m - 1].optional {
            lemma_required_are_strings(params, (m - 1) as nat, i);
        } else if i < required_json(params, (m - 1) as nat).len() {
            lemma_required_are_strings(params, (m - 1) as nat, i);
        }
    }
}

/// The schema derived from parameters holds no reference, as long as no
/// parameter is named `$ref`: the validator is never refused a schema that
/// `Tool::new` made for such parameters.
pub proof fn lemma_derived_schema_is_plain(params: Seq<ParamView>)
    requires
        forall|i: int| 0 <= i < params.len() ==> (#[trigger] params[i]).name != "$ref"@,
    ensures
        plain(schema_of(params)),
{
    reveal_strlit("type");
    reveal_strlit("properties");
    reveal_strlit("required");
    reveal_strlit("$ref");
    assert("type"@[0] != "$ref"@[0]);
    assert("properties"@.len() != "$ref"@.len());
    assert("required"@.len() != "$ref"@.len());
    lemma_properties_are_plain(params, params.len());
    lemma_required_names_are_plain(
        params,
        params.len(),
        required_json(params, params.len()).len(),
    );
    assert(properties_json(params).len() == params.len());
    let members = schema_of(params)->Object_0;
    assert(plain(members[0].1));
    assert(plain(members[1].1));
    assert(plain(members[2].1));
    assert(plain_members(members, 0));
    assert(plain_members(members, 1));
    assert(plain_members(members, 2));
    assert(plain_members(members, 3));
}

} // verus!
