//! Tool descriptors: a name, a description, a parameter schema, the typed
//! parameters and the implementation.
use vstd::prelude::*;
use crate::error::{outcome, Failure, ToolError};
use crate::executor::{
    args_view, bind, bound, fits, lemma_bound_fits, params_view, Arg, ArgView, Param, ParamKind,
    ParamView,
};
use crate::json::{entries_view, items_view, member, Json, JsonView, Number};
use crate::number::{integer_text, is_json_number};
use crate::text::views;

verus! {

/// Metadata for a registered tool, together with its implementation.
///
/// `parameter_schema` is what callers are told and what requests are checked
/// against; `params` is what the positional arguments of a call are bound
/// to. [`Tool::new`] derives the first from the second.
pub struct Tool<F> {
    /// The unique name of the tool.
    pub name: String,
    /// A brief description of the tool's purpose.
    pub description: String,
    /// JSON Schema describing the tool's parameters.
    pub parameter_schema: Json,
    /// The typed parameters, in positional order.
    pub params: Vec<Param>,
    /// The implementation. It receives one typed argument per parameter.
    pub function: F,
}

/// The mathematical value of a [`Tool`], its implementation aside.
pub struct ToolView {
    pub name: Seq<char>,
    pub description: Seq<char>,
    pub parameter_schema: JsonView,
    pub params: Seq<ParamView>,
}

impl<F> View for Tool<F> {
    type V = ToolView;

    open spec fn view(&self) -> ToolView {
        ToolView {
            name: self.name@,
            description: self.description@,
            parameter_schema: self.parameter_schema@,
            params: params_view(self.params@),
        }
    }
}

/// The schema name of a parameter type.
pub open spec fn kind_name(kind: ParamKind) -> Seq<char> {
    match kind {
        ParamKind::Integer => "integer"@,
        ParamKind::IntegerIn(_, _) => "integer"@,
        ParamKind::Number => "number"@,
        ParamKind::Boolean => "boolean"@,
        ParamKind::String => "string"@,
    }
}

/// How a default value stands in a schema. A number that JSON cannot write
/// stands as `null`; an absent value does not stand at all.
pub open spec fn default_json(value: ArgView) -> Option<JsonView> {
    match value {
        ArgView::Integer(n) => Some(JsonView::Number(integer_text(n as int))),
        ArgView::Number(literal) => Some(
            if is_json_number(literal) {
                JsonView::Number(literal)
            } else {
                JsonView::Null
            },
        ),
        ArgView::Boolean(b) => Some(JsonView::Bool(b)),
        ArgView::String(s) => Some(JsonView::String(s)),
        ArgView::Absent => None,
    }
}

/// The `type` of a parameter's schema: the type's name, or for an optional
/// parameter the pair of that name and `null`.
pub open spec fn type_json(param: ParamView) -> JsonView {
    if param.optional {
        JsonView::Array(
            seq![JsonView::String(kind_name(param.kind)), JsonView::String("null"@)],
        )
    } else {
        JsonView::String(kind_name(param.kind))
    }
}

/// The default that a parameter's schema declares, if any.
pub open spec fn declared_default(param: ParamView) -> Option<JsonView> {
    match param.default {
        Some(value) => default_json(value),
        None => None,
    }
}

/// The schema of one parameter: its `type`, then its `default` if it has one.
pub open spec fn property_json(param: ParamView) -> JsonView {
    match declared_default(param) {
        Some(value) => JsonView::Object(
            seq![("type"@, type_json(param)), ("default"@, value)],
        ),
        None => JsonView::Object(seq![("type"@, type_json(param))]),
    }
}

/// The `properties` of a schema: one member per parameter, in order.
pub open spec fn properties_json(params: Seq<ParamView>) -> Seq<(Seq<char>, JsonView)> {
    Seq::new(params.len(), |i: int| (params[i].name, property_json(params[i])))
}

/// The names of the required parameters among the first `n`, in order.
pub open spec fn required_json(params: Seq<ParamView>, n: nat) -> Seq<JsonView>
    decreases n,
{
    if n == 0 || n > params.len() {
        Seq::empty()
    } else if params[n - 1].optional {
        required_json(params, (n - 1) as nat)
    } else {
        required_json(params, (n - 1) as nat).push(JsonView::String(params[n - 1].name))
    }
}

/// The parameter schema that describes `params`.
pub open spec fn schema_of(params: Seq<ParamView>) -> JsonView {
    JsonView::Object(
        seq![
            ("type"@, JsonView::String("object"@)),
            ("properties"@, JsonView::Object(properties_json(params))),
            ("required"@, JsonView::Array(required_json(params, params.len()))),
        ],
    )
}

fn kind_text(kind: ParamKind) -> (r: Json)
    ensures
        r@ == JsonView::String(kind_name(kind)),
{
    match kind {
        ParamKind::Integer => Json::string("integer"),
        ParamKind::IntegerIn(_, _) => Json::string("integer"),
        ParamKind::Number => Json::string("number"),
        ParamKind::Boolean => Json::string("boolean"),
        ParamKind::String => Json::string("string"),
    }
}

fn default_value(value: &Arg) -> (r: Option<Json>)
    ensures
        match r {
            Some(json) => default_json(value@) == Some(json@),
            None => default_json(value@) is None,
        },
{
    match value {
        Arg::Integer(n) => Some(Json::Number(Number::from_i128(*n))),
        Arg::Number(literal) => match Number::parse(literal.as_str()) {
            Some(number) => Some(Json::Number(number)),
            None => Some(Json::Null),
        },
        Arg::Boolean(b) => Some(Json::Bool(*b)),
        Arg::String(s) => Some(Json::string(s.as_str())),
        Arg::Absent => None,
    }
}

fn property_schema(param: &Param) -> (r: Json)
    ensures
        r@ == property_json(param@),
{
    let kind = kind_text(param.kind);
    let declared_type = if param.optional {
        let mut pair: Vec<Json> = Vec::new();
        pair.push(kind);
        pair.push(Json::string("null"));
        proof {
            assert(items_view(pair@) =~= seq![
                JsonView::String(kind_name(param.kind)),
                JsonView::String("null"@),
            ]);
        }
        Json::array(pair)
    } else {
        kind
    };
    let mut members: Vec<(String, Json)> = Vec::new();
    members.push(member("type", declared_type));
    let declared = match &param.default {
        Some(value) => default_value(value),
        None => None,
    };
    match declared {
        Some(value) => {
            members.push(member("default", value));
            proof {
                assert(entries_view(members@) =~= seq![
                    ("type"@, type_json(param@)),
                    ("default"@, value@),
                ]);
            }
        },
        None => {
            proof {
                assert(entries_view(members@) =~= seq![("type"@, type_json(param@))]);
            }
        },
    }
    Json::object(members)
}

/// The parameter schema that describes `params`: an object schema with one
/// property per parameter, in order, and the required names.
pub fn schema_for(params: &Vec<Param>) -> (r: Json)
    ensures
        r@ == schema_of(params_view(params@)),
{
    let ghost views = params_view(params@);
    let mut properties: Vec<(String, Json)> = Vec::new();
    let mut required: Vec<Json> = Vec::new();
    let mut i: usize = 0;
    while i < params.len()
        invariant
            i <= params.len(),
            views == params_view(params@),
            properties.len() == i,
            entries_view(properties@) == properties_json(views).take(i as int),
            items_view(required@) == required_json(views, i as nat),
        decreases params.len() - i,
    {
        let param = &params[i];
        let ghost before = entries_view(properties@);
        properties.push(member(param.name.as_str(), property_schema(param)));
        if !param.optional {
            required.push(Json::string(param.name.as_str()));
        }
        proof {
            assert(views[i as int] == param@);
            assert forall|k: int| 0 <= k <= i implies entries_view(properties@)[k]
                == properties_json(views)[k] by {
                if k < i {
                    assert(entries_view(properties@)[k] == before[k]);
                }
            }
            assert(entries_view(properties@) =~= properties_json(views).take(i + 1));
            assert(items_view(required@) =~= required_json(views, (i + 1) as nat));
        }
        i += 1;
    }
    proof {
        assert(properties_json(views).take(params.len() as int) =~= properties_json(views));
    }
    let mut members: Vec<(String, Json)> = Vec::new();
    members.push(member("type", Json::string("object")));
    members.push(member("properties", Json::object(properties)));
    members.push(member("required", Json::array(required)));
    proof {
        assert(entries_view(members@) =~= seq![
            ("type"@, JsonView::String("object"@)),
            ("properties"@, JsonView::Object(properties_json(views))),
            ("required"@, JsonView::Array(required_json(views, views.len()))),
        ]);
    }
    Json::object(members)
}

impl<F> Tool<F> {
    /// A tool with the given typed parameters, whose schema is derived from
    /// them.
    pub fn new(name: &str, description: &str, params: Vec<Param>, function: F) -> (r: Self)
        ensures
            r@ == (ToolView {
                name: name@,
                description: description@,
                parameter_schema: schema_of(params_view(params@)),
                params: params_view(params@),
            }),
            r.function == function,
    {
        let parameter_schema = schema_for(&params);
        Tool {
            name: String::from_str(name),
            description: String::from_str(description),
            parameter_schema,
            params,
            function,
        }
    }
}

impl<F: Fn(&Vec<Arg>) -> Result<String, ToolError>> Tool<F> {
    /// The implementation accepts every list of typed arguments that fits
    /// the tool's parameters. An implementation without a precondition of
    /// its own always does.
    pub open spec fn total(&self) -> bool {
        forall|typed: Vec<Arg>|
            fits(self@.params, args_view(typed@)) ==> #[trigger] call_requires(
                self.function,
                (&typed,),
            )
    }

    /// What running the tool on the positional arguments `args` may return:
    /// the failure of the binding where the arguments do not bind; else what
    /// the implementation returns on the bound arguments.
    pub open spec fn executed(&self, args: Seq<Seq<char>>, r: Result<String, ToolError>) -> bool {
        match bound(self@.params, args) {
            Err(failure) => outcome(r) == Err::<Seq<char>, Failure>(failure),
            Ok(bound_args) => exists|typed: Vec<Arg>|
                args_view(typed@) == bound_args && call_ensures(self.function, (&typed,), r),
        }
    }

    /// Runs the tool on the positional string arguments `args`: checks their
    /// count, reads each as its parameter's type, and calls the
    /// implementation.
    pub fn execute(&self, args: &[String]) -> (r: Result<String, ToolError>)
        requires
            self.total(),
        ensures
            self.executed(views(args@), r),
    {
        let typed = match bind(&self.params, args) {
            Ok(typed) => typed,
            Err(e) => {
                return Err(e);
            },
        };
        proof {
            lemma_bound_fits(self@.params, views(args@));
        }
        (self.function)(&typed)
    }
}

} // verus!
