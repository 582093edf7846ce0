//! The dispatch facade: a registry of tools, lookup by name, the export of
//! the registry as a catalog, and the two ways to call a tool.
use vstd::prelude::*;
use crate::error::{outcome, Failure, ToolError};
use crate::executor::{
    args_view, bind, bound, lemma_required_only, omitted_value, parse_as, Arg, ArgView,
};
use crate::json::{
    distinct_keys, entries_view, items_view, lookup, member, same_members, Json, JsonView,
};
use crate::marshal::{argument_text, checked, lemma_marshal_ignores_order, marshal_checked};
use crate::pipeline::{lemma_named_call_binds, supplied_texts, supplies_first};
use crate::request::{
    call_request, lemma_call_request_reads_back, lemma_request_reads_three_members, object_member,
    read_request, request_of, string_member,
};
use crate::schema::{lemma_verdict_ignores_order, validate_object, verdict, Verdict};
use crate::text::views;
use crate::tool::{schema_of, Tool, ToolView};

verus! {

/// Handler for discovering and invoking registered tools.
///
/// The registry is fixed when the handler is made; every operation reads it
/// and none changes it.
pub struct ToolHandler<F> {
    tools: Vec<Tool<F>>,
}

/// The views of the tools of `tools`, in order.
pub open spec fn tools_view<F>(tools: Seq<Tool<F>>) -> Seq<ToolView> {
    Seq::new(tools.len(), |i: int| tools[i]@)
}

/// The position of the first tool at or after `from` whose name is `name`.
pub open spec fn first_named(tools: Seq<ToolView>, name: Seq<char>, from: int) -> Option<int>
    decreases tools.len() - from,
{
    if from < 0 || from >= tools.len() {
        None
    } else if tools[from].name == name {
        Some(from)
    } else {
        first_named(tools, name, from + 1)
    }
}

/// The position of the tool that `name` stands for: the first of that name.
pub open spec fn index_of(tools: Seq<ToolView>, name: Seq<char>) -> Option<int> {
    first_named(tools, name, 0)
}

/// A position found by name lies in the registry and holds that name, and
/// no earlier position from `from` on does.
pub proof fn lemma_first_named(tools: Seq<ToolView>, name: Seq<char>, from: int)
    requires
        0 <= from,
    ensures
        match first_named(tools, name, from) {
            Some(i) => from <= i < tools.len() && tools[i].name == name && forall|k: int|
                from <= k < i ==> (#[trigger] tools[k]).name != name,
            None => forall|k: int| from <= k < tools.len() ==> (#[trigger] tools[k]).name != name,
        },
    decreases tools.len() - from,
{
    if from < tools.len() && tools[from].name != name {
        lemma_first_named(tools, name, from + 1);
    }
}

/// The catalog entry of one tool.
pub open spec fn entry_json(tool: ToolView) -> JsonView {
    JsonView::Object(
        seq![
            ("type"@, JsonView::String("function"@)),
            (
                "function"@,
                JsonView::Object(
                    seq![
                        ("name"@, JsonView::String(tool.name)),
                        ("description"@, JsonView::String(tool.description)),
                        ("parameters"@, tool.parameter_schema),
                    ],
                ),
            ),
        ],
    )
}

/// The entries of the catalog: one per tool, in registry order.
pub open spec fn catalog_entries(tools: Seq<ToolView>) -> Seq<JsonView> {
    Seq::new(tools.len(), |i: int| entry_json(tools[i]))
}

/// The catalog of `tools`: the array of their entries.
pub open spec fn catalog(tools: Seq<ToolView>) -> JsonView {
    JsonView::Array(catalog_entries(tools))
}

/// The verdict on the object of `arguments` under the registered schema of
/// `tool`. A registered schema that holds a reference is malformed; else
/// the validator is handed the arguments in the order of their keys, so
/// that the order in which a request writes them plays no part.
pub open spec fn verdict_on(tool: ToolView, arguments: Seq<(Seq<char>, JsonView)>) -> Verdict {
    verdict(tool.parameter_schema, JsonView::Object(arguments))
}

/// What the request `input` resolves to against the registry `tools`: the
/// name of the tool and its ordered arguments, or the first failure. The
/// stages come in this order: the request's shape, the lookup of the tool,
/// the validation of the arguments against the registered schema, the
/// marshaling.
pub open spec fn parsed_call(tools: Seq<ToolView>, input: JsonView) -> Result<
    (Seq<char>, Seq<Seq<char>>),
    Failure,
> {
    match request_of(input) {
        Err(failure) => Err(failure),
        Ok(request) => match index_of(tools, request.name) {
            None => Err(Failure::NotFound(request.name)),
            Some(i) => match checked(
                request.name,
                tools[i].parameter_schema,
                request.arguments,
                verdict_on(tools[i], request.arguments),
            ) {
                Err(failure) => Err(failure),
                Ok(ordered) => Ok((request.name, ordered)),
            },
        },
    }
}

/// A request resolves against the registered schema alone: two requests
/// that agree in their `type` and in the `name` and `arguments` under their
/// `function` resolve alike, whatever else they carry, a `parameters`
/// schema of their own included.
pub proof fn lemma_registered_schema_decides(tools: Seq<ToolView>, a: JsonView, b: JsonView)
    requires
        a.as_object() is Some,
        b.as_object() is Some,
        string_member(a.as_object()->0, "type"@) == string_member(b.as_object()->0, "type"@),
        object_member(a.as_object()->0, "function"@) is Some,
        object_member(b.as_object()->0, "function"@) is Some,
        string_member(object_member(a.as_object()->0, "function"@)->0, "name"@) == string_member(
            object_member(b.as_object()->0, "function"@)->0,
            "name"@,
        ),
        object_member(object_member(a.as_object()->0, "function"@)->0, "arguments"@)
            == object_member(object_member(b.as_object()->0, "function"@)->0, "arguments"@),
    ensures
        parsed_call(tools, a) == parsed_call(tools, b),
{
    lemma_request_reads_three_members(a, b);
}

/// A call comes to the same whatever order the request writes its arguments
/// in and whatever schema it carries.
pub proof fn lemma_call_ignores_order(
    tools: Seq<ToolView>,
    name: Seq<char>,
    a: Seq<(Seq<char>, JsonView)>,
    b: Seq<(Seq<char>, JsonView)>,
    carried_a: Option<JsonView>,
    carried_b: Option<JsonView>,
)
    requires
        distinct_keys(a),
        distinct_keys(b),
        same_members(a, b),
    ensures
        parsed_call(tools, call_request(name, JsonView::Object(a), carried_a)) == parsed_call(
            tools,
            call_request(name, JsonView::Object(b), carried_b),
        ),
{
    lemma_call_request_reads_back(name, a, carried_a);
    lemma_call_request_reads_back(name, b, carried_b);
    if let Some(i) = index_of(tools, name) {
        lemma_verdict_ignores_order(tools[i].parameter_schema, a, b);
        lemma_marshal_ignores_order(name, tools[i].parameter_schema, a, b, verdict_on(tools[i], a));
    }
}

/// The catalog lists exactly the registered tools, in registry order, each
/// under its own name, description and schema.
pub proof fn lemma_catalog_lists_registry(tools: Seq<ToolView>, i: int)
    requires
        0 <= i < tools.len(),
    ensures
        catalog(tools).as_array() is Some,
        catalog(tools).as_array()->0.len() == tools.len(),
        catalog(tools).as_array()->0[i].get("type"@) == Some(JsonView::String("function"@)),
        catalog(tools).as_array()->0[i].get("function"@) is Some,
        catalog(tools).as_array()->0[i].get("function"@)->0.get("name"@) == Some(
            JsonView::String(tools[i].name),
        ),
        catalog(tools).as_array()->0[i].get("function"@)->0.get("description"@) == Some(
            JsonView::String(tools[i].description),
        ),
        catalog(tools).as_array()->0[i].get("function"@)->0.get("parameters"@) == Some(
            tools[i].parameter_schema,
        ),
{
    reveal_strlit("type");
    reveal_strlit("function");
    reveal_strlit("name");
    reveal_strlit("description");
    reveal_strlit("parameters");
    let entry = catalog(tools).as_array()->0[i];
    assert(entry == entry_json(tools[i]));
    let members = entry->Object_0;
    assert(members.drop_last() =~= seq![("type"@, JsonView::String("function"@))]);
    assert("type"@.len() != "function"@.len());
    reveal_with_fuel(lookup, 4);
    let function = members[1].1->Object_0;
    assert("name"@.len() != "description"@.len());
    assert("name"@.len() != "parameters"@.len());
    assert("description"@.len() != "parameters"@.len());
    assert(function.drop_last() =~= seq![
        ("name"@, JsonView::String(tools[i].name)),
        ("description"@, JsonView::String(tools[i].description)),
    ]);
    assert(function.drop_last().drop_last() =~= seq![("name"@, JsonView::String(tools[i].name))]);
}

/// The mathematical value of the outcome of resolving a request.
pub open spec fn parsing(r: Result<(String, Vec<String>), ToolError>) -> Result<
    (Seq<char>, Seq<Seq<char>>),
    Failure,
> {
    match r {
        Ok(call) => Ok((call.0@, views(call.1@))),
        Err(e) => Err(e@),
    }
}

fn catalog_entry<F>(tool: &Tool<F>) -> (r: Json)
    ensures
        r@ == entry_json(tool@),
{
    let mut function: Vec<(String, Json)> = Vec::new();
    function.push(member("name", Json::string(tool.name.as_str())));
    function.push(member("description", Json::string(tool.description.as_str())));
    function.push(member("parameters", tool.parameter_schema.clone()));
    proof {
        assert(entries_view(function@) =~= seq![
            ("name"@, JsonView::String(tool@.name)),
            ("description"@, JsonView::String(tool@.description)),
            ("parameters"@, tool@.parameter_schema),
        ]);
    }
    let mut entry: Vec<(String, Json)> = Vec::new();
    entry.push(member("type", Json::string("function")));
    entry.push(member("function", Json::object(function)));
    proof {
        assert(entries_view(entry@) =~= seq![
            ("type"@, JsonView::String("function"@)),
            ("function"@, JsonView::Object(entries_view(function@))),
        ]);
    }
    Json::object(entry)
}

impl<F> Default for ToolHandler<F> {
    /// A handler over an empty registry.
    fn default() -> (r: Self)
        ensures
            r.registry() == Seq::<Tool<F>>::empty(),
    {
        ToolHandler { tools: Vec::new() }
    }
}

impl<F> ToolHandler<F> {
    /// The registered tools, in registry order.
    pub closed spec fn registry(&self) -> Seq<Tool<F>> {
        self.tools@
    }

    /// The views of the registered tools, in registry order.
    pub open spec fn view(&self) -> Seq<ToolView> {
        tools_view(self.registry())
    }

    /// The tool that `name` stands for: the first registered under it.
    pub open spec fn lookup(&self, name: Seq<char>) -> Option<Tool<F>> {
        match index_of(self@, name) {
            Some(i) => Some(self.registry()[i]),
            None => None,
        }
    }

    /// A handler over the registry `tools`.
    pub fn new(tools: Vec<Tool<F>>) -> (r: Self)
        ensures
            r.registry() == tools@,
    {
        ToolHandler { tools }
    }

    /// All registered tools, in registry order.
    pub fn tools(&self) -> (r: &Vec<Tool<F>>)
        ensures
            r@ == self.registry(),
    {
        &self.tools
    }

    /// The position of the tool registered under `name`.
    pub fn find_tool(&self, name: &str) -> (r: Option<usize>)
        ensures
            match r {
                Some(i) => index_of(self@, name@) == Some(i as int) && i < self.registry().len(),
                None => index_of(self@, name@) is None,
            },
    {
        let mut i: usize = 0;
        while i < self.tools.len()
            invariant
                i <= self.tools.len(),
                index_of(self@, name@) == first_named(self@, name@, i as int),
            decreases self.tools.len() - i,
        {
            if *self.tools[i].name.as_str() == *name {
                return Some(i);
            }
            i += 1;
        }
        None
    }

    /// Retrieves a reference to a tool by its name.
    ///
    /// Returns `None` if no tool with the given name is registered.
    pub fn get_tool(&self, name: &str) -> (r: Option<&Tool<F>>)
        ensures
            match r {
                Some(tool) => self.lookup(name@) == Some(*tool),
                None => self.lookup(name@) is None,
            },
    {
        match self.find_tool(name) {
            Some(i) => Some(&self.tools[i]),
            None => None,
        }
    }

    /// Produces the catalog of all available tools, for a caller that
    /// decides which one to invoke.
    pub fn all_tools_schema(&self) -> (r: Json)
        ensures
            r@ == catalog(self@),
    {
        let mut entries: Vec<Json> = Vec::new();
        let mut i: usize = 0;
        while i < self.tools.len()
            invariant
                i <= self.tools.len(),
                entries.len() == i,
                forall|k: int| 0 <= k < i ==> (#[trigger] entries@[k])@ == entry_json(self@[k]),
            decreases self.tools.len() - i,
        {
            entries.push(catalog_entry(&self.tools[i]));
            i += 1;
        }
        proof {
            assert(items_view(entries@) =~= catalog_entries(self@));
        }
        Json::array(entries)
    }

    /// Resolves the call request `input`: reads it, looks the tool up,
    /// validates the arguments against the tool's registered schema and puts
    /// them in positional order.
    pub fn parse_tool_call(&self, input: &Json) -> (r: Result<(String, Vec<String>), ToolError>)
        ensures
            parsing(r) == parsed_call(self@, input@),
    {
        let request = match read_request(input) {
            Ok(request) => request,
            Err(e) => {
                return Err(e);
            },
        };
        proof {
            lemma_first_named(self@, request.name@, 0);
        }
        let tool = match self.get_tool(request.name) {
            Some(tool) => tool,
            None => {
                return Err(ToolError::NotFound(String::from_str(request.name)));
            },
        };
        let check = validate_object(&tool.parameter_schema, request.arguments);
        match marshal_checked(request.name, &tool.parameter_schema, request.arguments, &check) {
            Ok(ordered) => Ok((String::from_str(request.name), ordered)),
            Err(e) => Err(e),
        }
    }

    /// Looks the tool `name` up and binds the positional arguments `args` to
    /// its parameters, without running it.
    pub fn bind_call(&self, name: &str, args: &[String]) -> (r: Result<
        (&Tool<F>, Vec<Arg>),
        ToolError,
    >)
        ensures
            match r {
                Ok(call) => self.lookup(name@) == Some(*call.0) && bound(
                    call.0@.params,
                    views(args@),
                ) == Ok::<Seq<ArgView>, Failure>(args_view(call.1@)),
                Err(e) => match self.lookup(name@) {
                    None => e@ == Failure::NotFound(name@),
                    Some(tool) => bound(tool@.params, views(args@)) == Err::<
                        Seq<ArgView>,
                        Failure,
                    >(e@),
                },
            },
    {
        let tool = match self.get_tool(name) {
            Some(tool) => tool,
            None => {
                return Err(ToolError::NotFound(String::from_str(name)));
            },
        };
        match bind(&tool.params, args) {
            Ok(typed) => Ok((tool, typed)),
            Err(e) => Err(e),
        }
    }
}

impl<F: Fn(&Vec<Arg>) -> Result<String, ToolError>> ToolHandler<F> {
    /// Every registered tool is total: its implementation accepts every
    /// list of typed arguments that fits its parameters.
    pub open spec fn total(&self) -> bool {
        forall|i: int| 0 <= i < self.registry().len() ==> (#[trigger] self.registry()[i]).total()
    }

    /// What a call of the tool `name` with the positional arguments `args`
    /// may return: `NotFound` for an unknown name; else what running the
    /// tool on `args` may return.
    pub open spec fn ran(
        &self,
        name: Seq<char>,
        args: Seq<Seq<char>>,
        r: Result<String, ToolError>,
    ) -> bool {
        match self.lookup(name) {
            None => outcome(r) == Err::<Seq<char>, Failure>(Failure::NotFound(name)),
            Some(tool) => tool.executed(args, r),
        }
    }

    /// What resolving and running the call request `input` may return: the
    /// failure of the first stage that fails, else what the call of the
    /// tool with the ordered arguments may return.
    pub open spec fn called(&self, input: JsonView, r: Result<String, ToolError>) -> bool {
        match parsed_call(self@, input) {
            Err(failure) => outcome(r) == Err::<Seq<char>, Failure>(failure),
            Ok(call) => self.ran(call.0, call.1, r),
        }
    }

    /// A call request reaches the implementation with every parameter bound
    /// to its own argument: where the tool's schema is the one derived from
    /// its parameters, the request resolves (its arguments are found valid),
    /// the arguments supply exactly the first `n` parameters, and the text
    /// of each reads as its parameter's type, what the call returns is what
    /// the implementation returns on the parses of those arguments, in the
    /// parameters' order, followed by what the omitted parameters receive.
    pub proof fn lemma_named_call_runs(
        &self,
        name: Seq<char>,
        arguments: Seq<(Seq<char>, JsonView)>,
        carried: Option<JsonView>,
        n: nat,
        r: Result<String, ToolError>,
    )
        requires
            self.lookup(name) is Some,
            self.lookup(name)->0@.parameter_schema == schema_of(self.lookup(name)->0@.params),
            parsed_call(self@, call_request(name, JsonView::Object(arguments), carried)) is Ok,
            supplies_first(self.lookup(name)->0@.params, arguments, n),
            forall|i: int|
                0 <= i < n ==> parse_as(
                    (#[trigger] self.lookup(name)->0@.params[i]).kind,
                    argument_text(lookup(arguments, self.lookup(name)->0@.params[i].name)->0),
                ) is Some,
            self.called(call_request(name, JsonView::Object(arguments), carried), r),
        ensures
            exists|typed: Vec<Arg>|
                call_ensures(self.lookup(name)->0.function, (&typed,), r) && typed@.len()
                    == self.lookup(name)->0@.params.len() && (forall|i: int|
                    0 <= i < n ==> Some((#[trigger] typed@[i])@) == parse_as(
                        self.lookup(name)->0@.params[i].kind,
                        argument_text(lookup(arguments, self.lookup(name)->0@.params[i].name)->0),
                    )) && (forall|i: int|
                    n <= i < typed@.len() ==> (#[trigger] typed@[i])@ == omitted_value(
                        self.lookup(name)->0@.params[i],
                    )),
    {
        let tool = self.lookup(name)->0;
        let params = tool@.params;
        lemma_first_named(self@, name, 0);
        lemma_call_request_reads_back(name, arguments, carried);
        lemma_named_call_binds(name, params, arguments, n);
        let texts = supplied_texts(params, arguments, n);
        let bound_args = bound(params, texts)->Ok_0;
        let typed = choose|typed: Vec<Arg>|
            args_view(typed@) == bound_args && call_ensures(tool.function, (&typed,), r);
        assert forall|i: int| 0 <= i < n implies Some((#[trigger] typed@[i])@) == parse_as(
            params[i].kind,
            argument_text(lookup(arguments, params[i].name)->0),
        ) by {
            assert(args_view(typed@)[i] == bound_args[i]);
        }
        assert forall|i: int| n <= i < typed@.len() implies (#[trigger] typed@[i])@
            == omitted_value(params[i]) by {
            assert(args_view(typed@)[i] == bound_args[i]);
        }
    }

    /// A call that supplies exactly the required parameters of a registered
    /// tool, which come first, each in a text that reads as its parameter's
    /// type, reaches the implementation: what the call returns is what the
    /// implementation returns on the supplied values followed by what the
    /// omitted optional parameters receive.
    pub proof fn lemma_required_only_runs(
        &self,
        name: Seq<char>,
        args: Seq<Seq<char>>,
        r: Result<String, ToolError>,
    )
        requires
            self.lookup(name) is Some,
            args.len() <= self.lookup(name)->0@.params.len(),
            forall|i: int|
                0 <= i < self.lookup(name)->0@.params.len() ==> ((
                #[trigger] self.lookup(name)->0@.params[i]).optional <==> args.len() <= i),
            forall|i: int|
                0 <= i < args.len() ==> parse_as(
                    self.lookup(name)->0@.params[i].kind,
                    #[trigger] args[i],
                ) is Some,
            self.ran(name, args, r),
        ensures
            exists|typed: Vec<Arg>|
                call_ensures(self.lookup(name)->0.function, (&typed,), r) && typed@.len()
                    == self.lookup(name)->0@.params.len() && (forall|i: int|
                    0 <= i < args.len() ==> Some((#[trigger] typed@[i])@) == parse_as(
                        self.lookup(name)->0@.params[i].kind,
                        args[i],
                    )) && (forall|i: int|
                    args.len() <= i < typed@.len() ==> (#[trigger] typed@[i])@ == omitted_value(
                        self.lookup(name)->0@.params[i],
                    )),
    {
        let tool = self.lookup(name)->0;
        let params = tool@.params;
        lemma_required_only(params, args);
        let bound_args = bound(params, args)->Ok_0;
        let typed = choose|typed: Vec<Arg>|
            args_view(typed@) == bound_args && call_ensures(tool.function, (&typed,), r);
        assert forall|i: int| 0 <= i < args.len() implies Some((#[trigger] typed@[i])@)
            == parse_as(params[i].kind, args[i]) by {
            assert(args_view(typed@)[i] == bound_args[i]);
        }
        assert forall|i: int| args.len() <= i < typed@.len() implies (#[trigger] typed@[i])@
            == omitted_value(params[i]) by {
            assert(args_view(typed@)[i] == bound_args[i]);
        }
    }

    /// A name that no registered tool bears is reported as `NotFound` with
    /// that name, by a call with positional arguments and by a call request
    /// alike.
    pub proof fn lemma_unknown_name(
        &self,
        name: Seq<char>,
        args: Seq<Seq<char>>,
        r: Result<String, ToolError>,
        input: JsonView,
    )
        requires
            forall|i: int| 0 <= i < self@.len() ==> (#[trigger] self@[i]).name != name,
        ensures
            self.ran(name, args, r) ==> outcome(r) == Err::<Seq<char>, Failure>(
                Failure::NotFound(name),
            ),
            request_of(input) is Ok && request_of(input)->Ok_0.name == name ==> parsed_call(
                self@,
                input,
            ) == Err::<(Seq<char>, Seq<Seq<char>>), Failure>(Failure::NotFound(name)),
    {
        lemma_first_named(self@, name, 0);
    }

    /// Calls a tool by name with positional string arguments.
    pub fn call_with_args(&self, name: &str, args: &[String]) -> (r: Result<String, ToolError>)
        requires
            self.total(),
        ensures
            self.ran(name@, views(args@), r),
    {
        proof {
            lemma_first_named(self@, name@, 0);
        }
        match self.get_tool(name) {
            Some(tool) => tool.execute(args),
            None => Err(ToolError::NotFound(String::from_str(name))),
        }
    }

    /// Resolves the call request `input` and runs the tool it names.
    pub fn call_tool(&self, input: &Json) -> (r: Result<String, ToolError>)
        requires
            self.total(),
        ensures
            self.called(input@, r),
    {
        let (name, args) = match self.parse_tool_call(input) {
            Ok(call) => call,
            Err(e) => {
                return Err(e);
            },
        };
        self.call_with_args(name.as_str(), args.as_slice())
    }
}

} // verus!
