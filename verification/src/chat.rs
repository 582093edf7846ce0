//! The decisions of a conversation with a model that asks for tool calls:
//! how the conversation goes on from each reply ([`step`]), how a call the
//! model made becomes a call request, and how its outcome becomes the text
//! that is sent back. Talking to the model, and waiting for the tools, is
//! the caller's part: the caller does what the [`Action`] says and hands
//! back what came of it as an [`Event`].
use vstd::prelude::*;
use crate::error::{outcome, Failure, ToolError};
use crate::executor::Arg;
use crate::handler::ToolHandler;
use crate::json::{entries_view, items_view, lookup, member, Json, JsonView};
use crate::request::call_request;

verus! {

/// The result of one tool call, as it is sent back to the model.
#[derive(Debug, PartialEq, Eq)]
pub struct ToolResult {
    pub tool_call_id: String,
    pub result: String,
}

impl Clone for ToolResult {
    fn clone(&self) -> (r: ToolResult)
        ensures
            r.tool_call_id@ == self.tool_call_id@,
            r.result@ == self.result@,
    {
        ToolResult { tool_call_id: self.tool_call_id.clone(), result: self.result.clone() }
    }
}

/// The text sent back for an outcome: the tool's output, or `Error: ` and
/// the description of the failure.
pub open spec fn reply_text(result: Result<Seq<char>, Failure>) -> Seq<char> {
    match result {
        Ok(output) => output,
        Err(failure) => "Error: "@ + failure.description(),
    }
}

/// The identifier under which a call's result is sent back: the call's own,
/// or `call-1` where it has none.
pub open spec fn reply_id(id: Option<Seq<char>>) -> Seq<char> {
    match id {
        Some(id) => id,
        None => "call-1"@,
    }
}

/// The mock tool call for `name` with `arguments`: a list of one call with
/// the identifier `mock-call-1`.
pub open spec fn mock_call(name: Seq<char>, arguments: JsonView) -> JsonView {
    JsonView::Array(
        seq![
            JsonView::Object(
                seq![
                    ("id"@, JsonView::String("mock-call-1"@)),
                    (
                        "function"@,
                        JsonView::Object(
                            seq![("name"@, JsonView::String(name)), ("arguments"@, arguments)],
                        ),
                    ),
                ],
            ),
        ],
    )
}

/// The name and the arguments of one call of a list of tool calls, where it
/// has a `function` with a string `name` and with `arguments`.
pub open spec fn named_call(call: JsonView) -> Option<(Seq<char>, JsonView)> {
    match call.get("function"@) {
        None => None,
        Some(function) => match function.get("name"@) {
            None => None,
            Some(name) => match (name.as_str(), function.get("arguments"@)) {
                (Some(name), Some(arguments)) => Some((name, arguments)),
                _ => None,
            },
        },
    }
}

/// A mock tool call is a list of one call, which names its tool and carries
/// its arguments.
pub proof fn lemma_mock_call_is_named(name: Seq<char>, arguments: JsonView)
    ensures
        mock_call(name, arguments).as_array() is Some,
        mock_call(name, arguments).as_array()->0.len() == 1,
        named_call(mock_call(name, arguments).as_array()->0[0]) == Some((name, arguments)),
{
    reveal_strlit("id");
    reveal_strlit("function");
    reveal_strlit("name");
    reveal_strlit("arguments");
    assert("id"@.len() != "function"@.len());
    assert("name"@.len() != "arguments"@.len());
    reveal_with_fuel(lookup, 3);
    let call = mock_call(name, arguments).as_array()->0[0];
    let members = call->Object_0;
    assert(members.drop_last() =~= seq![("id"@, JsonView::String("mock-call-1"@))]);
    let function = members[1].1->Object_0;
    assert(function.drop_last() =~= seq![("name"@, JsonView::String(name))]);
}

/// The text sent back for the outcome `result`.
pub fn reply(result: &Result<String, ToolError>) -> (r: String)
    ensures
        r@ == reply_text(outcome(*result)),
{
    match result {
        Ok(output) => output.clone(),
        Err(e) => {
            let mut text = String::from_str("Error: ");
            text.append(e.describe().as_str());
            text
        },
    }
}

/// The mathematical value of an optional identifier.
pub open spec fn id_view(id: Option<&str>) -> Option<Seq<char>> {
    match id {
        Some(id) => Some(id@),
        None => None,
    }
}

/// The identifier under which the result of a call is sent back: the
/// call's own `id`, or `call-1` where it has none.
pub fn call_id(id: Option<&str>) -> (r: String)
    ensures
        r@ == reply_id(id_view(id)),
{
    match id {
        Some(id) => String::from_str(id),
        None => String::from_str("call-1"),
    }
}

/// The result to send back for a call that ended as `result`, under the
/// call's identifier `id`, or under `call-1` where it has none.
pub fn answer(id: Option<&str>, result: &Result<String, ToolError>) -> (r: ToolResult)
    ensures
        r.tool_call_id@ == reply_id(id_view(id)),
        r.result@ == reply_text(outcome(*result)),
{
    ToolResult { tool_call_id: call_id(id), result: reply(result) }
}

/// Creates a mock tool call, for trying a handler out without a model.
pub fn create_mock_tool_call(function_name: &str, arguments: Json) -> (r: Json)
    ensures
        r@ == mock_call(function_name@, arguments@),
{
    let mut function: Vec<(String, Json)> = Vec::new();
    function.push(member("name", Json::string(function_name)));
    function.push(member("arguments", arguments));
    proof {
        assert(entries_view(function@) =~= seq![
            ("name"@, JsonView::String(function_name@)),
            ("arguments"@, arguments@),
        ]);
    }
    let mut call: Vec<(String, Json)> = Vec::new();
    call.push(member("id", Json::string("mock-call-1")));
    call.push(member("function", Json::object(function)));
    proof {
        assert(entries_view(call@) =~= seq![
            ("id"@, JsonView::String("mock-call-1"@)),
            ("function"@, JsonView::Object(entries_view(function@))),
        ]);
    }
    let mut calls: Vec<Json> = Vec::new();
    calls.push(Json::object(call));
    proof {
        assert(items_view(calls@) =~= seq![JsonView::Object(entries_view(call@))]);
    }
    Json::array(calls)
}

/// Reads the name and the arguments of one call of a list of tool calls.
pub fn read_named_call(call: &Json) -> (r: Option<(&str, &Json)>)
    ensures
        match r {
            Some(found) => named_call(call@) == Some((found.0@, found.1@)),
            None => named_call(call@) is None,
        },
{
    let function = match call.get("function") {
        Some(function) => function,
        None => {
            return None;
        },
    };
    let name = match function.get("name") {
        Some(name) => name,
        None => {
            return None;
        },
    };
    match (name.as_str(), function.get("arguments")) {
        (Some(name), Some(arguments)) => Some((name, arguments)),
        _ => None,
    }
}

impl<F> ToolHandler<F> {
    /// The schema that a request for the tool `name` carries along: the
    /// registered one, where the tool is registered.
    pub open spec fn carried_schema(&self, name: Seq<char>) -> Option<JsonView> {
        match self.lookup(name) {
            Some(tool) => Some(tool@.parameter_schema),
            None => None,
        }
    }

    /// The call request for a call the model made: the tool `name` with
    /// `arguments`, and with the tool's registered schema where the tool is
    /// registered.
    pub fn format_tool_call(&self, name: &str, arguments: &Json) -> (r: Json)
        ensures
            r@ == call_request(name@, arguments@, self.carried_schema(name@)),
    {
        let mut function: Vec<(String, Json)> = Vec::new();
        function.push(member("name", Json::string(name)));
        function.push(member("arguments", arguments.clone()));
        match self.get_tool(name) {
            Some(tool) => {
                function.push(member("parameters", tool.parameter_schema.clone()));
                proof {
                    assert(entries_view(function@) =~= seq![
                        ("name"@, JsonView::String(name@)),
                        ("arguments"@, arguments@),
                        ("parameters"@, tool@.parameter_schema),
                    ]);
                }
            },
            None => {
                proof {
                    assert(entries_view(function@) =~= seq![
                        ("name"@, JsonView::String(name@)),
                        ("arguments"@, arguments@),
                    ]);
                }
            },
        }
        let mut request: Vec<(String, Json)> = Vec::new();
        request.push(member("type", Json::string("function")));
        request.push(member("function", Json::object(function)));
        proof {
            assert(entries_view(request@) =~= seq![
                ("type"@, JsonView::String("function"@)),
                ("function"@, JsonView::Object(entries_view(function@))),
            ]);
        }
        Json::object(request)
    }
}

/// What came of one call of a list of mock tool calls.
#[derive(Debug)]
pub struct MockOutcome {
    pub name: String,
    pub result: Result<String, ToolError>,
}

impl<F: Fn(&Vec<Arg>) -> Result<String, ToolError>> ToolHandler<F> {
    /// `r` may come of the call the model made of the tool `name` with
    /// `arguments`: it is what the call request for it resolves and runs
    /// to.
    pub open spec fn answers(&self, name: Seq<char>, arguments: JsonView, r: Result<String, ToolError>)
        -> bool {
        self.called(call_request(name, arguments, self.carried_schema(name)), r)
    }

    /// Runs one call the model made and gives the result to send back,
    /// under the call's identifier.
    pub fn run_tool_call(&self, id: Option<&str>, name: &str, arguments: &Json) -> (r: ToolResult)
        requires
            self.total(),
        ensures
            r.tool_call_id@ == reply_id(id_view(id)),
            exists|result: Result<String, ToolError>|
                self.answers(name@, arguments@, result) && r.result@ == reply_text(
                    outcome(result),
                ),
    {
        let request = self.format_tool_call(name, arguments);
        let result = self.call_tool(&request);
        proof {
            assert(self.answers(name@, arguments@, result));
        }
        answer(id, &result)
    }

    /// `done` is what came of the call `call` of a list of tool calls:
    /// nothing where it names no tool; else an outcome under the tool's name
    /// that may come of the call.
    pub open spec fn accounts_for(&self, call: JsonView, done: Option<MockOutcome>) -> bool {
        match (named_call(call), done) {
            (None, None) => true,
            (Some(named), Some(one)) => one.name@ == named.0 && self.answers(
                named.0,
                named.1,
                one.result,
            ),
            _ => false,
        }
    }
}

/// Runs each call of the list of mock tool calls `tool_call` through
/// `tool_handler`, in order. A call without a `function` that has a string
/// `name` and `arguments` is passed over; a value that is no list holds no
/// calls.
pub fn process_mock_tool_call<F: Fn(&Vec<Arg>) -> Result<String, ToolError>>(
    tool_call: &Json,
    tool_handler: &ToolHandler<F>,
) -> (r: Vec<Option<MockOutcome>>)
    requires
        tool_handler.total(),
    ensures
        match tool_call@.as_array() {
            None => r@.len() == 0,
            Some(calls) => r@.len() == calls.len() && forall|i: int|
                0 <= i < calls.len() ==> tool_handler.accounts_for(calls[i], #[trigger] r@[i]),
        },
{
    let mut done: Vec<Option<MockOutcome>> = Vec::new();
    let calls = match tool_call.as_array() {
        Some(calls) => calls,
        None => {
            return done;
        },
    };
    let mut i: usize = 0;
    while i < calls.len()
        invariant
            tool_handler.total(),
            i <= calls.len(),
            done@.len() == i,
            forall|k: int|
                0 <= k < i ==> tool_handler.accounts_for(items_view(calls@)[k], #[trigger] done@[k]),
        decreases calls.len() - i,
    {
        let ghost call = items_view(calls@)[i as int];
        proof {
            assert(call == calls@[i as int]@);
        }
        let next = match read_named_call(&calls[i]) {
            Some((name, arguments)) => {
                let request = tool_handler.format_tool_call(name, arguments);
                let result = tool_handler.call_tool(&request);
                proof {
                    assert(tool_handler.answers(name@, arguments@, result));
                }
                Some(MockOutcome { name: String::from_str(name), result })
            },
            None => None,
        };
        done.push(next);
        i += 1;
    }
    done
}

/// The function that a tool call names, with its arguments.
#[derive(Debug)]
pub struct ToolFunction {
    pub name: String,
    pub arguments: Json,
}

/// A tool call that the model asks for.
#[derive(Debug)]
pub struct ToolCall {
    pub id: Option<String>,
    pub function: ToolFunction,
}

/// One message of a conversation.
#[derive(Debug)]
pub struct ChatMessage {
    pub role: String,
    pub content: String,
    pub tool_calls: Option<Vec<ToolCall>>,
}

/// Where a conversation stands, with its messages so far.
#[derive(Debug)]
pub enum Conversation {
    /// The messages were sent; the model's reply is awaited.
    Asked(Vec<ChatMessage>),
    /// The model replied with tool calls; their results are awaited. The
    /// reply is not yet among the messages.
    Calling(Vec<ChatMessage>, ChatMessage),
    /// The results were sent with the messages; the model's last reply is
    /// awaited.
    Reported(Vec<ChatMessage>),
    /// The conversation is over.
    Done(Vec<ChatMessage>),
}

/// What came of the last action.
#[derive(Debug)]
pub enum Event {
    /// The model replied.
    Reply(ChatMessage),
    /// The tool calls of the model's reply were run.
    Results(Vec<ToolResult>),
}

/// What the caller is to do next.
#[derive(Debug)]
pub enum Action {
    /// Send the messages to the model.
    Ask,
    /// Run the tool calls of the model's reply.
    Call,
    /// Send the messages to the model, with these results.
    Report(Vec<ToolResult>),
    /// Stop: the messages are the whole conversation.
    Stop,
}

/// The instruction that opens every conversation.
pub open spec fn system_prompt() -> Seq<char> {
    "You are a helpful assistant that uses tools when appropriate."@
}

/// Whether `message` is a message of the role `role` with the content
/// `content` and without tool calls.
pub open spec fn is_plain_message(message: ChatMessage, role: Seq<char>, content: Seq<char>)
    -> bool {
    message.role@ == role && message.content@ == content && message.tool_calls is None
}

/// Whether `messages` open a conversation on `prompt`: the system's
/// instruction, then the user's prompt.
pub open spec fn opens(messages: Seq<ChatMessage>, prompt: Seq<char>) -> bool {
    &&& messages.len() == 2
    &&& is_plain_message(messages[0], "system"@, system_prompt())
    &&& is_plain_message(messages[1], "user"@, prompt)
}

/// Whether the reply `reply` asks for tool calls: it holds a list of them
/// that is not empty.
pub open spec fn asks_for_tools(reply: ChatMessage) -> bool {
    reply.tool_calls matches Some(calls) && calls@.len() > 0
}

/// Whether `next` and `action` are what follows on `event` in the state
/// `state`:
/// - a reply to the first request that asks for tools is kept aside and the
///   tools are to be called; one that asks for none ends the conversation
///   as its last message;
/// - the results of the tools put the kept reply and an empty message of
///   the role `tool` behind the messages, and are to be reported;
/// - the reply to the report ends the conversation as its last message;
/// - an event that the state does not await changes nothing and stops.
pub open spec fn stepped(state: Conversation, event: Event, next: Conversation, action: Action)
    -> bool {
    match (state, event) {
        (Conversation::Asked(messages), Event::Reply(reply)) => if asks_for_tools(reply) {
            next == Conversation::Calling(messages, reply) && action is Call
        } else {
            next matches Conversation::Done(all) && all@ == messages@.push(reply) && action is Stop
        },
        (Conversation::Calling(messages, reply), Event::Results(results)) => {
            &&& next matches Conversation::Reported(all)
            &&& all@.len() == messages@.len() + 2
            &&& all@.take(messages@.len() as int) == messages@
            &&& all@[messages@.len() as int] == reply
            &&& is_plain_message(all@[messages@.len() as int + 1], "tool"@, Seq::empty())
            &&& action == Action::Report(results)
        },
        (Conversation::Reported(messages), Event::Reply(reply)) => {
            next matches Conversation::Done(all) && all@ == messages@.push(reply) && action is Stop
        },
        _ => next == state && action is Stop,
    }
}

fn plain_message(role: &str, content: &str) -> (r: ChatMessage)
    ensures
        is_plain_message(r, role@, content@),
{
    ChatMessage { role: String::from_str(role), content: String::from_str(content), tool_calls: None }
}

fn has_tool_calls(reply: &ChatMessage) -> (r: bool)
    ensures
        r == asks_for_tools(*reply),
{
    match &reply.tool_calls {
        Some(calls) => calls.len() > 0,
        None => false,
    }
}

/// Opens a conversation on `prompt`: the first messages, to be sent.
pub fn open(prompt: &str) -> (r: (Conversation, Action))
    ensures
        r.0 matches Conversation::Asked(messages) && opens(messages@, prompt@),
        r.1 is Ask,
{
    let mut messages: Vec<ChatMessage> = Vec::new();
    messages.push(
        plain_message("system", "You are a helpful assistant that uses tools when appropriate."),
    );
    messages.push(plain_message("user", prompt));
    (Conversation::Asked(messages), Action::Ask)
}

/// Takes the conversation one step on: from the state `state` and what came
/// of the last action, to the next state and the next action.
pub fn step(state: Conversation, event: Event) -> (r: (Conversation, Action))
    ensures
        stepped(state, event, r.0, r.1),
{
    match (state, event) {
        (Conversation::Asked(messages), Event::Reply(reply)) => {
            if has_tool_calls(&reply) {
                (Conversation::Calling(messages, reply), Action::Call)
            } else {
                let mut all = messages;
                all.push(reply);
                (Conversation::Done(all), Action::Stop)
            }
        },
        (Conversation::Calling(messages, reply), Event::Results(results)) => {
            let ghost before = messages@;
            let mut all = messages;
            all.push(reply);
            all.push(plain_message("tool", ""));
            proof {
                reveal_strlit("");
                assert(""@ =~= Seq::<char>::empty());
                assert(all@.take(before.len() as int) =~= before);
            }
            (Conversation::Reported(all), Action::Report(results))
        },
        (Conversation::Reported(messages), Event::Reply(reply)) => {
            let mut all = messages;
            all.push(reply);
            (Conversation::Done(all), Action::Stop)
        },
        (state, _) => (state, Action::Stop),
    }
}

impl Conversation {
    /// The messages of the conversation so far.
    pub open spec fn so_far(self) -> Seq<ChatMessage> {
        match self {
            Conversation::Asked(messages) => messages@,
            Conversation::Calling(messages, _) => messages@,
            Conversation::Reported(messages) => messages@,
            Conversation::Done(messages) => messages@,
        }
    }

    /// The messages of the conversation so far: what is sent to the model,
    /// and in the end the whole conversation.
    pub fn messages(&self) -> (r: &Vec<ChatMessage>)
        ensures
            r@ == self.so_far(),
    {
        match self {
            Conversation::Asked(messages) => messages,
            Conversation::Calling(messages, _) => messages,
            Conversation::Reported(messages) => messages,
            Conversation::Done(messages) => messages,
        }
    }

    /// The tool calls that are to be run: those of the reply that is kept
    /// aside, where the state is `Calling`.
    pub fn pending_calls(&self) -> (r: Option<&Vec<ToolCall>>)
        ensures
            match r {
                Some(calls) => *self matches Conversation::Calling(_, reply) && reply.tool_calls
                    == Some(*calls),
                None => !(*self matches Conversation::Calling(_, reply) && reply.tool_calls
                    is Some),
            },
    {
        match self {
            Conversation::Calling(_, reply) => match &reply.tool_calls {
                Some(calls) => Some(calls),
                None => None,
            },
            _ => None,
        }
    }
}

} // verus!
