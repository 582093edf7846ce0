use tool_calling::chat::{
    answer, call_id, open, process_mock_tool_call, read_named_call, reply, step, Action,
    ChatMessage, Conversation, Event, ToolCall, ToolFunction,
};
use tool_calling::{
    create_mock_tool_call, Arg, Json, Param, ParamKind, Tool, ToolError, ToolHandler, ToolResult,
};

type Body = fn(&Vec<Arg>) -> Result<String, ToolError>;

fn add(args: &Vec<Arg>) -> Result<String, ToolError> {
    match (&args[0], &args[1]) {
        (Arg::Integer(a), Arg::Integer(b)) => Ok((a + b).to_string()),
        other => Err(ToolError::Execution(format!("not two integers: {:?}", other))),
    }
}

fn handler() -> ToolHandler<Body> {
    let int = |name: &str| Param {
        name: name.to_string(),
        kind: ParamKind::Integer,
        optional: false,
        default: None,
    };
    ToolHandler::new(vec![Tool::new("add", "", vec![int("a"), int("b")], add as Body)])
}

fn object(members: Vec<(&str, Json)>) -> Json {
    Json::Object(members.into_iter().map(|(key, value)| (key.to_string(), value)).collect())
}

fn one_and_two() -> Json {
    object(vec![("a", Json::integer(1)), ("b", Json::integer(2))])
}

#[test]
fn errors_describe_themselves() {
    assert_eq!(ToolError::NotFound("x".into()).describe(), "tool not found: x");
    assert_eq!(ToolError::BadArgs("y".into()).describe(), "invalid arguments: y");
    assert_eq!(ToolError::Execution("z".into()).describe(), "execution failed: z");
    assert_eq!(ToolError::NotFound("x".into()).detail(), "x");
    assert_eq!(ToolError::BadArgs("".into()).detail(), "");
    assert_eq!(ToolError::Execution("z z".into()).detail(), "z z");
}

#[test]
fn a_reply_is_the_output_or_the_described_error() {
    assert_eq!(reply(&Ok("3".into())), "3");
    assert_eq!(reply(&Err(ToolError::NotFound("sub".into()))), "Error: tool not found: sub");
    assert_eq!(reply(&Err(ToolError::BadArgs("no".into()))), "Error: invalid arguments: no");
    assert_eq!(reply(&Err(ToolError::Execution("boom".into()))), "Error: execution failed: boom");
}

#[test]
fn a_mock_tool_call_is_a_list_of_one_call() {
    assert_eq!(
        create_mock_tool_call("add", one_and_two()).to_text(),
        r#"[{"id":"mock-call-1","function":{"name":"add","arguments":{"a":1,"b":2}}}]"#
    );
}

#[test]
fn a_formatted_call_carries_the_registered_schema() {
    let handler = handler();
    assert_eq!(
        handler.format_tool_call("add", &one_and_two()).to_text(),
        [
            r#"{"type":"function","function":{"name":"add","arguments":{"a":1,"b":2},"#,
            r#""parameters":{"type":"object","properties":{"a":{"type":"integer"},"#,
            r#""b":{"type":"integer"}},"required":["a","b"]}}}"#
        ]
        .concat()
    );
    assert_eq!(
        handler.format_tool_call("sub", &Json::Null).to_text(),
        r#"{"type":"function","function":{"name":"sub","arguments":null}}"#
    );
}

#[test]
fn a_tool_call_is_answered_under_its_identifier() {
    let handler = handler();
    assert_eq!(
        handler.run_tool_call(Some("call-7"), "add", &one_and_two()),
        ToolResult { tool_call_id: "call-7".into(), result: "3".into() }
    );
    assert_eq!(
        handler.run_tool_call(None, "add", &one_and_two()),
        ToolResult { tool_call_id: "call-1".into(), result: "3".into() }
    );
    assert_eq!(
        handler.run_tool_call(None, "sub", &one_and_two()),
        ToolResult { tool_call_id: "call-1".into(), result: "Error: tool not found: sub".into() }
    );
    assert_eq!(
        handler.run_tool_call(Some(""), "add", &Json::Null),
        ToolResult {
            tool_call_id: "".into(),
            result: "Error: invalid arguments: Missing or invalid 'arguments' field".into()
        }
    );
}

#[test]
fn a_call_without_identifier_is_call_1() {
    assert_eq!(call_id(None), "call-1");
    assert_eq!(call_id(Some("abc")), "abc");
    assert_eq!(call_id(Some("")), "");
}

#[test]
fn an_answer_pairs_identifier_and_reply() {
    assert_eq!(
        answer(Some("id-9"), &Ok("out".into())),
        ToolResult { tool_call_id: "id-9".into(), result: "out".into() }
    );
    assert_eq!(
        answer(None, &Err(ToolError::BadArgs("bad".into()))),
        ToolResult { tool_call_id: "call-1".into(), result: "Error: invalid arguments: bad".into() }
    );
}

#[test]
fn a_call_is_named_by_its_function() {
    let call = object(vec![(
        "function",
        object(vec![("name", Json::string("add")), ("arguments", Json::Null)]),
    )]);
    assert_eq!(read_named_call(&call).map(|(name, args)| (name, args.to_text())), Some(("add", "null".to_string())));
    let unnamed = [
        Json::Null,
        object(vec![]),
        object(vec![("function", Json::string("add"))]),
        object(vec![("function", object(vec![("name", Json::string("add"))]))]),
        object(vec![("function", object(vec![("arguments", Json::Null)]))]),
        object(vec![("function", object(vec![("name", Json::integer(1)), ("arguments", Json::Null)]))]),
    ];
    for call in unnamed {
        assert!(read_named_call(&call).is_none(), "{}", call.to_text());
    }
}

#[test]
fn mock_tool_calls_are_run_in_order() {
    let handler = handler();
    let done = process_mock_tool_call(&create_mock_tool_call("add", one_and_two()), &handler);
    assert_eq!(done.len(), 1);
    let first = done[0].as_ref().unwrap();
    assert_eq!(first.name, "add");
    assert_eq!(first.result, Ok("3".to_string()));

    let calls = Json::Array(vec![
        object(vec![(
            "function",
            object(vec![("name", Json::string("sub")), ("arguments", one_and_two())]),
        )]),
        Json::string("no call"),
        object(vec![(
            "function",
            object(vec![("name", Json::string("add")), ("arguments", one_and_two())]),
        )]),
    ]);
    let done = process_mock_tool_call(&calls, &handler);
    assert_eq!(done.len(), 3);
    assert_eq!(done[0].as_ref().map(|d| d.result.clone()), Some(Err(ToolError::NotFound("sub".into()))));
    assert!(done[1].is_none());
    assert_eq!(done[2].as_ref().map(|d| d.result.clone()), Some(Ok("3".to_string())));
}

#[test]
fn what_is_no_list_holds_no_mock_tool_calls() {
    let handler = handler();
    assert!(process_mock_tool_call(&Json::Null, &handler).is_empty());
    assert!(process_mock_tool_call(&one_and_two(), &handler).is_empty());
    assert!(process_mock_tool_call(&Json::Array(vec![]), &handler).is_empty());
}

fn message(role: &str, content: &str, calls: Option<Vec<ToolCall>>) -> ChatMessage {
    ChatMessage { role: role.into(), content: content.into(), tool_calls: calls }
}

fn call(name: &str) -> ToolCall {
    ToolCall { id: None, function: ToolFunction { name: name.into(), arguments: one_and_two() } }
}

fn roles(state: &Conversation) -> Vec<(String, String)> {
    state.messages().iter().map(|m| (m.role.clone(), m.content.clone())).collect()
}

fn pair(role: &str, content: &str) -> (String, String) {
    (role.to_string(), content.to_string())
}

const SYSTEM: &str = "You are a helpful assistant that uses tools when appropriate.";

#[test]
fn a_conversation_opens_with_the_system_and_the_user() {
    let (state, action) = open("What is 1 + 2?");
    assert!(matches!(action, Action::Ask));
    assert!(matches!(state, Conversation::Asked(_)));
    assert_eq!(roles(&state), vec![pair("system", SYSTEM), pair("user", "What is 1 + 2?")]);
    assert!(state.messages().iter().all(|m| m.tool_calls.is_none()));
    assert!(state.pending_calls().is_none());
}

#[test]
fn a_reply_without_tool_calls_ends_the_conversation() {
    for calls in [None, Some(vec![])] {
        let (state, _) = open("hi");
        let (state, action) = step(state, Event::Reply(message("assistant", "hello", calls)));
        assert!(matches!(action, Action::Stop));
        assert!(matches!(state, Conversation::Done(_)));
        assert_eq!(
            roles(&state),
            vec![pair("system", SYSTEM), pair("user", "hi"), pair("assistant", "hello")]
        );
    }
}

#[test]
fn a_reply_with_tool_calls_is_answered_with_their_results() {
    let (state, _) = open("add");
    let reply = message("assistant", "", Some(vec![call("add"), call("sub")]));
    let (state, action) = step(state, Event::Reply(reply));
    assert!(matches!(action, Action::Call));
    assert_eq!(roles(&state), vec![pair("system", SYSTEM), pair("user", "add")]);
    let pending: Vec<&str> =
        state.pending_calls().unwrap().iter().map(|c| c.function.name.as_str()).collect();
    assert_eq!(pending, vec!["add", "sub"]);

    let results = vec![
        ToolResult { tool_call_id: "call-1".into(), result: "3".into() },
        ToolResult { tool_call_id: "call-1".into(), result: "Error: tool not found: sub".into() },
    ];
    let (state, action) = step(state, Event::Results(results.clone()));
    assert!(matches!(&action, Action::Report(sent) if *sent == results));
    assert!(matches!(state, Conversation::Reported(_)));
    assert_eq!(
        roles(&state),
        vec![pair("system", SYSTEM), pair("user", "add"), pair("assistant", ""), pair("tool", "")]
    );
    assert_eq!(state.messages()[2].tool_calls.as_ref().map(|c| c.len()), Some(2));
    assert!(state.messages()[3].tool_calls.is_none());

    let (state, action) = step(state, Event::Reply(message("assistant", "It is 3.", None)));
    assert!(matches!(action, Action::Stop));
    assert!(matches!(state, Conversation::Done(_)));
    assert_eq!(roles(&state).len(), 5);
    assert_eq!(roles(&state)[4], pair("assistant", "It is 3."));
}

#[test]
fn the_last_reply_ends_the_conversation_even_with_tool_calls() {
    let (state, _) = open("add");
    let (state, _) = step(state, Event::Reply(message("assistant", "", Some(vec![call("add")]))));
    let (state, _) = step(state, Event::Results(vec![]));
    let again = message("assistant", "once more", Some(vec![call("add")]));
    let (state, action) = step(state, Event::Reply(again));
    assert!(matches!(action, Action::Stop));
    assert!(matches!(state, Conversation::Done(_)));
    assert_eq!(roles(&state).len(), 5);
}

#[test]
fn an_event_that_is_not_awaited_changes_nothing() {
    let (state, _) = open("hi");
    let (state, action) = step(state, Event::Results(vec![]));
    assert!(matches!(action, Action::Stop));
    assert!(matches!(state, Conversation::Asked(_)));
    assert_eq!(roles(&state).len(), 2);

    let (state, _) = step(state, Event::Reply(message("assistant", "", Some(vec![call("add")]))));
    let (state, action) = step(state, Event::Reply(message("assistant", "x", None)));
    assert!(matches!(action, Action::Stop));
    assert!(matches!(state, Conversation::Calling(_, _)));

    let (state, _) = step(state, Event::Results(vec![]));
    let (state, _) = step(state, Event::Reply(message("assistant", "bye", None)));
    let (state, action) = step(state, Event::Reply(message("assistant", "again", None)));
    assert!(matches!(action, Action::Stop));
    assert!(matches!(state, Conversation::Done(_)));
    assert_eq!(roles(&state).len(), 5);
    let (state, action) = step(state, Event::Results(vec![]));
    assert!(matches!(action, Action::Stop));
    assert_eq!(roles(&state).len(), 5);
}
