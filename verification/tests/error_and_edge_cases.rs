use tool_calling::executor::{settle, Completion};
use tool_calling::{Arg, Json, Param, ParamKind, Tool, ToolError, ToolHandler};

type Body = fn(&Vec<Arg>) -> Result<String, ToolError>;

fn required(name: &str, kind: ParamKind) -> Param {
    Param { name: name.to_string(), kind, optional: false, default: None }
}

fn integer(arg: &Arg) -> i128 {
    match arg {
        Arg::Integer(n) => *n,
        other => panic!("expected an integer, got {:?}", other),
    }
}

// An implementation that breaks off: its run ends as a crash.
fn boom(_args: &Vec<Arg>) -> Result<String, ToolError> {
    settle(Completion::Crashed)
}

fn add(args: &Vec<Arg>) -> Result<String, ToolError> {
    Ok((integer(&args[0]) + integer(&args[1])).to_string())
}

fn handler() -> ToolHandler<Body> {
    ToolHandler::new(vec![
        Tool::new("boom", "", vec![], boom as Body),
        Tool::new(
            "add",
            "",
            vec![required("a", ParamKind::Integer), required("b", ParamKind::Integer)],
            add as Body,
        ),
    ])
}

fn object(members: Vec<(&str, Json)>) -> Json {
    Json::Object(members.into_iter().map(|(key, value)| (key.to_string(), value)).collect())
}

#[test]
fn panic_in_tool() {
    let handler = handler();
    let err = handler.call_with_args("boom", &[]).unwrap_err();
    assert!(matches!(err, ToolError::Execution(msg) if msg == "panic in tool"));
}

#[test]
fn ignore_schema_injection() {
    let handler = handler();
    let input = object(vec![
        ("type", Json::string("function")),
        (
            "function",
            object(vec![
                ("name", Json::string("add")),
                ("arguments", object(vec![("a", Json::string("1")), ("b", Json::string("2"))])),
                // Attempt to inject a different schema
                (
                    "parameters",
                    object(vec![
                        ("properties", object(vec![("a", object(vec![("type", Json::string("string"))]))])),
                        ("required", Json::Array(vec![])),
                    ]),
                ),
            ]),
        ),
    ]);
    let res = handler.call_tool(&input);
    // Expect BadArgs due to schema validation failure (input is string, schema expects integer)
    assert!(
        matches!(res, Err(ToolError::BadArgs(msg)) if msg.contains("Argument validation failed for tool 'add':"))
    );
}

#[test]
fn call_after_crash_still_succeeds() {
    let handler = handler();
    assert_eq!(
        handler.call_with_args("boom", &[]),
        Err(ToolError::Execution("panic in tool".into()))
    );
    assert_eq!(handler.call_with_args("add", &["1".into(), "2".into()]), Ok("3".into()));
}

#[test]
fn settle_hands_on_what_the_tool_returned() {
    assert_eq!(settle(Completion::Returned(Ok("done".into()))), Ok("done".into()));
    assert_eq!(
        settle(Completion::Returned(Err(ToolError::BadArgs("no".into())))),
        Err(ToolError::BadArgs("no".into()))
    );
}
