use tool_calling::{Arg, Param, ParamKind, Tool, ToolError, ToolHandler};

type Body = fn(&Vec<Arg>) -> Result<String, ToolError>;

fn required(name: &str, kind: ParamKind) -> Param {
    Param { name: name.to_string(), kind, optional: false, default: None }
}

fn integer(arg: &Arg) -> i128 {
    match arg {
        Arg::Integer(n) => *n,
        other => panic!("expected an integer, got {:?}", other),
    }
}

/// Adds two integers and returns the result as a string.
fn add(args: &Vec<Arg>) -> Result<String, ToolError> {
    Ok((integer(&args[0]) + integer(&args[1])).to_string())
}

fn handler() -> ToolHandler<Body> {
    ToolHandler::new(vec![Tool::new(
        "add",
        "Adds two integers and returns the result as a string.",
        vec![required("a", ParamKind::Integer), required("b", ParamKind::Integer)],
        add as Body,
    )])
}

#[test]
fn registry_enumerator() {
    let handler = handler();
    let reg = handler.tools();
    assert!(reg.iter().any(|t| {
        t.name == "add" && t.description == "Adds two integers and returns the result as a string."
    }));
}

#[test]
fn get_tool_finds_by_name() {
    let handler = handler();
    assert_eq!(handler.get_tool("add").map(|t| t.name.as_str()), Some("add"));
    assert!(handler.get_tool("sub").is_none());
    assert_eq!(handler.find_tool("add"), Some(0));
}

#[test]
fn first_registration_wins() {
    fn other(_args: &Vec<Arg>) -> Result<String, ToolError> {
        Ok("other".into())
    }
    let handler: ToolHandler<Body> = ToolHandler::new(vec![
        Tool::new("t", "first", vec![], add as Body),
        Tool::new("t", "second", vec![], other as Body),
    ]);
    assert_eq!(handler.get_tool("t").map(|t| t.description.as_str()), Some("first"));
}

#[test]
fn unknown_name_is_not_found() {
    let handler = handler();
    assert_eq!(
        handler.call_with_args("unknown", &[]),
        Err(ToolError::NotFound("unknown".to_string()))
    );
}
