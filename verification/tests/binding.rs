use tool_calling::executor::{bind, count_required, parse_arg};
use tool_calling::{Arg, Param, ParamKind, Tool, ToolError, ToolHandler};

fn required(name: &str, kind: ParamKind) -> Param {
    Param { name: name.to_string(), kind, optional: false, default: None }
}

fn optional(name: &str, kind: ParamKind, default: Option<Arg>) -> Param {
    Param { name: name.to_string(), kind, optional: true, default }
}

fn strings(args: &[&str]) -> Vec<String> {
    args.iter().map(|s| s.to_string()).collect()
}

#[test]
fn each_type_reads_its_own_texts() {
    assert_eq!(parse_arg(ParamKind::Integer, "-5"), Some(Arg::Integer(-5)));
    assert_eq!(parse_arg(ParamKind::Integer, "5.0"), None);
    assert_eq!(parse_arg(ParamKind::Number, "5.0"), Some(Arg::Number("5.0".into())));
    assert_eq!(parse_arg(ParamKind::Number, "five"), None);
    assert_eq!(parse_arg(ParamKind::Boolean, "true"), Some(Arg::Boolean(true)));
    assert_eq!(parse_arg(ParamKind::Boolean, "false"), Some(Arg::Boolean(false)));
    assert_eq!(parse_arg(ParamKind::Boolean, "True"), None);
    assert_eq!(parse_arg(ParamKind::Boolean, "1"), None);
    assert_eq!(parse_arg(ParamKind::Boolean, ""), None);
    assert_eq!(parse_arg(ParamKind::String, ""), Some(Arg::String("".into())));
    assert_eq!(parse_arg(ParamKind::String, "any thing"), Some(Arg::String("any thing".into())));
}

#[test]
fn required_parameters_are_counted() {
    assert_eq!(count_required(&vec![]), 0);
    let params = vec![
        required("a", ParamKind::Integer),
        optional("b", ParamKind::Integer, None),
        required("c", ParamKind::String),
        optional("d", ParamKind::Boolean, Some(Arg::Boolean(true))),
    ];
    assert_eq!(count_required(&params), 2);
}

#[test]
fn exactly_the_required_arguments_bind_and_the_rest_default() {
    let params = vec![
        required("a", ParamKind::Integer),
        required("b", ParamKind::String),
        optional("c", ParamKind::Integer, Some(Arg::Integer(7))),
        optional("d", ParamKind::Boolean, None),
    ];
    assert_eq!(
        bind(&params, &strings(&["1", "x"])),
        Ok(vec![Arg::Integer(1), Arg::String("x".into()), Arg::Integer(7), Arg::Absent])
    );
    assert_eq!(
        bind(&params, &strings(&["1", "x", "2"])),
        Ok(vec![Arg::Integer(1), Arg::String("x".into()), Arg::Integer(2), Arg::Absent])
    );
    assert_eq!(
        bind(&params, &strings(&["1", "x", "2", "false"])),
        Ok(vec![Arg::Integer(1), Arg::String("x".into()), Arg::Integer(2), Arg::Boolean(false)])
    );
}

#[test]
fn a_count_out_of_range_names_the_bounds_and_the_count() {
    let params = vec![
        required("a", ParamKind::Integer),
        optional("b", ParamKind::Integer, None),
        optional("c", ParamKind::Integer, None),
    ];
    assert_eq!(
        bind(&params, &strings(&[])),
        Err(ToolError::BadArgs("Expected between 1 and 3 arguments, got 0".into()))
    );
    assert_eq!(
        bind(&params, &strings(&["1", "2", "3", "4"])),
        Err(ToolError::BadArgs("Expected between 1 and 3 arguments, got 4".into()))
    );
    assert_eq!(
        bind(&vec![], &strings(&["x"])),
        Err(ToolError::BadArgs("Expected between 0 and 0 arguments, got 1".into()))
    );
    let twelve: Vec<Param> = (0..12).map(|i| required(&format!("p{}", i), ParamKind::String)).collect();
    assert_eq!(
        bind(&twelve, &strings(&["x"; 11])),
        Err(ToolError::BadArgs("Expected between 12 and 12 arguments, got 11".into()))
    );
    assert!(bind(&vec![], &strings(&[])).is_ok());
}

#[test]
fn a_text_that_does_not_parse_names_itself_and_the_parameter() {
    let params = vec![required("a", ParamKind::Integer), required("flag", ParamKind::Boolean)];
    assert_eq!(
        bind(&params, &strings(&["foo", "true"])),
        Err(ToolError::BadArgs("Failed to parse argument 'foo' for parameter 'a'".into()))
    );
    assert_eq!(
        bind(&params, &strings(&["1", "yes"])),
        Err(ToolError::BadArgs("Failed to parse argument 'yes' for parameter 'flag'".into()))
    );
    // The first failure is the one reported.
    assert_eq!(
        bind(&params, &strings(&["", "yes"])),
        Err(ToolError::BadArgs("Failed to parse argument '' for parameter 'a'".into()))
    );
}

#[test]
fn the_count_is_checked_before_any_text() {
    let params = vec![required("a", ParamKind::Integer)];
    assert_eq!(
        bind(&params, &strings(&["foo", "bar"])),
        Err(ToolError::BadArgs("Expected between 1 and 1 arguments, got 2".into()))
    );
}

#[test]
fn a_supplied_optional_argument_must_parse_too() {
    let params = vec![optional("x", ParamKind::Integer, Some(Arg::Integer(1)))];
    assert_eq!(
        bind(&params, &strings(&["null"])),
        Err(ToolError::BadArgs("Failed to parse argument 'null' for parameter 'x'".into()))
    );
    assert_eq!(bind(&params, &strings(&[])), Ok(vec![Arg::Integer(1)]));
}

#[test]
fn a_required_parameter_behind_an_optional_one_can_go_unsupplied() {
    let params = vec![optional("a", ParamKind::String, None), required("b", ParamKind::String)];
    assert_eq!(
        bind(&params, &strings(&["x", "y"])),
        Ok(vec![Arg::String("x".into()), Arg::String("y".into())])
    );
    // One argument passes the count check, and is taken for the first parameter.
    assert_eq!(
        bind(&params, &strings(&["x"])),
        Err(ToolError::BadArgs("Missing argument for parameter 'b'".into()))
    );
}

#[test]
fn a_default_of_a_required_parameter_is_not_used() {
    let params = vec![Param {
        name: "a".into(),
        kind: ParamKind::Integer,
        optional: false,
        default: Some(Arg::Integer(3)),
    }];
    assert_eq!(
        bind(&params, &strings(&[])),
        Err(ToolError::BadArgs("Expected between 1 and 1 arguments, got 0".into()))
    );
}

fn show(args: &Vec<Arg>) -> Result<String, ToolError> {
    Ok(format!("{:?}", args))
}

#[test]
fn a_tool_runs_on_positional_arguments() {
    type Body = fn(&Vec<Arg>) -> Result<String, ToolError>;
    let tool = Tool::new(
        "t",
        "",
        vec![required("a", ParamKind::Integer), optional("b", ParamKind::Boolean, None)],
        show as Body,
    );
    assert_eq!(tool.execute(&strings(&["4"])), Ok("[Integer(4), Absent]".to_string()));
    assert_eq!(tool.execute(&strings(&["4", "true"])), Ok("[Integer(4), Boolean(true)]".to_string()));
    assert_eq!(
        tool.execute(&strings(&[])),
        Err(ToolError::BadArgs("Expected between 1 and 2 arguments, got 0".into()))
    );
    assert_eq!(
        tool.execute(&strings(&["four"])),
        Err(ToolError::BadArgs("Failed to parse argument 'four' for parameter 'a'".into()))
    );
}

#[test]
fn a_call_is_bound_without_being_run() {
    type Body = fn(&Vec<Arg>) -> Result<String, ToolError>;
    fn never(_args: &Vec<Arg>) -> Result<String, ToolError> {
        panic!("bound only")
    }
    let handler: ToolHandler<Body> = ToolHandler::new(vec![Tool::new(
        "t",
        "",
        vec![required("a", ParamKind::Integer)],
        never as Body,
    )]);
    let (tool, typed) = handler.bind_call("t", &strings(&["4"])).unwrap();
    assert_eq!(tool.name, "t");
    assert_eq!(typed, vec![Arg::Integer(4)]);
    assert_eq!(
        handler.bind_call("t", &strings(&[])).err(),
        Some(ToolError::BadArgs("Expected between 1 and 1 arguments, got 0".into()))
    );
    assert_eq!(
        handler.bind_call("u", &strings(&["4"])).err(),
        Some(ToolError::NotFound("u".into()))
    );
}

#[test]
fn a_rust_type_name_stands_for_a_declared_type() {
    for name in ["i64", "u", "i", "uint", "id::Id"] {
        assert_eq!(ParamKind::of_type(name), ParamKind::Integer, "{}", name);
    }
    assert_eq!(ParamKind::of_type("u8"), ParamKind::IntegerIn(0, 255));
    assert_eq!(ParamKind::of_type("u16"), ParamKind::IntegerIn(0, 65535));
    assert_eq!(ParamKind::of_type("u32"), ParamKind::IntegerIn(0, u32::MAX as i128));
    assert_eq!(ParamKind::of_type("u64"), ParamKind::IntegerIn(0, u64::MAX as i128));
    assert_eq!(ParamKind::of_type("usize"), ParamKind::IntegerIn(0, usize::MAX as i128));
    assert_eq!(ParamKind::of_type("u128"), ParamKind::IntegerIn(0, i128::MAX));
    assert_eq!(ParamKind::of_type("i8"), ParamKind::IntegerIn(-128, 127));
    assert_eq!(ParamKind::of_type("i16"), ParamKind::IntegerIn(-32768, 32767));
    assert_eq!(ParamKind::of_type("i32"), ParamKind::IntegerIn(i32::MIN as i128, i32::MAX as i128));
    assert_eq!(
        ParamKind::of_type("isize"),
        ParamKind::IntegerIn(isize::MIN as i128, isize::MAX as i128)
    );
    assert_eq!(ParamKind::of_type("i128"), ParamKind::IntegerIn(i128::MIN, i128::MAX));
    assert_eq!(ParamKind::of_type("f32"), ParamKind::Number);
    assert_eq!(ParamKind::of_type("f64"), ParamKind::Number);
    assert_eq!(ParamKind::of_type("bool"), ParamKind::Boolean);
    for name in ["String", "std::string::String", "char", "f16", "Bool", "", "Vec<u8>", "PathBuf"] {
        assert_eq!(ParamKind::of_type(name), ParamKind::String, "{}", name);
    }
}

#[test]
fn an_integer_is_read_within_its_bounds() {
    let byte = ParamKind::of_type("u8");
    assert_eq!(parse_arg(byte, "0"), Some(Arg::Integer(0)));
    assert_eq!(parse_arg(byte, "255"), Some(Arg::Integer(255)));
    assert_eq!(parse_arg(byte, "+255"), Some(Arg::Integer(255)));
    assert_eq!(parse_arg(byte, "256"), None);
    assert_eq!(parse_arg(byte, "-1"), None);
    assert_eq!(parse_arg(byte, "-0"), None);
    assert_eq!(parse_arg(ParamKind::of_type("i8"), "-0"), Some(Arg::Integer(0)));
    let wide = ParamKind::of_type("u64");
    assert_eq!(parse_arg(wide, "18446744073709551615"), Some(Arg::Integer(u64::MAX as i128)));
    assert_eq!(parse_arg(wide, "18446744073709551616"), None);
    assert_eq!(parse_arg(wide, "9223372036854775808"), Some(Arg::Integer(1 << 63)));
    assert_eq!(parse_arg(ParamKind::Integer, "9223372036854775808"), None);
    assert_eq!(parse_arg(ParamKind::Integer, "-9223372036854775808"), Some(Arg::Integer(i64::MIN as i128)));
    let small = ParamKind::IntegerIn(-3, 3);
    assert_eq!(parse_arg(small, "-3"), Some(Arg::Integer(-3)));
    assert_eq!(parse_arg(small, "3"), Some(Arg::Integer(3)));
    assert_eq!(parse_arg(small, "4"), None);
    assert_eq!(parse_arg(small, "-4"), None);
    assert_eq!(parse_arg(small, "x"), None);
    assert_eq!(parse_arg(ParamKind::IntegerIn(1, 0), "0"), None);
}

#[test]
fn integer_types_agree_with_the_standard_parsers() {
    let samples = [
        "0", "-0", "+0", "1", "-1", "127", "128", "-128", "-129", "255", "256", "32767", "32768",
        "-32768", "65535", "65536", "2147483647", "2147483648", "-2147483648", "-2147483649",
        "4294967295", "4294967296", "9223372036854775807", "9223372036854775808",
        "18446744073709551615", "18446744073709551616", "", "+", "-", "1x", "0x1", " 1",
        "170141183460469231731687303715884105727", "170141183460469231731687303715884105728",
        "-170141183460469231731687303715884105728", "-170141183460469231731687303715884105729",
    ];
    fn read(kind: &str, raw: &str) -> Option<i128> {
        match parse_arg(ParamKind::of_type(kind), raw) {
            Some(Arg::Integer(n)) => Some(n),
            _ => None,
        }
    }
    for raw in samples {
        assert_eq!(read("u8", raw), raw.parse::<u8>().ok().map(i128::from), "{:?}", raw);
        assert_eq!(read("u16", raw), raw.parse::<u16>().ok().map(i128::from), "{:?}", raw);
        assert_eq!(read("u32", raw), raw.parse::<u32>().ok().map(i128::from), "{:?}", raw);
        assert_eq!(read("u64", raw), raw.parse::<u64>().ok().map(i128::from), "{:?}", raw);
        assert_eq!(read("i8", raw), raw.parse::<i8>().ok().map(i128::from), "{:?}", raw);
        assert_eq!(read("i16", raw), raw.parse::<i16>().ok().map(i128::from), "{:?}", raw);
        assert_eq!(read("i32", raw), raw.parse::<i32>().ok().map(i128::from), "{:?}", raw);
        assert_eq!(read("i64", raw), raw.parse::<i64>().ok().map(i128::from), "{:?}", raw);
        assert_eq!(read("i128", raw), raw.parse::<i128>().ok(), "{:?}", raw);
    }
}
