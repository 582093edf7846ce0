use tool_calling::json::find;
use tool_calling::{Json, Number};

fn object(members: Vec<(&str, Json)>) -> Json {
    Json::Object(members.into_iter().map(|(key, value)| (key.to_string(), value)).collect())
}

fn number(literal: &str) -> Json {
    Json::Number(Number::parse(literal).unwrap())
}

#[test]
fn scalars_render_as_json() {
    assert_eq!(Json::Null.to_text(), "null");
    assert_eq!(Json::Bool(true).to_text(), "true");
    assert_eq!(Json::Bool(false).to_text(), "false");
    assert_eq!(Json::integer(-12).to_text(), "-12");
    assert_eq!(number("3.14").to_text(), "3.14");
    assert_eq!(number("1e100").to_text(), "1e100");
    assert_eq!(Json::string("hi").to_text(), "\"hi\"");
    assert_eq!(Json::string("").to_text(), "\"\"");
}

#[test]
fn strings_are_escaped() {
    assert_eq!(Json::string("a\"b").to_text(), r#""a\"b""#);
    assert_eq!(Json::string("a\\b").to_text(), r#""a\\b""#);
    assert_eq!(Json::string("\n\r\t").to_text(), r#""\n\r\t""#);
    assert_eq!(Json::string("\u{8}\u{c}").to_text(), r#""\b\f""#);
    assert_eq!(Json::string("\u{0}\u{1f}\u{1b}").to_text(), r#""\u0000\u001f\u001b""#);
    assert_eq!(Json::string("\u{7f}é☃/").to_text(), "\"\u{7f}é☃/\"");
}

#[test]
fn containers_render_compactly_in_written_order() {
    assert_eq!(Json::Array(vec![]).to_text(), "[]");
    assert_eq!(Json::Object(vec![]).to_text(), "{}");
    assert_eq!(
        Json::Array(vec![Json::integer(1), Json::Null, Json::string("x")]).to_text(),
        r#"[1,null,"x"]"#
    );
    let value = object(vec![
        ("b", Json::integer(2)),
        ("a", Json::Array(vec![Json::Bool(true), object(vec![("k\"", Json::Null)])])),
    ]);
    assert_eq!(value.to_text(), r#"{"b":2,"a":[true,{"k\"":null}]}"#);
}

#[test]
fn rendering_agrees_with_serde_json() {
    let texts = [
        r#"{"a":1,"b":[true,false,null],"c":{"d":"e\n\"f\"\\","g":-1.5e-7}}"#,
        r#"["\u0000\u0001\u001f\b\f\t","\u007f","é☃𝄞"]"#,
        r#"{"":[],"x":{}}"#,
        r#"[0,-0,1.0,1e100,123456789012345678]"#,
    ];
    for text in texts {
        let theirs: serde_json::Value = serde_json::from_str(text).unwrap();
        let ours = from_serde(&theirs);
        assert_eq!(ours.to_text(), serde_json::to_string(&theirs).unwrap());
        let back: serde_json::Value = serde_json::from_str(&ours.to_text()).unwrap();
        assert_eq!(back, theirs);
    }
}

fn from_serde(value: &serde_json::Value) -> Json {
    match value {
        serde_json::Value::Null => Json::Null,
        serde_json::Value::Bool(b) => Json::Bool(*b),
        serde_json::Value::Number(n) => Json::Number(Number::parse(&n.to_string()).unwrap()),
        serde_json::Value::String(s) => Json::String(s.clone()),
        serde_json::Value::Array(items) => Json::Array(items.iter().map(from_serde).collect()),
        serde_json::Value::Object(members) => Json::Object(
            members.iter().map(|(key, value)| (key.clone(), from_serde(value))).collect(),
        ),
    }
}

#[test]
fn numbers_hold_only_json_literals() {
    assert_eq!(Number::parse("12").map(|n| n.as_str().to_string()), Some("12".to_string()));
    assert_eq!(Number::parse("-0.5e3").map(|n| n.as_str().to_string()), Some("-0.5e3".to_string()));
    assert!(Number::parse("").is_none());
    assert!(Number::parse("01").is_none());
    assert!(Number::parse("NaN").is_none());
    assert!(Number::parse("1.").is_none());
    assert_eq!(Number::from_i64(-7).as_str(), "-7");
    assert_eq!(Number::from_i64(i64::MIN).as_str(), "-9223372036854775808");
}

#[test]
fn members_are_found_by_key() {
    let value = object(vec![("a", Json::integer(1)), ("b", Json::string("x"))]);
    assert_eq!(value.get("a").map(|v| v.to_text()), Some("1".to_string()));
    assert_eq!(value.get("b").and_then(|v| v.as_str()), Some("x"));
    assert!(value.get("c").is_none());
    assert!(value.get("").is_none());
    assert!(Json::Array(vec![value.clone()]).get("a").is_none());
    assert!(Json::string("a").get("a").is_none());
}

#[test]
fn the_later_of_two_members_with_one_key_is_found() {
    let members = vec![
        ("k".to_string(), Json::integer(1)),
        ("other".to_string(), Json::Null),
        ("k".to_string(), Json::integer(2)),
    ];
    assert_eq!(find(&members, "k").map(|v| v.to_text()), Some("2".to_string()));
    // As the text is read back by a JSON parser.
    let text = Json::Object(members).to_text();
    let read: serde_json::Value = serde_json::from_str(&text).unwrap();
    assert_eq!(read["k"], serde_json::Value::from(2));
}

#[test]
fn accessors_tell_the_kinds_apart() {
    let array = Json::Array(vec![Json::Null]);
    let obj = object(vec![("a", Json::Null)]);
    let text = Json::string("s");
    assert_eq!(array.as_array().map(|items| items.len()), Some(1));
    assert!(array.as_object().is_none() && array.as_str().is_none());
    assert_eq!(obj.as_object().map(|members| members.len()), Some(1));
    assert!(obj.as_array().is_none() && obj.as_str().is_none());
    assert_eq!(text.as_str(), Some("s"));
    assert!(text.as_array().is_none() && text.as_object().is_none());
    assert!(Json::Null.as_str().is_none());
    assert!(Json::Bool(true).as_object().is_none());
    assert!(Json::integer(1).as_array().is_none());
}

#[test]
fn a_clone_is_a_deep_copy() {
    let value = object(vec![
        ("a", Json::Array(vec![Json::integer(1), object(vec![("b", Json::string("c"))])])),
        ("d", number("2.5")),
        ("e", Json::Bool(false)),
        ("f", Json::Null),
    ]);
    assert_eq!(value.clone().to_text(), value.to_text());
    assert_eq!(value.clone().to_text(), r#"{"a":[1,{"b":"c"}],"d":2.5,"e":false,"f":null}"#);
}

// A small deterministic generator of values, so that many shapes are tried.
struct Source(u64);

impl Source {
    fn next(&mut self, bound: u64) -> u64 {
        self.0 = self.0.wrapping_mul(6364136223846793005).wrapping_add(1442695040888963407);
        (self.0 >> 33) % bound
    }

    fn text(&mut self) -> String {
        let alphabet = [
            'a', 'Z', '0', ' ', '"', '\\', '/', '\n', '\r', '\t', '\u{0}', '\u{8}', '\u{c}', '\u{1f}',
            '\u{7f}', 'é', '☃', '𝄞', '{', ']', ':', ',',
        ];
        (0..self.next(6)).map(|_| alphabet[self.next(alphabet.len() as u64) as usize]).collect()
    }

    fn value(&mut self, depth: u32) -> serde_json::Value {
        let kinds = if depth == 0 { 5 } else { 7 };
        match self.next(kinds) {
            0 => serde_json::Value::Null,
            1 => serde_json::Value::Bool(self.next(2) == 0),
            2 => serde_json::Value::from(self.next(1 << 40) as i64 - (1 << 39)),
            3 => serde_json::Value::from((self.next(2000) as f64 - 1000.0) / 8.0),
            4 => serde_json::Value::String(self.text()),
            5 => serde_json::Value::Array((0..self.next(4)).map(|_| self.value(depth - 1)).collect()),
            _ => serde_json::Value::Object(
                (0..self.next(4)).map(|_| (self.text(), self.value(depth - 1))).collect(),
            ),
        }
    }
}

#[test]
fn many_values_render_as_serde_json_renders_them() {
    let mut source = Source(2024);
    for _ in 0..500 {
        let theirs = source.value(3);
        let ours = from_serde(&theirs);
        let text = ours.to_text();
        assert_eq!(text, serde_json::to_string(&theirs).unwrap());
        assert_eq!(serde_json::from_str::<serde_json::Value>(&text).unwrap(), theirs);
        assert_eq!(ours.clone().to_text(), text);
    }
}
