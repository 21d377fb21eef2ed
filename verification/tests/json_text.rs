use botwire::json::{Json, Member};
use botwire::number::Number;
use botwire::parse::parse;

fn reparse(text: &str) -> String {
    parse(text).unwrap().to_text()
}

#[test]
fn parse_reads_the_words() {
    assert!(matches!(parse("null"), Some(Json::Null)));
    assert!(matches!(parse(" true "), Some(Json::Bool(true))));
    assert!(matches!(parse("\nfalse"), Some(Json::Bool(false))));
    assert!(parse("nul").is_none());
    assert!(parse("truefalse").is_none());
    assert!(parse("").is_none());
}

#[test]
fn parse_reads_numbers_as_written() {
    assert_eq!(reparse("0"), "0");
    assert_eq!(reparse("-12.50e+3"), "-12.50e+3");
    assert_eq!(reparse("[1, 2.0 ,3E5]"), "[1,2.0,3E5]");
    assert!(parse("01").is_none());
    assert!(parse("1.").is_none());
    assert!(parse("-").is_none());
    assert!(parse(".5").is_none());
    assert!(parse("1e").is_none());
    assert!(parse("+1").is_none());
}

#[test]
fn parse_reads_strings_with_escapes() {
    match parse("\"a\\n\\\"b\\u0041\\ud83d\\ude00\\/\"") {
        Some(Json::Text(s)) => assert_eq!(s, "a\n\"bA\u{1F600}/"),
        _ => panic!("not a string"),
    }
    assert!(parse("\"\\ud83d\"").is_none());
    assert!(parse("\"\\ude00\"").is_none());
    assert!(parse("\"\\x\"").is_none());
    assert!(parse("\"open").is_none());
    assert!(parse("\"a\nb\"").is_none());
}

#[test]
fn parse_reads_nested_values() {
    let text = " { \"ok\" : true , \"result\" : [ 1 , { } , [ ] , \"x\" , null ] } ";
    assert_eq!(reparse(text), "{\"ok\":true,\"result\":[1,{},[],\"x\",null]}");
    assert!(parse("[1,]").is_none());
    assert!(parse("{\"a\":1,}").is_none());
    assert!(parse("{\"a\" 1}").is_none());
    assert!(parse("{a:1}").is_none());
    assert!(parse("[1 2]").is_none());
    assert!(parse("[").is_none());
}

#[test]
fn parse_bounds_the_nesting() {
    let deep_ok = format!("{}{}", "[".repeat(128), "]".repeat(128));
    let too_deep = format!("{}{}", "[".repeat(129), "]".repeat(129));
    assert!(parse(&deep_ok).is_some());
    assert!(parse(&too_deep).is_none());
}

#[test]
fn to_text_escapes_what_json_requires() {
    let value = Json::Text("q\"b\\s\u{8}\u{c}\n\r\t\u{1}\u{1f}\u{7f}é/".to_string());
    assert_eq!(
        value.to_text(),
        "\"q\\\"b\\\\s\\b\\f\\n\\r\\t\\u0001\\u001f\u{7f}é/\""
    );
}

#[test]
fn to_text_agrees_with_serde_json_on_strings() {
    for s in ["", "plain", "tab\there", "\u{0}\u{b}\u{e}\u{1f} \"\\", "snow ☃ 😀", "\u{7f}\u{80}"] {
        let ours = Json::Text(s.to_string()).to_text();
        assert_eq!(ours, serde_json::to_string(s).unwrap());
    }
}

#[test]
fn to_text_writes_objects_in_order() {
    let value = Json::Object(vec![
        Member { key: "b".to_string(), value: Json::Number(Number::from_i64(-7)) },
        Member { key: "a".to_string(), value: Json::Array(vec![Json::Null, Json::Bool(false)]) },
    ]);
    assert_eq!(value.to_text(), "{\"b\":-7,\"a\":[null,false]}");
    assert_eq!(value.duplicate().to_text(), value.to_text());
}

#[test]
fn parse_agrees_with_serde_json_on_what_is_json() {
    let cases = [
        "{}", "[]", "[[]]", "{\"a\":{\"b\":[1,2,{\"c\":null}]}}", "1e5", "-0", "0.0", "\"\\u00e9\"",
        "01", "[1,]", "{\"a\"}", "tru", "\"\\ud800\"", "1.e5", " 1 ", "1 1", "\"\t\"", "nan",
    ];
    for text in cases {
        let theirs = serde_json::from_str::<serde_json::Value>(text).is_ok();
        assert_eq!(parse(text).is_some(), theirs, "{}", text);
    }
}
