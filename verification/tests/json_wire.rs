use minimal_agent::json::{parse_json_str, to_json_string, to_pretty_string, Json, json_of_milli};
use minimal_agent::strutil::str_to_chars;

fn reparse(text: &str) -> String {
    to_json_string(&parse_json_str(text).expect("should parse"))
}

#[test]
fn serialize_composite_value() {
    let v = Json::Obj(vec![
        (str_to_chars("a"), Json::Arr(vec![Json::of_i64(1), Json::Bool(true), Json::Null])),
        (str_to_chars("b"), Json::of_str("x\"y\\z\n")),
    ]);
    assert_eq!(to_json_string(&v), "{\"a\":[1,true,null],\"b\":\"x\\\"y\\\\z\\n\"}");
}

#[test]
fn serializer_agrees_with_serde() {
    // keys in serde's sorted order, so the re-serialized tree matches
    let v = Json::Obj(vec![
        (str_to_chars("ctl"), Json::of_str("\u{0001}")),
        (str_to_chars("n"), Json::of_i64(-42)),
        (str_to_chars("text"), Json::of_str("tab\there \u{1F600} ok")),
    ]);
    let mine = to_json_string(&v);
    let theirs: serde_json::Value = serde_json::from_str(&mine).expect("serde accepts ours");
    assert_eq!(serde_json::to_string(&theirs).unwrap(), mine);
}

#[test]
fn pretty_printer_agrees_with_serde() {
    // keys already in serde's sorted order, so both sides print one tree
    let text = "{\"a\":[1,{\"b\":\"c\"},[]],\"z\":null}";
    let v = parse_json_str(text).expect("parses");
    let theirs: serde_json::Value = serde_json::from_str(text).unwrap();
    assert_eq!(to_pretty_string(&v), serde_json::to_string_pretty(&theirs).unwrap());
    let empties = "{\"arr\":[],\"obj\":{}}";
    let v2 = parse_json_str(empties).expect("parses");
    let theirs2: serde_json::Value = serde_json::from_str(empties).unwrap();
    assert_eq!(to_pretty_string(&v2), serde_json::to_string_pretty(&theirs2).unwrap());
}

#[test]
fn parse_handles_whitespace_escapes_and_numbers() {
    assert_eq!(reparse(" { \"k\" : [ 1 , -2.5e3 , \"\\u0041\\u00e9\" ] } "),
        "{\"k\":[1,-2.5e3,\"Aé\"]}");
    assert_eq!(reparse("\"\\ud83d\\ude00\""), "\"\u{1F600}\"");
    assert_eq!(reparse("[true,false,null]"), "[true,false,null]");
}

#[test]
fn parse_rejects_malformed_text() {
    assert!(parse_json_str("{").is_none());
    assert!(parse_json_str("[1,]").is_none());
    assert!(parse_json_str("01").is_none());
    assert!(parse_json_str("\"\\ud800\"").is_none());
    assert!(parse_json_str("{\"a\":1} trailing").is_none());
    assert!(parse_json_str("nul").is_none());
}

#[test]
fn parse_then_serialize_round_trips() {
    for text in [
        "{\"command\":\"ls -la\"}",
        "[0,10,123456789,-7,0.5,1e9]",
        "{\"nested\":{\"deep\":[{\"x\":null}]}}",
        "\"plain\"",
    ] {
        assert_eq!(reparse(text), *text);
    }
}

#[test]
fn integer_extraction_bounds() {
    let as_i32 = |t: &str| parse_json_str(t).unwrap().as_i32();
    assert_eq!(as_i32("2147483647"), Some(2147483647));
    assert_eq!(as_i32("-2147483648"), Some(-2147483648));
    assert_eq!(as_i32("2147483648"), None);
    assert_eq!(as_i32("-2147483649"), None);
    assert_eq!(as_i32("0"), Some(0));
    assert_eq!(as_i32("1.5"), None);
    assert_eq!(as_i32("1e3"), None);
    assert_eq!(as_i32("\"12\""), None);
}

#[test]
fn temperature_thousandths_print_like_floats() {
    assert_eq!(to_json_string(&json_of_milli(700)), "0.7");
    assert_eq!(to_json_string(&json_of_milli(1000)), "1.0");
    assert_eq!(to_json_string(&json_of_milli(0)), "0.0");
    assert_eq!(to_json_string(&json_of_milli(1250)), "1.25");
    assert_eq!(to_json_string(&json_of_milli(123)), "0.123");
    // and serde prints the same f64 the same way
    assert_eq!(serde_json::to_string(&serde_json::Value::from(0.7_f64)).unwrap(), "0.7");
    assert_eq!(serde_json::to_string(&serde_json::Value::from(1.0_f64)).unwrap(), "1.0");
}

#[test]
fn object_field_lookup() {
    let v = parse_json_str("{\"command\":\"ls\",\"other\":3}").unwrap();
    let c = v.get("command").unwrap();
    assert_eq!(to_json_string(c), "\"ls\"");
    assert!(v.get("missing").is_none());
}
