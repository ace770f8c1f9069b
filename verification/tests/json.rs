use ask_jira::json::{collect_member_texts, remove_null_values, Decimal, Json, Members};
use ask_jira::wire::{parse, parse_bytes, to_compact, to_pretty};

fn read(text: &str) -> Json {
    parse(text).unwrap()
}

fn without_nulls(text: &str) -> String {
    let mut json = read(text);
    remove_null_values(&mut json);
    to_compact(&json)
}

fn nested(depth: usize) -> String {
    format!("{}{}", "[".repeat(depth), "]".repeat(depth))
}

#[test]
fn null_members_go_at_every_depth() {
    assert_eq!(without_nulls(r#"{"a":null,"b":1}"#), r#"{"b":1}"#);
    assert_eq!(
        without_nulls(r#"{"a":{"b":null,"c":[{"d":null,"e":{}}]},"f":null}"#),
        r#"{"a":{"c":[{"e":{}}]}}"#
    );
}

#[test]
fn other_nulls_stay() {
    assert_eq!(without_nulls("null"), "null");
    assert_eq!(without_nulls("[null,1,null]"), "[null,1,null]");
    assert_eq!(without_nulls(r#"{"a":[null]}"#), r#"{"a":[null]}"#);
}

#[test]
fn an_object_of_nulls_becomes_empty_and_stays() {
    assert_eq!(without_nulls(r#"{"a":{"b":null}}"#), r#"{"a":{}}"#);
}

#[test]
fn removal_twice_is_removal_once() {
    let once = without_nulls(r#"{"a":null,"b":[{"c":null}],"d":{"e":null}}"#);
    assert_eq!(without_nulls(&once), once);
    assert_eq!(once, r#"{"b":[{}],"d":{}}"#);
}

#[test]
fn removal_keeps_values_without_null_members() {
    let text = r#"{"a":[1,-2,3.5,true,"x",null],"b":{"c":""}}"#;
    assert_eq!(without_nulls(text), text);
}

#[test]
fn members_have_one_value_each() {
    let members = Members::new()
        .with("a", Json::Unsigned(1))
        .with("b", Json::Bool(true))
        .with("a", Json::Signed(-2));
    assert!(matches!(members.get("a"), Some(Json::Signed(-2))));
    assert!(members.get("c").is_none());
    assert_eq!(to_compact(&Json::Object(members)), r#"{"a":-2,"b":true}"#);
}

#[test]
fn access_to_what_is_not_there() {
    let json = read(r#"{"a":[1,"x"],"n":-1,"d":2.5}"#);
    assert!(json.member("z").is_none());
    assert!(json.item(0).is_none());
    assert!(json.member("a").unwrap().item(2).is_none());
    assert_eq!(json.member("a").unwrap().item(0).unwrap().unsigned(), Some(1));
    assert_eq!(json.member("a").unwrap().item(1).unwrap().text().unwrap(), "x");
    assert_eq!(json.member("n").unwrap().unsigned(), None);
    assert_eq!(json.member("d").unwrap().unsigned(), None);
    assert_eq!(Json::Signed(7).unsigned(), Some(7));
    assert!(json.items().is_none());
    assert!(matches!(json.member_or_null("z"), Json::Null));
    assert_eq!(json.member_text("a"), None);
}

#[test]
fn texts_of_members_are_collected_in_order() {
    let json = read(r#"[{"key":"A"},{"key":1},{},null,{"key":"B"},"key",{"key":"A"}]"#);
    assert_eq!(collect_member_texts(json.items().unwrap(), "key"), vec!["A", "B", "A"]);
}

#[test]
fn copies_are_equal() {
    let text = r#"{"a":[1,-2,3.5,true,"x",null,{"b":{}}]}"#;
    assert_eq!(to_compact(&read(text).clone()), text);
}

#[test]
fn decimals_are_held_as_written() {
    assert_eq!(Decimal::new("2.5").unwrap().text(), "2.5");
    assert!(Decimal::new("2.50").is_none());
    assert!(Decimal::new("2").is_none());
    assert!(Decimal::new("NaN").is_none());
    assert!(Decimal::new("inf").is_none());
    assert!(Decimal::new("x").is_none());
    assert_eq!(to_compact(&Json::Decimal(Decimal::new("-0.0").unwrap())), "-0.0");
}

#[test]
fn values_are_read_and_written() {
    let text = r#"{"b":[1,-9223372036854775808,18446744073709551615,1e300,true,null,"\"\n\u0001é"],"a":{}}"#;
    let written = r#"{"a":{},"b":[1,-9223372036854775808,18446744073709551615,1e+300,true,null,"\"\n\u0001é"]}"#;
    assert_eq!(to_compact(&read(text)), written);
    assert_eq!(to_compact(&read(&to_pretty(&read(text)))), written);
}

#[test]
fn the_last_member_of_a_name_counts() {
    assert_eq!(to_compact(&read(r#"{"a":1,"a":2}"#)), r#"{"a":2}"#);
}

#[test]
fn pretty_text_is_indented() {
    assert_eq!(to_pretty(&read(r#"[{"a":1}]"#)), "[\n  {\n    \"a\": 1\n  }\n]");
    assert_eq!(to_pretty(&Json::Array(vec![])), "[]");
}

#[test]
fn integers_beyond_sixty_four_bits_are_decimals() {
    assert!(matches!(read("18446744073709551616"), Json::Decimal(_)));
    assert!(matches!(read("-9223372036854775809"), Json::Decimal(_)));
    assert!(matches!(read("-9223372036854775808"), Json::Signed(i64::MIN)));
    assert!(matches!(read("-0"), Json::Decimal(_)));
}

#[test]
fn malformed_text_is_refused_with_its_place() {
    assert_eq!(parse("").unwrap_err(), "EOF while parsing a value at line 1 column 0");
    assert_eq!(parse("[1,]").unwrap_err(), "trailing comma at line 1 column 4");
    assert_eq!(parse_bytes(b"{").unwrap_err(), "EOF while parsing an object at line 1 column 1");
    assert!(parse_bytes(b"\"\xff\"").is_err());
}

#[test]
fn bytes_are_read_as_text_is() {
    assert_eq!(to_compact(&parse_bytes("[\"é\"]".as_bytes()).unwrap()), "[\"é\"]");
}

#[test]
fn nesting_is_limited() {
    assert!(parse(&nested(127)).is_ok());
    assert!(parse(&nested(128)).is_err());
    assert_eq!(to_compact(&read(&nested(127))), nested(127));
}

#[test]
fn decimals_are_read_as_their_own_text_is() {
    for number in ["100000000000000060000", "1.5", "0.1", "1e-7", "123456789012345678901234567890"] {
        let once = read(number);
        let again = read(&to_compact(&once));
        let whole = read(&to_compact(&read(&format!("{{\"key\":\"A\",\"n\":[{},null]}}", number))));
        assert_eq!(whole.member_text("key").unwrap(), "A");
        let items = whole.member("n").unwrap().items().unwrap();
        assert_eq!(items.len(), 2);
        assert_eq!(to_compact(&items[0]), to_compact(&again));
        assert_eq!(to_compact(&items[1]), "null");
    }
    let shifted = read("100000000000000060000");
    assert_ne!(to_compact(&read(&to_compact(&shifted))), to_compact(&shifted));
}
