use tuya_meter::json::{
    find_key, merge_fields, parse_json, parse_json_prefix, set_field, Json,
};

fn object(text: &str) -> Vec<(String, Json)> {
    match parse_json(text).unwrap() {
        Json::Object(fields) => fields,
        other => panic!("{other:?}"),
    }
}

#[test]
fn texts_are_read_and_written() {
    let text = "{\"b\":[1,-2,2.5,\"x\\\"y\",null,true],\"a\":{}}";
    assert_eq!(parse_json(text).unwrap().to_text(), text);
    assert_eq!(
        parse_json("{ \"k\" : [ ] }").unwrap().to_pretty(),
        "{\n  \"k\": []\n}"
    );
}

#[test]
fn texts_that_are_no_json() {
    assert_eq!(
        parse_json("[1,").unwrap_err(),
        "EOF while parsing a value at line 1 column 3"
    );
    assert_eq!(
        parse_json("{} {}").unwrap_err(),
        "trailing characters at line 1 column 4"
    );
}

#[test]
fn a_value_at_the_start_is_enough() {
    assert_eq!(parse_json_prefix(b"{\"a\":1}trailer").unwrap().to_text(), "{\"a\":1}");
    assert!(parse_json_prefix(b"{\"a\":").is_none());
}

#[test]
fn fields_are_found_by_key() {
    let v = parse_json("{\"a\":true,\"b\":\"text\",\"c\":7}").unwrap();
    assert_eq!(v.get("a").unwrap().as_bool(), Some(true));
    assert_eq!(v.get("b").unwrap().as_str(), Some("text"));
    assert_eq!(v.get("c").unwrap().as_number().unwrap().as_u64(), Some(7));
    assert!(v.get("d").is_none());
    assert!(parse_json("[1]").unwrap().get("a").is_none());
    assert_eq!(v.get("b").unwrap().as_bool(), None);
    assert_eq!(v.get("a").unwrap().as_str(), None);
    assert!(v.get("a").unwrap().as_number().is_none());
    assert!(v.get("a").unwrap().as_object().is_none());
    assert_eq!(v.as_object().unwrap().len(), 3);
    assert_eq!(find_key(v.as_object().unwrap(), "c"), Some(2));
}

#[test]
fn set_fields_keep_their_place() {
    let mut fields = object("{\"a\":1,\"b\":2}");
    set_field(&mut fields, "a", Json::whole(3));
    set_field(&mut fields, "c", Json::text("x"));
    assert_eq!(Json::Object(fields).to_text(), "{\"a\":3,\"b\":2,\"c\":\"x\"}");
}

#[test]
fn merged_fields_take_the_later_value() {
    let mut fields = object("{\"a\":1,\"b\":2}");
    merge_fields(&mut fields, &object("{\"b\":5,\"c\":{\"d\":[]}}"));
    assert_eq!(Json::Object(fields).to_text(), "{\"a\":1,\"b\":5,\"c\":{\"d\":[]}}");
}

#[test]
fn a_key_that_comes_twice_is_written_once() {
    let fields = vec![
        ("a".to_string(), Json::whole(1)),
        ("b".to_string(), Json::Null),
        ("a".to_string(), Json::whole(2)),
    ];
    assert_eq!(Json::Object(fields).to_text(), "{\"a\":2,\"b\":null}");
}

#[test]
fn whole_numbers_of_either_sign() {
    assert_eq!(Json::whole(u64::MAX as i128).to_text(), "18446744073709551615");
    assert_eq!(Json::whole(i64::MIN as i128).to_text(), "-9223372036854775808");
    assert_eq!(Json::whole(0).to_text(), "0");
}

#[test]
fn copies_are_the_same() {
    let text = "{\"a\":[{\"b\":1.25},\"c\"],\"d\":false,\"e\":null}";
    assert_eq!(parse_json(text).unwrap().duplicate().to_text(), text);
}

#[test]
fn a_key_that_is_read_twice_is_held_once() {
    let fields = object("{\"a\":1,\"b\":{\"c\":1,\"c\":2},\"a\":3}");
    let keys: Vec<&str> = fields.iter().map(|(k, _)| k.as_str()).collect();
    assert_eq!(keys, ["a", "b"]);
    assert_eq!(Json::Object(fields).to_text(), "{\"a\":3,\"b\":{\"c\":2}}");
}

#[test]
fn merged_fields_take_the_last_of_several_values() {
    let mut fields = object("{\"a\":1,\"b\":2}");
    let more = vec![
        ("b".to_string(), Json::whole(5)),
        ("c".to_string(), Json::Null),
        ("b".to_string(), Json::whole(6)),
    ];
    merge_fields(&mut fields, &more);
    assert_eq!(Json::Object(fields).to_text(), "{\"a\":1,\"b\":6,\"c\":null}");
}
