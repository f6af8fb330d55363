use mcp_manager::json::{find_member, push_member, same_text, Json, JsonNumber, Member};

fn member(key: &str, value: Json) -> Member {
    Member { key: key.to_string(), value }
}

#[test]
fn text_is_read_into_a_document() {
    assert_eq!(Json::from_text("null"), Some(Json::Null));
    assert_eq!(Json::from_text("true"), Some(Json::Bool(true)));
    assert_eq!(Json::from_text("\"a\\nb\""), Some(Json::Str("a\nb".to_string())));
    assert_eq!(Json::from_text("7"), Some(Json::Number(JsonNumber::PosInt(7))));
    assert_eq!(Json::from_text("-7"), Some(Json::Number(JsonNumber::NegInt(-7))));
    assert_eq!(Json::from_text("1.5"), Some(Json::Number(JsonNumber::Real("1.5".to_string()))));
    assert_eq!(
        Json::from_text("18446744073709551615"),
        Some(Json::Number(JsonNumber::PosInt(u64::MAX)))
    );
    assert_eq!(
        Json::from_text(" [1, {\"b\": [], \"a\": {}}] "),
        Some(Json::Array(vec![
            Json::Number(JsonNumber::PosInt(1)),
            Json::Object(vec![
                member("a", Json::Object(Vec::new())),
                member("b", Json::Array(Vec::new())),
            ]),
        ]))
    );
}

#[test]
fn text_that_is_no_json_gives_nothing() {
    assert_eq!(Json::from_text(""), None);
    assert_eq!(Json::from_text("{"), None);
    assert_eq!(Json::from_text("{} {}"), None);
    assert_eq!(Json::from_text("hello"), None);
    assert_eq!(Json::from_text("{'a':1}"), None);
}

#[test]
fn a_document_is_written_on_one_line() {
    let doc = Json::Object(vec![
        member("b", Json::Array(vec![Json::Null, Json::Bool(false)])),
        member("a", Json::Str("x\"y".to_string())),
        member("n", Json::Number(JsonNumber::NegInt(-3))),
        member("r", Json::Number(JsonNumber::Real("2.5".to_string()))),
    ]);
    assert_eq!(doc.to_text(), "{\"a\":\"x\\\"y\",\"b\":[null,false],\"n\":-3,\"r\":2.5}");
    assert_eq!(Json::Null.to_text(), "null");
    assert_eq!(Json::Str("plain".to_string()).to_text(), "\"plain\"");
}

#[test]
fn a_document_is_written_indented() {
    let doc = Json::Object(vec![member("a", Json::Array(vec![Json::Number(JsonNumber::PosInt(1))]))]);
    assert_eq!(doc.to_pretty_text(), "{\n  \"a\": [\n    1\n  ]\n}");
    assert_ne!(doc.to_pretty_text(), doc.to_text());
}

#[test]
fn writing_and_reading_gives_the_document_back() {
    let text = "{\"a\":[1,-2,3.25,\"s\",null,true],\"b\":{\"c\":{}}}";
    let doc = Json::from_text(text).expect("valid");
    assert_eq!(doc.to_text(), text);
    assert_eq!(Json::from_text(&doc.to_pretty_text()), Some(doc.clone()));
}

#[test]
fn members_are_found_by_their_exact_key() {
    let doc = Json::from_text("{\"id\":3,\"Id\":4,\"s\":\"t\",\"l\":[1],\"neg\":-1,\"big\":9223372036854775808}")
        .expect("valid");
    assert_eq!(doc.get("id"), Some(&Json::Number(JsonNumber::PosInt(3))));
    assert_eq!(doc.get("Id").and_then(|v| v.as_u64()), Some(4));
    assert_eq!(doc.get("ID"), None);
    assert_eq!(doc.get(""), None);
    assert_eq!(doc.get("s").and_then(|v| v.as_str()), Some("t"));
    assert_eq!(doc.get("s").and_then(|v| v.as_u64()), None);
    assert_eq!(doc.get("l").and_then(|v| v.as_array()).map(|l| l.len()), Some(1));
    assert_eq!(doc.get("neg").and_then(|v| v.as_u64()), None);
    assert_eq!(doc.get("neg").and_then(|v| v.as_i64()), Some(-1));
    assert_eq!(doc.get("id").and_then(|v| v.as_i64()), Some(3));
    assert_eq!(doc.get("big").and_then(|v| v.as_u64()), Some(9223372036854775808));
    assert_eq!(doc.get("big").and_then(|v| v.as_i64()), None);
    assert_eq!(doc.as_object().map(|m| m.len()), Some(6));
    assert_eq!(Json::Null.get("id"), None);
    assert_eq!(Json::Null.as_object(), None);
    assert_eq!(Json::Null.as_array(), None);
    assert_eq!(Json::Null.as_str(), None);
}

#[test]
fn the_first_member_of_a_key_is_found() {
    let mut members = Vec::new();
    push_member(&mut members, "a", Json::Bool(true));
    push_member(&mut members, "b", Json::Null);
    push_member(&mut members, "a", Json::Bool(false));
    assert_eq!(find_member(&members, "a"), Some(0));
    assert_eq!(find_member(&members, "b"), Some(1));
    assert_eq!(find_member(&members, "c"), None);
    assert_eq!(Json::Object(members).get("a"), Some(&Json::Bool(true)));
}

#[test]
fn a_copy_is_equal() {
    let doc = Json::from_text("{\"a\":[1,{\"b\":\"c\"}],\"d\":-1.5e3}").expect("valid");
    assert_eq!(doc.clone(), doc);
    let m = member("k", doc);
    assert_eq!(m.clone(), m);
    let n = JsonNumber::Real("1.5".to_string());
    assert_eq!(n.clone(), n);
}

#[test]
fn reading_gives_the_reason_where_the_text_is_no_json() {
    assert_eq!(Json::read("[1]"), Ok(Json::Array(vec![Json::Number(JsonNumber::PosInt(1))])));
    assert_eq!(
        Json::read("[1,]"),
        Err("trailing comma at line 1 column 4".to_string())
    );
    assert_eq!(Json::read(""), Err("EOF while parsing a value at line 1 column 0".to_string()));
}

#[test]
fn a_real_whose_text_is_no_number_is_written_as_null() {
    for text in ["[1]", "true", "\"s\"", "abc", "", "{}", "null"] {
        assert_eq!(Json::Number(JsonNumber::Real(text.to_string())).to_text(), "null");
    }
    assert_eq!(Json::Number(JsonNumber::Real("2.50".to_string())).to_text(), "2.5");
    assert_eq!(Json::Number(JsonNumber::Real("1e3".to_string())).to_text(), "1000.0");
}

#[test]
fn texts_are_the_same_where_their_characters_are() {
    assert!(same_text("abc", "abc"));
    assert!(same_text("", ""));
    assert!(!same_text("abc", "abd"));
    assert!(!same_text("abc", "ab"));
    assert!(!same_text("é", "e"));
}
