use serde_json::{Number, Value};
use tracy::json::{bool_token, count_token, integer_token, render, Token};

fn key(name: &str) -> Token {
    Token::Key(name.to_string())
}

fn text(value: &str) -> Token {
    Token::Text(value.to_string())
}

fn document_tokens() -> Vec<Token> {
    vec![
        Token::BeginObject,
        key("count"),
        count_token(42),
        key("empty list"),
        Token::BeginList,
        Token::EndList,
        key("empty object"),
        Token::BeginObject,
        Token::EndObject,
        key("flags"),
        Token::BeginList,
        bool_token(true),
        bool_token(false),
        Token::Plain("null".to_string()),
        Token::EndList,
        key("nested"),
        Token::BeginObject,
        key("items"),
        Token::BeginList,
        Token::BeginObject,
        key("name"),
        text("a \"quoted\" \\ name"),
        key("offset"),
        integer_token(-7),
        Token::EndObject,
        Token::BeginList,
        Token::BeginList,
        Token::EndList,
        Token::EndList,
        text("tab\there\nnew line"),
        Token::EndList,
        Token::EndObject,
        key("quote\"in key"),
        text("caf\u{e9} \u{1f600} \u{1}\u{1f}\u{7f}"),
        key("smallest"),
        integer_token(i64::MIN),
        Token::EndObject,
    ]
}

fn document_value() -> Value {
    let mut item = serde_json::Map::new();
    item.insert("name".to_string(), Value::String("a \"quoted\" \\ name".to_string()));
    item.insert("offset".to_string(), Value::Number(Number::from(-7i64)));
    let items = Value::Array(vec![
        Value::Object(item),
        Value::Array(vec![Value::Array(Vec::new())]),
        Value::String("tab\there\nnew line".to_string()),
    ]);
    let mut nested = serde_json::Map::new();
    nested.insert("items".to_string(), items);

    let mut document = serde_json::Map::new();
    document.insert("count".to_string(), Value::Number(Number::from(42u64)));
    document.insert("empty list".to_string(), Value::Array(Vec::new()));
    document.insert("empty object".to_string(), Value::Object(serde_json::Map::new()));
    document.insert(
        "flags".to_string(),
        Value::Array(vec![Value::Bool(true), Value::Bool(false), Value::Null]),
    );
    document.insert("nested".to_string(), Value::Object(nested));
    document.insert(
        "quote\"in key".to_string(),
        Value::String("caf\u{e9} \u{1f600} \u{1}\u{1f}\u{7f}".to_string()),
    );
    document.insert("smallest".to_string(), Value::Number(Number::from(i64::MIN)));
    Value::Object(document)
}

#[test]
fn compact_text_is_that_of_the_serializer() {
    let ours = render(&document_tokens(), false).unwrap();
    assert_eq!(ours, serde_json::to_string(&document_value()).unwrap());
}

#[test]
fn indented_text_is_that_of_the_serializer() {
    let ours = render(&document_tokens(), true).unwrap();
    assert_eq!(ours, serde_json::to_string_pretty(&document_value()).unwrap());
}

#[test]
fn rendered_document_reads_back_as_the_same_value() {
    let compact: Value = serde_json::from_str(&render(&document_tokens(), false).unwrap()).unwrap();
    let pretty: Value = serde_json::from_str(&render(&document_tokens(), true).unwrap()).unwrap();
    assert_eq!(compact, document_value());
    assert_eq!(pretty, document_value());
}

#[test]
fn every_character_below_space_is_escaped_as_the_serializer_does() {
    for code in 0u32..0x80 {
        let c = char::from_u32(code).unwrap();
        let value = format!("a{c}b");
        let ours = render(&vec![text(&value)], false).unwrap();
        assert_eq!(ours, serde_json::to_string(&Value::String(value)).unwrap(), "U+{code:04X}");
    }
}

#[test]
fn string_literal_has_the_exact_escapes() {
    let value = "\"\\/\u{8}\u{c}\n\r\t\u{0}\u{1b}\u{7f}\u{e9}";
    let ours = render(&vec![text(value)], false).unwrap();
    assert_eq!(ours, "\"\\\"\\\\/\\b\\f\\n\\r\\t\\u0000\\u001b\u{7f}\u{e9}\"");
}

#[test]
fn scalars_and_empty_containers() {
    assert_eq!(render(&vec![Token::BeginObject, Token::EndObject], true).unwrap(), "{}");
    assert_eq!(render(&vec![Token::BeginList, Token::EndList], true).unwrap(), "[]");
    assert_eq!(render(&vec![count_token(0)], true).unwrap(), "0");
    assert_eq!(render(&vec![integer_token(-1)], false).unwrap(), "-1");
    assert_eq!(
        render(&vec![Token::BeginList, count_token(1), count_token(2), Token::EndList], false)
            .unwrap(),
        "[1,2]"
    );
    assert_eq!(
        render(&vec![Token::BeginList, count_token(1), count_token(2), Token::EndList], true)
            .unwrap(),
        "[\n  1,\n  2\n]"
    );
}
