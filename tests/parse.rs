use json_parser::parser::{parse_chars, JsonParser};
use json_parser::value::{JsonParserError, JsonValue};

fn chars(s: &str) -> Vec<char> {
    s.chars().collect()
}

fn parse(s: &str) -> Result<JsonValue, JsonParserError> {
    parse_chars(chars(s))
}

fn num(t: &str) -> JsonValue {
    JsonValue::Number(t.to_string())
}

fn text(t: &str) -> JsonValue {
    JsonValue::String(t.to_string())
}

fn object(members: Vec<(&str, JsonValue)>) -> JsonValue {
    JsonValue::Object(members.into_iter().map(|(k, v)| (k.to_string(), v)).collect())
}

fn number_value(v: &JsonValue) -> f64 {
    match v {
        JsonValue::Number(t) => t.parse::<f64>().unwrap(),
        _ => panic!("not a number: {:?}", v),
    }
}

#[test]
fn all() {
    let doc = "{\n  \"hello\": \"world\",\n  \"number\": 100,\n  \"null\": null,\n  \"true\": true,\n  \"false\": false,\n  \"array\": [null]\n}\n";
    let result = parse(doc);
    let expected = object(vec![
        ("hello", text("world")),
        ("number", num("100")),
        ("null", JsonValue::Null),
        ("true", JsonValue::Bool(true)),
        ("false", JsonValue::Bool(false)),
        ("array", JsonValue::Array(vec![JsonValue::Null])),
    ]);
    assert!(result == Ok(expected));
    if let Ok(JsonValue::Object(members)) = &result {
        assert_eq!(number_value(&members[1].1), 100.0);
    }
}

#[test]
fn nested_document() {
    let result = parse("{\"a\":1,\"b\":[true,false,null],\"c\":{\"d\":2.5}}");
    let expected = object(vec![
        ("a", num("1")),
        (
            "b",
            JsonValue::Array(vec![JsonValue::Bool(true), JsonValue::Bool(false), JsonValue::Null]),
        ),
        ("c", object(vec![("d", num("2.5"))])),
    ]);
    assert_eq!(result, Ok(expected));
}

#[test]
fn white_space_between_tokens() {
    let plain = parse("{\"a\":1,\"b\":[true,false,null],\"c\":{\"d\":2.5}}");
    let spaced = parse(
        " \t\n{ \"a\" :\t1 ,\n\"b\" : [ true ,\r\nfalse , null ] , \"c\" : {\n\"d\"\t:\t2.5 } }\n ",
    );
    assert!(plain.is_ok());
    assert_eq!(plain, spaced);
}

#[test]
fn trailing_comma_in_object() {
    assert_eq!(parse("{\"a\":1,}"), Err(JsonParserError::ExpectedObjectEndOrSeparator));
}

#[test]
fn trailing_comma_in_array() {
    let mut parser = JsonParser::new(chars("[1,]"));
    assert_eq!(parser.parse_array(), Err(JsonParserError::ExpectedArrayEndOrSeparator));
    assert_eq!(parse("{\"a\":[1,]}"), Err(JsonParserError::ExpectedArrayEndOrSeparator));
}

#[test]
fn duplicate_key_keeps_last() {
    assert_eq!(parse("{\"a\":1,\"a\":2}"), Ok(object(vec![("a", num("2"))])));
    assert_eq!(
        parse("{\"a\":1,\"b\":2,\"a\":3}"),
        Ok(object(vec![("a", num("3")), ("b", num("2"))]))
    );
}

#[test]
fn unterminated_object() {
    assert_eq!(parse("{\"a\":1"), Err(JsonParserError::UnterminatedObject));
    assert_eq!(parse("{"), Err(JsonParserError::UnterminatedObject));
}

#[test]
fn unterminated_string() {
    let mut parser = JsonParser::new(chars("\"abc"));
    assert_eq!(parser.parse_string(), Err(JsonParserError::UnterminatedString));
    assert_eq!(parse("{\"abc"), Err(JsonParserError::UnterminatedString));
}

#[test]
fn unterminated_array() {
    let mut parser = JsonParser::new(chars("[1,2"));
    assert_eq!(parser.parse_array(), Err(JsonParserError::UnterminatedArray));
    assert_eq!(parse("{\"a\":[1,2"), Err(JsonParserError::UnterminatedArray));
}

#[test]
fn number_with_two_points() {
    let mut parser = JsonParser::new(chars("1.2.3"));
    assert_eq!(parser.parse_number(), Err(JsonParserError::InvalidNumber("1.2.".to_string())));
    assert_eq!(parse("{\"n\":1.2.3}"), Err(JsonParserError::InvalidNumber("1.2.".to_string())));
}

#[test]
fn number_values() {
    let mut parser = JsonParser::new(chars("100"));
    let hundred = parser.parse_next().unwrap();
    assert_eq!(hundred, num("100"));
    assert_eq!(number_value(&hundred), 100.0);
    assert_eq!(parser.cursor, 3);
    let mut parser = JsonParser::new(chars("2.5,"));
    let half = parser.parse_next().unwrap();
    assert_eq!(number_value(&half), 2.5);
    assert_eq!(parser.cursor, 3);
}

#[test]
fn empty_numeral() {
    let mut parser = JsonParser::new(chars("x"));
    assert_eq!(parser.parse_number(), Err(JsonParserError::InvalidNumber(String::new())));
}

#[test]
fn root_must_be_object() {
    assert_eq!(
        parse("[1,2,3]"),
        Err(JsonParserError::UnexpectedCharacter { expected: '{', got: '[' })
    );
    assert_eq!(
        parse("\"hello\""),
        Err(JsonParserError::UnexpectedCharacter { expected: '{', got: '"' })
    );
    assert_eq!(parse("  "), Err(JsonParserError::EndOfInput));
}

#[test]
fn chop_twice_is_chop_once() {
    let mut once = JsonParser::new(chars(" \t\r\n x "));
    once.chop();
    assert_eq!(once.cursor, 5);
    let mut twice = JsonParser::new(chars(" \t\r\n x "));
    twice.chop();
    twice.chop();
    assert_eq!(twice.cursor, once.cursor);
}

#[test]
fn chop_stops_at_non_space() {
    let mut parser = JsonParser::new(chars("a "));
    parser.chop();
    assert_eq!(parser.cursor, 0);
    let mut parser = JsonParser::new(chars("\u{a0}\u{3000}z"));
    parser.chop();
    assert_eq!(parser.cursor, 2);
}

#[test]
fn empty_containers() {
    assert_eq!(parse("{}"), Ok(JsonValue::Object(vec![])));
    assert_eq!(parse("{\"a\":[ ]}"), Ok(object(vec![("a", JsonValue::Array(vec![]))])));
    assert_eq!(parse("{ \"a\" : { } }"), Ok(object(vec![("a", object(vec![]))])));
}

#[test]
fn strings_keep_backslashes() {
    assert_eq!(parse("{\"k\":\"a\\\\b\"}"), Ok(object(vec![("k", text("a\\\\b"))])));
    assert_eq!(parse("{\"k\":\"\u{e9}t\u{e9}\"}"), Ok(object(vec![("k", text("\u{e9}t\u{e9}"))])));
}

#[test]
fn bare_words() {
    let mut parser = JsonParser::new(chars("nullx"));
    assert_eq!(parser.parse_word(), Err(JsonParserError::UnrecognizedLiteral));
    let mut parser = JsonParser::new(chars("true]"));
    assert_eq!(parser.parse_word(), Ok(JsonValue::Bool(true)));
    assert_eq!(parser.cursor, 4);
    assert_eq!(parse("{\"a\":nul}"), Err(JsonParserError::UnrecognizedLiteral));
    assert_eq!(parse("{\"a\":\u{e9}}"), Err(JsonParserError::UnrecognizedLiteral));
}

#[test]
fn unknown_token() {
    assert_eq!(parse("{\"a\":-1}"), Err(JsonParserError::UnrecognizedToken));
    assert_eq!(parse("{\"a\":}"), Err(JsonParserError::UnrecognizedToken));
}

#[test]
fn bad_separators() {
    assert_eq!(parse("{\"a\":1 \"b\":2}"), Err(JsonParserError::ExpectedObjectEndOrSeparator));
    assert_eq!(parse("{\"a\":[1 2]}"), Err(JsonParserError::ExpectedArrayEndOrSeparator));
    assert_eq!(
        parse("{\"a\" 1}"),
        Err(JsonParserError::UnexpectedCharacter { expected: ':', got: '1' })
    );
    assert_eq!(
        parse("{a:1}"),
        Err(JsonParserError::UnexpectedCharacter { expected: '"', got: 'a' })
    );
    assert_eq!(parse("{\"a\""), Err(JsonParserError::EndOfInput));
    assert_eq!(parse("{\"a\":"), Err(JsonParserError::EndOfInput));
}

#[test]
fn primitives() {
    let mut parser = JsonParser::new(chars("ab"));
    assert_eq!(parser.read(), Ok('a'));
    assert_eq!(parser.cursor, 0);
    assert_eq!(parser.consume(), Ok('a'));
    assert_eq!(parser.consume_check('x'), Err(JsonParserError::UnexpectedCharacter { expected: 'x', got: 'b' }));
    assert_eq!(parser.consume(), Err(JsonParserError::EndOfInput));
    assert_eq!(parser.read(), Err(JsonParserError::EndOfInput));
    let mut parser = JsonParser::new(chars(":"));
    assert_eq!(parser.consume_check(':'), Ok(()));
    assert_eq!(parser.cursor, 1);
}

#[test]
fn array_reader_skips_trailing_space() {
    let mut parser = JsonParser::new(chars("[ 1 , \"x\" ]  ,"));
    assert_eq!(parser.parse_array(), Ok(JsonValue::Array(vec![num("1"), text("x")])));
    assert_eq!(parser.cursor, 13);
}
