use json_parser::parse_json;
use json_parser::tokenizer::{Token, Tokenizer};
use json_parser::types::{ErrorKind, JsonDocument, JsonValue, Number};

#[test]
fn round_trip_shape_single_pair() {
    let result = parse_json(r#"{"foo": "bar"}"#).unwrap();
    let entries = result.as_object().expect("an object was parsed");
    assert_eq!(entries.len(), 1);
    assert_eq!(entries[0].0, "foo");
    assert_eq!(
        entries[0].1,
        JsonValue::String(String::from("bar"))
    );
    assert!(result.as_array().is_none());
}

#[test]
fn numeric_disambiguation_int_versus_float() {
    let tokenizer = Tokenizer { input_string: "42" };
    let mut pos: usize = 0;
    assert_eq!(
        tokenizer.try_tokenize_number(&mut pos),
        Ok(Number::Int(42))
    );

    let tokenizer = Tokenizer {
        input_string: "3.14159",
    };
    let mut pos: usize = 0;
    match tokenizer.try_tokenize_number(&mut pos) {
        Ok(Number::Float(lit)) => assert_eq!(lit.parse::<f64>().unwrap(), 3.14159),
        other => panic!("expected a float, got {:?}", other),
    }

    let tokenizer = Tokenizer {
        input_string: "-0.33",
    };
    let mut pos: usize = 0;
    match tokenizer.try_tokenize_number(&mut pos) {
        Ok(Number::Float(lit)) => assert_eq!(lit.parse::<f64>().unwrap(), -0.33),
        other => panic!("expected a float, got {:?}", other),
    }
}

#[test]
fn escape_decoding_to_literal_text() {
    let tokenizer = Tokenizer {
        input_string: r#""Hello \"World\"\nNew line""#,
    };
    let mut pos: usize = 0;
    assert_eq!(
        tokenizer.try_tokenize_string(&mut pos),
        Ok(String::from("Hello \"World\"\nNew line"))
    );

    let tokenizer = Tokenizer {
        input_string: r#""Hello""#,
    };
    let mut pos: usize = 0;
    assert_eq!(
        tokenizer.try_tokenize_string(&mut pos),
        Ok(String::from("Hello"))
    );
}

#[test]
fn array_homogeneity_not_required() {
    let result = parse_json(r#"[1, 2, 3]"#).unwrap();
    let items = result.as_array().expect("an array was parsed");
    assert_eq!(items.len(), 3);
    assert_eq!(items[0], JsonValue::Number(Number::Int(1)));
    assert_eq!(items[1], JsonValue::Number(Number::Int(2)));
    assert_eq!(items[2], JsonValue::Number(Number::Int(3)));
    assert!(result.as_object().is_none());

    let mixed = parse_json(r#"[1, "two", null, true]"#).unwrap();
    let items = mixed.as_array().expect("an array was parsed");
    assert_eq!(items.len(), 4);
    assert_eq!(items[1], JsonValue::String(String::from("two")));
    assert_eq!(items[2], JsonValue::Null);
    assert_eq!(items[3], JsonValue::Boolean(true));
}

#[test]
fn duplicate_key_overwrites_silently() {
    let result = parse_json(r#"{"a": 1, "a": 2}"#).unwrap();
    let entries = result.as_object().expect("an object was parsed");
    assert_eq!(entries.len(), 1);
    assert_eq!(entries[0].0, "a");
    assert_eq!(entries[0].1, JsonValue::Number(Number::Int(2)));
}

#[test]
fn rejection_of_empty_input() {
    assert_eq!(parse_json(""), Err(ErrorKind::InvalidJson));
}

#[test]
fn rejection_of_bare_scalar_root() {
    assert_eq!(parse_json(r#""42""#), Err(ErrorKind::InvalidJson));
    assert_eq!(parse_json("42"), Err(ErrorKind::InvalidJson));
    assert_eq!(parse_json("null"), Err(ErrorKind::InvalidJson));
}

#[test]
fn rejection_of_unterminated_string() {
    assert_eq!(parse_json(r#""abc"#), Err(ErrorKind::UnterminatedString));
}

#[test]
fn rejection_of_number_with_two_dots() {
    assert_eq!(parse_json("-52.33.3"), Err(ErrorKind::InvalidNumber));
}

#[test]
fn rejection_of_number_with_two_minus_signs() {
    assert_eq!(parse_json("-52-11"), Err(ErrorKind::InvalidNumber));
}

#[test]
fn idempotence_of_structure() {
    let input = r#"{"a": [1, 2.5, {"b": null}], "c": true}"#;
    let first = parse_json(input).unwrap();
    let second = parse_json(input).unwrap();
    assert_eq!(first, second);
}

#[test]
fn invalid_character_for_tab_outside_string() {
    assert_eq!(parse_json("\t{}"), Err(ErrorKind::InvalidCharacter));
    assert_eq!(parse_json("{}@"), Err(ErrorKind::InvalidCharacter));
}

#[test]
fn invalid_token_for_misspelled_keyword() {
    assert_eq!(parse_json("[nul]"), Err(ErrorKind::InvalidToken));
    assert_eq!(parse_json("[turtle]"), Err(ErrorKind::InvalidToken));
    assert_eq!(parse_json("[f]"), Err(ErrorKind::InvalidToken));
}

#[test]
fn unterminated_escape_at_end_of_input() {
    assert_eq!(parse_json(r#"["abc\"#), Err(ErrorKind::UnterminatedEscape));
}

#[test]
fn invalid_unicode_escape_with_bad_digit() {
    assert_eq!(
        parse_json(r#"["\u00ZZ"]"#),
        Err(ErrorKind::InvalidUnicodeEscape)
    );
}

#[test]
fn invalid_code_point_for_surrogate_half() {
    assert_eq!(
        parse_json(r#"["\uD800"]"#),
        Err(ErrorKind::InvalidCodePoint)
    );
}

#[test]
fn invalid_escape_sequence_error_kind() {
    assert_eq!(
        parse_json(r#"["\x"]"#),
        Err(ErrorKind::InvalidEscapeSequence)
    );
}

#[test]
fn invalid_integer_for_overflowing_literal() {
    assert_eq!(parse_json("[2147483648]"), Err(ErrorKind::InvalidInteger));
    assert_eq!(
        parse_json("[99999999999999999999]"),
        Err(ErrorKind::InvalidInteger)
    );
    assert_eq!(parse_json("[-2147483649]"), Err(ErrorKind::InvalidInteger));
}

#[test]
fn extreme_integers_still_fit() {
    let result = parse_json("[2147483647, -2147483648]").unwrap();
    let items = result.as_array().unwrap();
    assert_eq!(items[0], JsonValue::Number(Number::Int(2147483647)));
    assert_eq!(items[1], JsonValue::Number(Number::Int(-2147483648)));
}

#[test]
fn unexpected_token_inside_object() {
    assert_eq!(parse_json(r#"{"a" 1}"#), Err(ErrorKind::UnexpectedToken));
    assert_eq!(parse_json("{1}"), Err(ErrorKind::UnexpectedToken));
    assert_eq!(parse_json(r#"{"a": 1"#), Err(ErrorKind::UnexpectedToken));
}

#[test]
fn unexpected_end_of_array() {
    assert_eq!(parse_json("["), Err(ErrorKind::UnexpectedEndOfArray));
    assert_eq!(parse_json("[1,"), Err(ErrorKind::UnexpectedEndOfArray));
}

#[test]
fn empty_composites_parse() {
    assert_eq!(parse_json("{}"), Ok(JsonDocument::Object(vec![])));
    assert_eq!(parse_json("[]"), Ok(JsonDocument::Array(vec![])));
    assert_eq!(
        parse_json("[[]]"),
        Ok(JsonDocument::Array(vec![JsonValue::Document(Box::new(
            JsonDocument::Array(vec![])
        ))]))
    );
}

#[test]
fn nested_documents_are_fully_formed() {
    let result = parse_json(r#"{"outer": {"inner": [true, false]}}"#).unwrap();
    let entries = result.as_object().unwrap();
    assert_eq!(entries.len(), 1);
    match &entries[0].1 {
        JsonValue::Document(inner) => {
            let inner_entries = inner.as_object().unwrap();
            assert_eq!(inner_entries[0].0, "inner");
            match &inner_entries[0].1 {
                JsonValue::Document(arr) => {
                    let items = arr.as_array().unwrap();
                    assert_eq!(items.len(), 2);
                    assert_eq!(items[0], JsonValue::Boolean(true));
                    assert_eq!(items[1], JsonValue::Boolean(false));
                }
                other => panic!("expected a nested array, got {:?}", other),
            }
        }
        other => panic!("expected a nested object, got {:?}", other),
    }
}

#[test]
fn whitespace_between_tokens_is_skipped() {
    let input = "  {  \"a\" :\r\n 1 , \"b\" : [ ] }  ";
    let result = parse_json(input).unwrap();
    let entries = result.as_object().unwrap();
    assert_eq!(entries.len(), 2);
    assert_eq!(entries[0].1, JsonValue::Number(Number::Int(1)));
    assert_eq!(
        entries[1].1,
        JsonValue::Document(Box::new(JsonDocument::Array(vec![])))
    );
}

#[test]
fn match_exact_word_consumes_on_success() {
    let tokenizer = Tokenizer {
        input_string: "null, 1",
    };
    let mut pos: usize = 0;
    assert!(tokenizer.match_exact_word(&mut pos, "null"));
    assert_eq!(pos, 4);
}

#[test]
fn error_messages_are_descriptive() {
    assert_eq!(ErrorKind::InvalidJson.message(), "Invalid JSON");
    assert_eq!(ErrorKind::UnexpectedToken.message(), "Unexpected token");
    assert_eq!(
        ErrorKind::UnexpectedEndOfArray.message(),
        "Unexpected end of array"
    );
    assert_eq!(ErrorKind::InvalidInteger.message(), "Invalid integer");
}

#[test]
fn tokenize_skips_tab_never() {
    let tokenizer = Tokenizer {
        input_string: "\t",
    };
    assert_eq!(
        tokenizer.tokenize_json(),
        Err(ErrorKind::InvalidCharacter)
    );
}

#[test]
fn tokenize_empty_input_is_no_tokens() {
    let tokenizer = Tokenizer { input_string: "" };
    assert_eq!(tokenizer.tokenize_json(), Ok(vec![]));
}

#[test]
fn tokenize_structural_characters() {
    let tokenizer = Tokenizer {
        input_string: "{}[]:,",
    };
    assert_eq!(
        tokenizer.tokenize_json(),
        Ok(vec![
            Token::LeftBrace,
            Token::RightBrace,
            Token::LeftBracket,
            Token::RightBracket,
            Token::Colon,
            Token::Comma,
        ])
    );
}
