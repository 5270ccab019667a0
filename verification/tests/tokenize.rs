use json_parser::tokenizer::{Token, Tokenizer};
use json_parser::types::{ErrorKind, Number};

#[test]
fn test_tokenize_json_simplest() {
    let input = r#"{"foo": "bar"}"#;
    let tokenizer = Tokenizer {
        input_string: input,
    };

    match tokenizer.tokenize_json() {
        Ok(result) => {
            let expected = vec![
                Token::LeftBrace,
                Token::String(String::from("foo")),
                Token::Colon,
                Token::String(String::from("bar")),
                Token::RightBrace,
            ];

            assert_eq!(result, expected);
        }
        Err(e) => panic!("should not throw this error: {:?}", e),
    }
}

#[test]
fn test_try_tokenize_null() {
    let input = "null";
    let tokenizer = Tokenizer {
        input_string: input,
    };
    let mut pos: usize = 0;

    assert_eq!(tokenizer.try_tokenize_null(&mut pos), true);
}

#[test]
fn test_try_tokenize_null_return_false() {
    let input = "none";
    let tokenizer = Tokenizer {
        input_string: input,
    };
    let mut pos: usize = 0;

    assert_eq!(tokenizer.try_tokenize_null(&mut pos), false);
}

#[test]
fn test_try_tokenize_true() {
    let input = "true";
    let tokenizer = Tokenizer {
        input_string: input,
    };
    let mut pos: usize = 0;

    assert_eq!(tokenizer.try_tokenize_true(&mut pos), true);
}

#[test]
fn test_try_tokenize_true_return_false() {
    let input = "turtle";
    let tokenizer = Tokenizer {
        input_string: input,
    };
    let mut pos: usize = 0;

    assert_eq!(tokenizer.try_tokenize_true(&mut pos), false);
}

#[test]
fn test_try_tokenize_false_return() {
    let input = "false";
    let tokenizer = Tokenizer {
        input_string: input,
    };
    let mut pos: usize = 0;

    assert_eq!(tokenizer.try_tokenize_false(&mut pos), true);
}

#[test]
fn test_try_tokenize_false_with_suffix() {
    let input = "false, ";
    let tokenizer = Tokenizer {
        input_string: input,
    };
    let mut pos: usize = 0;

    assert_eq!(tokenizer.try_tokenize_false(&mut pos), true);
}

#[test]
fn test_try_tokenize_false_return_false() {
    let input = "f";
    let tokenizer = Tokenizer {
        input_string: input,
    };
    let mut pos: usize = 0;

    assert_eq!(tokenizer.try_tokenize_false(&mut pos), false);
}

#[test]
fn test_try_tokenize_string() {
    let input = r#""Hello World!""#;
    let tokenizer = Tokenizer {
        input_string: input,
    };
    let mut pos: usize = 0;

    match tokenizer.try_tokenize_string(&mut pos) {
        Ok(result) => {
            assert_eq!(result, "Hello World!");
        }
        Err(_) => panic!("Expect success tokenize string"),
    }
}

#[test]
fn test_try_tokenize_string_unclosed() {
    let input = r#""Hello World!"#;
    let tokenizer = Tokenizer {
        input_string: input,
    };
    let mut pos: usize = 0;

    match tokenizer.try_tokenize_string(&mut pos) {
        Ok(_) => {
            panic!("Expect error returned for unclosed string");
        }
        Err(e) => assert_eq!(e.message(), "EOF reached when parsing string"),
    }
}

#[test]
fn test_try_tokenize_number_with_integer() {
    let input = "23";
    let tokenizer = Tokenizer {
        input_string: input,
    };
    let mut pos: usize = 0;

    match tokenizer.try_tokenize_number(&mut pos) {
        Ok(result) => assert_eq!(result, Number::Int(23)),
        Err(_) => panic!("Expect not to throw error"),
    };
}

#[test]
fn test_try_tokenize_number_with_float() {
    let input = "52.1985";
    let tokenizer = Tokenizer {
        input_string: input,
    };
    let mut pos: usize = 0;

    match tokenizer.try_tokenize_number(&mut pos) {
        Ok(result) => {
            assert_eq!(result, Number::Float(String::from("52.1985")));
            match result {
                Number::Float(lit) => assert_eq!(lit.parse::<f64>().unwrap(), 52.1985),
                _ => unreachable!(),
            }
        }
        Err(_) => panic!("Expect not to throw error"),
    };
}

#[test]
fn test_try_tokenize_number_with_negative_integer() {
    let input = "-11";
    let tokenizer = Tokenizer {
        input_string: input,
    };
    let mut pos: usize = 0;

    match tokenizer.try_tokenize_number(&mut pos) {
        Ok(result) => assert_eq!(result, Number::Int(-11)),
        Err(_) => panic!("Expect not to throw error"),
    };
}

#[test]
fn test_try_tokenize_number_with_negative_float() {
    let input = "-47.9999999";
    let tokenizer = Tokenizer {
        input_string: input,
    };
    let mut pos: usize = 0;

    match tokenizer.try_tokenize_number(&mut pos) {
        Ok(result) => {
            assert_eq!(result, Number::Float(String::from("-47.9999999")));
            match result {
                Number::Float(lit) => assert_eq!(lit.parse::<f64>().unwrap(), -47.9999999),
                _ => unreachable!(),
            }
        }
        Err(_) => panic!("Expect not to throw error"),
    };
}

#[test]
fn test_try_tokenize_number_with_negative_float2() {
    let input = "-0.33";
    let tokenizer = Tokenizer {
        input_string: input,
    };
    let mut pos: usize = 0;

    match tokenizer.try_tokenize_number(&mut pos) {
        Ok(result) => {
            assert_eq!(result, Number::Float(String::from("-0.33")));
            match result {
                Number::Float(lit) => assert_eq!(lit.parse::<f64>().unwrap(), -0.33),
                _ => unreachable!(),
            }
        }
        Err(_) => panic!("Expect not to throw error"),
    };
}

#[test]
fn test_try_tokenize_number_with_2_dots() {
    let input = "-52.33.3";
    let tokenizer = Tokenizer {
        input_string: input,
    };
    let mut pos: usize = 0;

    match tokenizer.try_tokenize_number(&mut pos) {
        Ok(_) => panic!("Expect to throw error"),
        Err(err) => assert_eq!(err.message(), "Invalid number"),
    };
}

#[test]
fn test_try_tokenize_number_with_2_minus() {
    let input = "-52-11";
    let tokenizer = Tokenizer {
        input_string: input,
    };
    let mut pos: usize = 0;

    match tokenizer.try_tokenize_number(&mut pos) {
        Ok(_) => panic!("Expect to throw error"),
        Err(err) => assert_eq!(err.message(), "Invalid number"),
    };
}

#[test]
fn test_try_tokenize_string_with_escaped_quotes() {
    let input = r#""He said \"Hello World!\"""#;
    let tokenizer = Tokenizer {
        input_string: input,
    };
    let mut pos: usize = 0;

    match tokenizer.try_tokenize_string(&mut pos) {
        Ok(result) => {
            assert_eq!(result, r#"He said "Hello World!""#);
        }
        Err(_) => panic!("Expect success tokenize string with escaped quotes"),
    }
}

#[test]
fn test_try_tokenize_string_with_escaped_backslash() {
    let input = r#""Path: C:\\Users\\test""#;
    let tokenizer = Tokenizer {
        input_string: input,
    };
    let mut pos: usize = 0;

    match tokenizer.try_tokenize_string(&mut pos) {
        Ok(result) => {
            assert_eq!(result, r"Path: C:\Users\test");
        }
        Err(_) => panic!("Expect success tokenize string with escaped backslash"),
    }
}

#[test]
fn test_try_tokenize_string_with_newline_escape() {
    let input = r#""Line 1\nLine 2""#;
    let tokenizer = Tokenizer {
        input_string: input,
    };
    let mut pos: usize = 0;

    match tokenizer.try_tokenize_string(&mut pos) {
        Ok(result) => {
            assert_eq!(result, "Line 1\nLine 2");
        }
        Err(_) => panic!("Expect success tokenize string with newline escape"),
    }
}

#[test]
fn test_try_tokenize_string_with_unicode_escape() {
    let input = r#""Unicode: \u0048\u0065\u006C\u006C\u006F""#;
    let tokenizer = Tokenizer {
        input_string: input,
    };
    let mut pos: usize = 0;

    match tokenizer.try_tokenize_string(&mut pos) {
        Ok(result) => {
            assert_eq!(result, "Unicode: Hello");
        }
        Err(_) => panic!("Expect success tokenize string with unicode escape"),
    }
}

#[test]
fn test_try_tokenize_string_with_invalid_escape() {
    let input = r#""Invalid \x escape""#;
    let tokenizer = Tokenizer {
        input_string: input,
    };
    let mut pos: usize = 0;

    match tokenizer.try_tokenize_string(&mut pos) {
        Ok(_) => panic!("Expect error for invalid escape sequence"),
        Err(err) => assert_eq!(err.message(), "Invalid escape sequence"),
    }
}

#[test]
fn test_try_tokenize_string_with_incomplete_unicode() {
    let input = r#""Unicode: \u00""#;
    let tokenizer = Tokenizer {
        input_string: input,
    };
    let mut pos: usize = 0;

    match tokenizer.try_tokenize_string(&mut pos) {
        Ok(_) => panic!("Expect error for incomplete unicode escape"),
        Err(err) => assert_eq!(err.message(), "Invalid unicode escape sequence"),
    }
}

#[test]
fn test_tokenize_json_with_number_at_end_of_object() {
    let input = r#"{"num":42}"#;
    let tokenizer = Tokenizer {
        input_string: input,
    };

    match tokenizer.tokenize_json() {
        Ok(result) => {
            let expected = vec![
                Token::LeftBrace,
                Token::String(String::from("num")),
                Token::Colon,
                Token::Number(Number::Int(42)),
                Token::RightBrace,
            ];
            assert_eq!(result, expected);
        }
        Err(e) => panic!("should not throw this error: {:?}", e),
    }
}

#[test]
fn test_tokenize_json_with_number_at_end_of_array() {
    let input = r#"[1,2,3]"#;
    let tokenizer = Tokenizer {
        input_string: input,
    };

    match tokenizer.tokenize_json() {
        Ok(result) => {
            let expected = vec![
                Token::LeftBracket,
                Token::Number(Number::Int(1)),
                Token::Comma,
                Token::Number(Number::Int(2)),
                Token::Comma,
                Token::Number(Number::Int(3)),
                Token::RightBracket,
            ];
            assert_eq!(result, expected);
        }
        Err(e) => panic!("should not throw this error: {:?}", e),
    }
}

#[test]
fn test_tokenize_json_with_float_at_end_of_object() {
    let input = r#"{"pi":3.14159}"#;
    let tokenizer = Tokenizer {
        input_string: input,
    };

    match tokenizer.tokenize_json() {
        Ok(result) => {
            let expected = vec![
                Token::LeftBrace,
                Token::String(String::from("pi")),
                Token::Colon,
                Token::Number(Number::Float(String::from("3.14159"))),
                Token::RightBrace,
            ];
            assert_eq!(result, expected);
        }
        Err(e) => panic!("should not throw this error: {:?}", e),
    }
}

#[test]
fn test_error_kind_is_invalid_number_for_two_dots() {
    let input = "-52.33.3";
    let tokenizer = Tokenizer {
        input_string: input,
    };
    let mut pos: usize = 0;

    assert_eq!(
        tokenizer.try_tokenize_number(&mut pos),
        Err(ErrorKind::InvalidNumber)
    );
}
