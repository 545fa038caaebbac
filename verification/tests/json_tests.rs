use molt::{clean_dirty_json, clean_dirty_json_simd, parse_two_stage, tokenize};
use molt::{ParseError, Token, TokenType};

fn text(r: Result<Vec<u8>, ParseError>) -> String {
    String::from_utf8(r.unwrap()).unwrap()
}

#[test]
fn test_clean_simple_dirty_json() {
    let input = "{name: 'alice', age: 30}";
    let result = clean_dirty_json(input.as_bytes()).unwrap();
    assert_eq!(result, br#"{"name":"alice","age":30}"#.to_vec());
}

#[test]
fn test_clean_with_comments() {
    let input = "{\n            // This is a comment\n            name: \"bob\",\n            /* Multi-line\n               comment */\n            age: 25\n        }";
    let result = text(clean_dirty_json(input.as_bytes()));
    assert!(result.contains(r#""name""#));
    assert!(result.contains(r#""bob""#));
}

#[test]
fn test_clean_trailing_commas() {
    let input = r#"{"items": [1, 2, 3,], "total": 3,}"#;
    let result = clean_dirty_json(input.as_bytes()).unwrap();
    assert_eq!(result, br#"{"items":[1,2,3],"total":3}"#.to_vec());
}

#[test]
fn test_hex_numbers() {
    let input = r#"{"value": 0xFF}"#;
    let result = clean_dirty_json(input.as_bytes()).unwrap();
    assert_eq!(result, br#"{"value":255}"#.to_vec());
}

#[test]
fn test_parse_simple() {
    let input = br#"{"name":"alice","age":30}"#;
    let tokens = parse_two_stage(input).unwrap();

    assert!(!tokens.is_empty());
}

#[test]
fn test_parse_with_comments() {
    let input = b"{\n            // Comment\n            \"name\": \"bob\"\n        }";
    let tokens = parse_two_stage(input).unwrap();
    assert!(!tokens.is_empty());
}

#[test]
fn test_parse_dirty() {
    let input = b"{ name: 'alice', age: 30, }";
    let tokens = parse_two_stage(input).unwrap();
    assert!(!tokens.is_empty());
}

fn token_fields(tokens: &[Token]) -> Vec<(TokenType, Vec<u8>, usize, usize)> {
    tokens
        .iter()
        .map(|t| (t.token_type, t.value.clone(), t.start, t.end))
        .collect()
}

#[test]
fn test_tokenizer_paths_agree_on_dirty_inputs() {
    let inputs: [&[u8]; 10] = [
        br#"{"name":"alice","age":30}"#,
        b"{ name: 'alice', age: 30, }",
        br#"{"items": [1, 2, 3,], "total": 3,}"#,
        br#"{"value": 0xFF}"#,
        b"{\n  // c1\n  a: 'x', /* c2 */ b: [true, false, null]\n}",
        b"42",
        b"  true  // trailing comment",
        b"[ /* , */ 5 ]",
        b"[1 2]",
        b"\"alone\"",
    ];
    for input in inputs {
        let single = tokenize(input).unwrap();
        let two = parse_two_stage(input).unwrap();
        assert_eq!(token_fields(&single), token_fields(&two));
    }
}

#[test]
fn test_clean_paths_agree_on_dirty_inputs() {
    let inputs: [&[u8]; 6] = [
        b"{ name: 'alice', age: 30, }",
        br#"{"items": [1, 2, 3,], "total": 3,}"#,
        br#"{"value": 0xFF}"#,
        b"42",
        b" { /* [ */ a: 1 } ",
        b"null",
    ];
    for input in inputs {
        assert_eq!(
            clean_dirty_json(input).unwrap(),
            clean_dirty_json_simd(input).unwrap()
        );
    }
}

#[test]
fn test_two_stage_reaches_content_outside_index() {
    // a bare scalar has no structural byte at all
    assert_eq!(clean_dirty_json_simd(b"42").unwrap(), b"42".to_vec());
    // content before the first and after the last structural byte
    assert_eq!(clean_dirty_json_simd(b"  7 // x").unwrap(), b"7".to_vec());
    // a comment that swallows a structural byte
    assert_eq!(clean_dirty_json_simd(b"[ /* , */ 5 ]").unwrap(), b"[5]".to_vec());
}

#[test]
fn test_clean_idempotent() {
    let inputs: [&[u8]; 4] = [
        b"{ name: 'alice', age: 30, }",
        br#"{"items": [1, 2, 3,], "total": 3,}"#,
        br#"{"value": 0xFF}"#,
        br#"[true,false,null,1.5e10,-2]"#,
    ];
    for input in inputs {
        let once = clean_dirty_json(input).unwrap();
        let twice = clean_dirty_json(&once).unwrap();
        assert_eq!(once, twice);
    }
}

#[test]
fn test_clean_strict_json_unchanged() {
    let input = br#"{"a":[1,2],"b":"x","c":true,"d":null}"#;
    let result = clean_dirty_json(input).unwrap();
    assert_eq!(result, input.to_vec());
}

#[test]
fn test_comment_stripping() {
    let input = b"{\n  // line comment\n  a: 1,\n  /* block comment */\n  b: 2\n}";
    let result = text(clean_dirty_json(input));
    assert!(!result.contains("line comment"));
    assert!(!result.contains("block comment"));
    assert_eq!(result, r#"{"a":1,"b":2}"#);
}

#[test]
fn test_unterminated_string_error() {
    let input = br#"{"name": "alice"#;
    let err = clean_dirty_json(input).unwrap_err();
    assert_eq!(err.message, b"Unterminated string".to_vec());
    assert_eq!(err.position, 9);

    let err2 = clean_dirty_json_simd(input).unwrap_err();
    assert_eq!(err2.message, b"Unterminated string".to_vec());
    assert_eq!(err2.position, 9);
}

#[test]
fn test_invalid_hex_error() {
    let input = br#"{"v": 0x}"#;
    let err = clean_dirty_json(input).unwrap_err();
    assert_eq!(err.message, b"Invalid hex number".to_vec());
    assert_eq!(err.position, 6);

    let err2 = clean_dirty_json_simd(input).unwrap_err();
    assert_eq!(err2.message, b"Invalid hex number".to_vec());
    assert_eq!(err2.position, 6);
}

#[test]
fn test_unexpected_character_error() {
    let err = clean_dirty_json(b"@").unwrap_err();
    assert_eq!(err.message, b"Unexpected character: @".to_vec());
    assert_eq!(err.position, 0);

    let err2 = clean_dirty_json_simd(b"{@}").unwrap_err();
    assert_eq!(err2.message, b"Unexpected character: @".to_vec());
    assert_eq!(err2.position, 1);
}

#[test]
fn test_end_after_plus_error() {
    let err = clean_dirty_json(b"+").unwrap_err();
    assert_eq!(err.message, b"Unexpected end after +".to_vec());
    assert_eq!(err.position, 1);
}

#[test]
fn test_hex_exact_values() {
    assert_eq!(
        clean_dirty_json(br#"{"v": 0x0}"#).unwrap(),
        br#"{"v":0}"#.to_vec()
    );
    assert_eq!(
        clean_dirty_json(br#"{"v": 0xDEADBEEF}"#).unwrap(),
        br#"{"v":3735928559}"#.to_vec()
    );
    assert_eq!(
        clean_dirty_json(br#"{"v": 0xffffffffffffffff}"#).unwrap(),
        br#"{"v":18446744073709551615}"#.to_vec()
    );
}

#[test]
fn test_hex_overflow_kept_raw() {
    // seventeen hex digits exceed the largest representable value
    let input = br#"{"v": 0x10000000000000000}"#;
    let result = clean_dirty_json(input).unwrap();
    assert_eq!(result, br#"{"v":0x10000000000000000}"#.to_vec());
}

#[test]
fn test_escaped_quote_in_string() {
    let input = br#"{"a": "x\"y"}"#;
    let result = clean_dirty_json(input).unwrap();
    assert_eq!(result, br#"{"a":"x\"y"}"#.to_vec());
}

#[test]
fn test_single_quoted_with_inner_double_quote() {
    // the inner double quote is unescaped, so reconstruction escapes it
    let input = b"{'a': 'x\"y'}";
    let result = clean_dirty_json(input).unwrap();
    assert_eq!(result, br#"{"a":"x\"y"}"#.to_vec());
}

#[test]
fn test_empty_input() {
    assert_eq!(clean_dirty_json(b"").unwrap(), Vec::<u8>::new());
    assert_eq!(clean_dirty_json(b"   // only a comment").unwrap(), Vec::<u8>::new());
}

#[test]
fn test_leading_plus_dropped() {
    let input = br#"{"a": +5}"#;
    assert_eq!(clean_dirty_json(input).unwrap(), br#"{"a":5}"#.to_vec());
}

#[test]
fn test_keywords() {
    let input = b"{ a: true, b: false, c: null }";
    assert_eq!(
        clean_dirty_json(input).unwrap(),
        br#"{"a":true,"b":false,"c":null}"#.to_vec()
    );
}

#[test]
fn test_token_new_and_parse_error_new() {
    let t = Token::new(TokenType::Number, b"42".to_vec(), 3, 5);
    assert_eq!(t.token_type, TokenType::Number);
    assert_eq!(t.value, b"42".to_vec());
    assert_eq!(t.start, 3);
    assert_eq!(t.end, 5);

    let e = ParseError::new(b"boom".to_vec(), 7);
    assert_eq!(e.message, b"boom".to_vec());
    assert_eq!(e.position, 7);
}

#[test]
fn test_tokenize_stream_shape() {
    let tokens = tokenize(br#"{"a": 1}"#).unwrap();
    let kinds: Vec<TokenType> = tokens.iter().map(|t| t.token_type).collect();
    assert_eq!(
        kinds,
        vec![
            TokenType::LeftBrace,
            TokenType::String,
            TokenType::Colon,
            TokenType::Number,
            TokenType::RightBrace,
            TokenType::EOF,
        ]
    );
    assert_eq!(tokens[1].value, b"a".to_vec());
    assert_eq!(tokens[3].value, b"1".to_vec());
    assert_eq!(tokens[1].start, 1);
    assert_eq!(tokens[1].end, 4);
}

#[test]
fn test_reconstruct_direct() {
    let tokens = vec![
        Token::new(TokenType::LeftBracket, Vec::new(), 0, 1),
        Token::new(TokenType::Identifier, b"key".to_vec(), 1, 4),
        Token::new(TokenType::Comma, Vec::new(), 4, 5),
        Token::new(TokenType::RightBracket, Vec::new(), 5, 6),
        Token::new(TokenType::EOF, Vec::new(), 6, 6),
    ];
    assert_eq!(molt::reconstruct_json(&tokens), br#"["key"]"#.to_vec());
}

#[test]
fn test_number_forms() {
    let input = br#"[1.5, -2, 3e10, 1E-5, .5]"#;
    assert_eq!(
        clean_dirty_json(input).unwrap(),
        br#"[1.5,-2,3e10,1E-5,.5]"#.to_vec()
    );
}
