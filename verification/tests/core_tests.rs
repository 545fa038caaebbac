use molt::{
    is_structural_char, is_whitespace, skip_whitespace_and_comments, StructType, StructuralIndex,
};
use molt::{find_structural_positions_scalar, find_structural_positions_simd};

#[test]
fn test_is_whitespace() {
    assert!(is_whitespace(' '));
    assert!(is_whitespace('\t'));
    assert!(is_whitespace('\n'));
    assert!(is_whitespace('\r'));
    assert!(!is_whitespace('a'));
}

#[test]
fn test_skip_whitespace() {
    assert_eq!(skip_whitespace_and_comments("   hello", 0), 3);
    assert_eq!(skip_whitespace_and_comments("\t\n\rhello", 0), 3);
    assert_eq!(skip_whitespace_and_comments("hello", 0), 0);
}

#[test]
fn test_skip_comments() {
    assert_eq!(skip_whitespace_and_comments("// comment\nhello", 0), 11);
    assert_eq!(skip_whitespace_and_comments("/* comment */hello", 0), 13);
}

#[test]
fn test_find_structural_positions() {
    let input = br#"{"name":"alice","age":30}"#;
    let positions = find_structural_positions_simd(input);

    // Should find: { " " : " " , " " : } = 11 structural chars
    assert_eq!(positions.len(), 11);
    assert_eq!(input[positions[0]], b'{');
    assert_eq!(input[positions[1]], b'"');
    assert_eq!(input[positions[10]], b'}');
}

#[test]
fn test_structural_index() {
    let input = br#"{"key":"value"}"#;
    let index = StructuralIndex::build(input);

    assert_eq!(index.len(), 7); // { " " : " " }
    assert_eq!(index.types[0], StructType::BraceOpen);
    assert_eq!(index.types[6], StructType::BraceClose);
}

#[test]
fn test_is_structural_char() {
    assert!(is_structural_char(b'{'));
    assert!(is_structural_char(b'}'));
    assert!(is_structural_char(b'"'));
    assert!(is_structural_char(b'\''));
    assert!(!is_structural_char(b'a'));
    assert!(!is_structural_char(b'1'));
}

#[test]
fn test_scanner_paths_agree() {
    let buffers: [&[u8]; 5] = [
        b"",
        b"no structural bytes at all ...",
        br#"{"a":[1,2,{'b':3}],"c":"d,e"}"#,
        b"a much longer buffer, longer than sixteen bytes: {}{}[][]::,,\"\"''",
        b"\\\"'{[]}",
    ];
    for input in buffers {
        assert_eq!(
            find_structural_positions_simd(input),
            find_structural_positions_scalar(input)
        );
    }
}

#[test]
fn test_scanner_positions_ascending() {
    let input = br#"{"items": [1, 2, 3,], "total": 3,}"#;
    let positions = find_structural_positions_scalar(input);
    for w in positions.windows(2) {
        assert!(w[0] < w[1]);
    }
    for &p in &positions {
        assert!(is_structural_char(input[p]));
    }
}

#[test]
fn test_structural_index_get() {
    let input = br#"[1]"#;
    let index = StructuralIndex::build(input);
    assert_eq!(index.len(), 2);
    assert!(!index.is_empty());
    assert_eq!(index.get(0), Some((0, StructType::BracketOpen)));
    assert_eq!(index.get(1), Some((2, StructType::BracketClose)));
    assert_eq!(index.get(2), None);
    assert!(StructuralIndex::build(b"abc").is_empty());
}

#[test]
fn test_struct_type_from_byte() {
    assert_eq!(StructType::from_byte(b'{'), Some(StructType::BraceOpen));
    assert_eq!(StructType::from_byte(b'}'), Some(StructType::BraceClose));
    assert_eq!(StructType::from_byte(b'['), Some(StructType::BracketOpen));
    assert_eq!(StructType::from_byte(b']'), Some(StructType::BracketClose));
    assert_eq!(StructType::from_byte(b':'), Some(StructType::Colon));
    assert_eq!(StructType::from_byte(b','), Some(StructType::Comma));
    assert_eq!(StructType::from_byte(b'"'), Some(StructType::Quote));
    assert_eq!(StructType::from_byte(b'\''), Some(StructType::SingleQuote));
    assert_eq!(StructType::from_byte(b'x'), None);
}

#[test]
fn test_skip_range_bounded() {
    let input = b"  /* note */ 42";
    assert_eq!(
        molt::skip_whitespace_and_comments_range(input, 0, input.len()),
        13
    );
    // a bound inside the comment stops the skip at that bound
    assert_eq!(molt::skip_whitespace_and_comments_range(input, 0, 5), 5);
    assert_eq!(molt::skip_whitespace_and_comments_range(input, 14, 15), 14);
}

#[test]
fn test_classifiers() {
    assert!(molt::is_digit('7'));
    assert!(!molt::is_digit('x'));
    assert!(molt::is_identifier_start('_'));
    assert!(molt::is_identifier_start('$'));
    assert!(molt::is_identifier_start('a'));
    assert!(!molt::is_identifier_start('1'));
    assert!(molt::is_identifier_char('1'));
    assert!(molt::is_identifier_char('Z'));
    assert!(!molt::is_identifier_char('-'));
}
