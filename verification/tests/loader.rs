use intcode::loader::{parse_program, parse_token, LoadError};

#[test]
fn test_parse_program_round() {
    let text: Vec<u8> = b"1,-2,99".to_vec();
    assert_eq!(parse_program(&text), Ok(vec![1, -2, 99]));

    let text: Vec<u8> = b"2,4,4,5,99,0".to_vec();
    assert_eq!(parse_program(&text), Ok(vec![2, 4, 4, 5, 99, 0]));

    let text: Vec<u8> = b"+7".to_vec();
    assert_eq!(parse_program(&text), Ok(vec![7]));
}

#[test]
fn test_parse_program_rejects() {
    // A non-numeric token fails the whole load.
    let text: Vec<u8> = b"1,x,3".to_vec();
    assert_eq!(parse_program(&text), Err(LoadError::Parse));

    // Empty text is one empty token, and empty tokens are not integers.
    let text: Vec<u8> = Vec::new();
    assert_eq!(parse_program(&text), Err(LoadError::Parse));

    // A trailing comma leaves an empty final token.
    let text: Vec<u8> = b"1,".to_vec();
    assert_eq!(parse_program(&text), Err(LoadError::Parse));

    // Whitespace is not trimmed by the grammar.
    let text: Vec<u8> = b"1, 2".to_vec();
    assert_eq!(parse_program(&text), Err(LoadError::Parse));
}

#[test]
fn test_parse_token_bounds() {
    let tok: Vec<u8> = b"2147483647".to_vec();
    assert_eq!(parse_token(&tok), Ok(2147483647));

    let tok: Vec<u8> = b"2147483648".to_vec();
    assert_eq!(parse_token(&tok), Err(LoadError::Parse));

    let tok: Vec<u8> = b"-2147483648".to_vec();
    assert_eq!(parse_token(&tok), Ok(-2147483648));

    let tok: Vec<u8> = b"-2147483649".to_vec();
    assert_eq!(parse_token(&tok), Err(LoadError::Parse));

    let tok: Vec<u8> = b"99999999999999999999".to_vec();
    assert_eq!(parse_token(&tok), Err(LoadError::Parse));

    let tok: Vec<u8> = b"-".to_vec();
    assert_eq!(parse_token(&tok), Err(LoadError::Parse));

    let tok: Vec<u8> = b"0".to_vec();
    assert_eq!(parse_token(&tok), Ok(0));
}
