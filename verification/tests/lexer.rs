use bf_interpreter::lexer::{classify, tokenize, Token};

#[test]
fn tokenize_maps_the_eight_characters() {
    assert_eq!(
        tokenize("><+-.,[]"),
        vec![
            Token::MoveRight,
            Token::MoveLeft,
            Token::Increment,
            Token::Decrement,
            Token::Write,
            Token::Read,
            Token::JumpIfFalsy,
            Token::JumpIfTruthy,
        ]
    );
}

#[test]
fn tokenize_ignores_other_characters() {
    assert_eq!(tokenize("a>b<c"), tokenize("><"));
    assert_eq!(tokenize("a>b<c"), vec![Token::MoveRight, Token::MoveLeft]);
}

#[test]
fn tokenize_empty_and_comment_only() {
    assert_eq!(tokenize(""), vec![]);
    assert_eq!(tokenize("hello world\n\t!"), vec![]);
}

#[test]
fn tokenize_skips_multi_byte_characters() {
    assert_eq!(tokenize("\u{e9}+\u{1F600}-"), vec![Token::Increment, Token::Decrement]);
}

#[test]
fn tokenize_keeps_source_order() {
    assert_eq!(
        tokenize("+ [ - ] ."),
        vec![
            Token::Increment,
            Token::JumpIfFalsy,
            Token::Decrement,
            Token::JumpIfTruthy,
            Token::Write,
        ]
    );
}

#[test]
fn classify_single_bytes() {
    assert_eq!(classify(b'>'), Some(Token::MoveRight));
    assert_eq!(classify(b'<'), Some(Token::MoveLeft));
    assert_eq!(classify(b'+'), Some(Token::Increment));
    assert_eq!(classify(b'-'), Some(Token::Decrement));
    assert_eq!(classify(b'.'), Some(Token::Write));
    assert_eq!(classify(b','), Some(Token::Read));
    assert_eq!(classify(b'['), Some(Token::JumpIfFalsy));
    assert_eq!(classify(b']'), Some(Token::JumpIfTruthy));
    assert_eq!(classify(b' '), None);
    assert_eq!(classify(0), None);
    assert_eq!(classify(255), None);
}
