use bf_interpreter::lexer::{tokenize, Token};
use bf_interpreter::parser::{get_loops_matches, parse, Construct, ParsingError};

#[test]
fn parsing_loop() {
    let instructions = vec![Token::JumpIfFalsy, Token::JumpIfTruthy];

    let result = parse(&instructions);

    let expected = vec![
        Construct::JumpIfFalsy { jump_idx: 1 },
        Construct::JumpIfTruthy { jump_idx: 0 },
    ];

    assert_eq!(result, Ok(expected));
}

#[test]
fn parsing_loop_2() {
    let instructions = vec![
        Token::Increment,
        Token::JumpIfFalsy,
        Token::MoveRight,
        Token::Increment,
        Token::JumpIfTruthy,
    ];

    let result = parse(&instructions);

    let expected = vec![
        Construct::Increment,
        Construct::JumpIfFalsy { jump_idx: 4 },
        Construct::MoveRight,
        Construct::Increment,
        Construct::JumpIfTruthy { jump_idx: 1 },
    ];

    assert_eq!(result, Ok(expected));
}

#[test]
fn parsing_nested_loop() {
    let instructions = vec![
        Token::JumpIfFalsy,
        Token::JumpIfFalsy,
        Token::JumpIfTruthy,
        Token::JumpIfTruthy,
    ];

    let result = parse(&instructions);

    let expected = vec![
        Construct::JumpIfFalsy { jump_idx: 3 },
        Construct::JumpIfFalsy { jump_idx: 2 },
        Construct::JumpIfTruthy { jump_idx: 1 },
        Construct::JumpIfTruthy { jump_idx: 0 },
    ];

    assert_eq!(result, Ok(expected));
}

#[test]
fn parsing_unmatched_opening() {
    let instructions = vec![Token::JumpIfFalsy];

    let result = parse(&instructions);

    assert_eq!(result, Err(ParsingError::UnmatchedLoopConstruct { idx: 0 }));
}

#[test]
fn parsing_unmatched_closing() {
    let instructions = vec![Token::JumpIfTruthy];

    let result = parse(&instructions);

    assert_eq!(result, Err(ParsingError::UnmatchedLoopConstruct { idx: 0 }));
}

#[test]
fn parsing_unmatched_nested_opening() {
    let instructions = vec![Token::JumpIfFalsy, Token::JumpIfFalsy, Token::JumpIfTruthy];

    let result = parse(&instructions);

    assert_eq!(result, Err(ParsingError::UnmatchedLoopConstruct { idx: 0 }));
}

#[test]
fn parsing_unmatched_nested_closing() {
    let instructions = vec![Token::JumpIfFalsy, Token::JumpIfTruthy, Token::JumpIfTruthy];

    let result = parse(&instructions);

    assert_eq!(result, Err(ParsingError::UnmatchedLoopConstruct { idx: 2 }));
}

#[test]
fn parsing_n_loops() {
    let instructions = vec![
        Token::JumpIfFalsy,
        Token::JumpIfTruthy,
        Token::JumpIfFalsy,
        Token::JumpIfTruthy,
    ];

    let result = parse(&instructions);

    let expected = vec![
        Construct::JumpIfFalsy { jump_idx: 1 },
        Construct::JumpIfTruthy { jump_idx: 0 },
        Construct::JumpIfFalsy { jump_idx: 3 },
        Construct::JumpIfTruthy { jump_idx: 2 },
    ];

    assert_eq!(result, Ok(expected));
}

#[test]
fn parsing_empty() {
    assert_eq!(parse(&[]), Ok(vec![]));
}

#[test]
fn parsing_plain_tokens_one_for_one() {
    let instructions = vec![
        Token::MoveRight,
        Token::MoveLeft,
        Token::Increment,
        Token::Decrement,
        Token::Write,
        Token::Read,
    ];
    let expected = vec![
        Construct::MoveRight,
        Construct::MoveLeft,
        Construct::Increment,
        Construct::Decrement,
        Construct::Write,
        Construct::Read,
    ];
    assert_eq!(parse(&instructions), Ok(expected));
}

#[test]
fn parsing_reports_innermost_of_several_pending_opens() {
    // [ [ ] [ [ : opens at 0, 3 and 4 stay open; 4 is the innermost.
    let instructions = tokenize("[[][[");
    assert_eq!(parse(&instructions), Err(ParsingError::UnmatchedLoopConstruct { idx: 4 }));
}

#[test]
fn parsing_reports_first_of_several_stray_closes() {
    let instructions = tokenize("+]]");
    assert_eq!(parse(&instructions), Err(ParsingError::UnmatchedLoopConstruct { idx: 1 }));
}

#[test]
fn parsing_reports_stray_close_before_pending_open() {
    let instructions = tokenize("][");
    assert_eq!(parse(&instructions), Err(ParsingError::UnmatchedLoopConstruct { idx: 0 }));
    let instructions = tokenize("[]][");
    assert_eq!(parse(&instructions), Err(ParsingError::UnmatchedLoopConstruct { idx: 2 }));
}

#[test]
fn parsed_pairs_are_mutual_and_nested() {
    let instructions = tokenize("+[>[-]<[[.],]]-[]");
    let program = parse(&instructions).unwrap();
    assert_eq!(program.len(), instructions.len());
    let mut pairs = vec![];
    for (i, c) in program.iter().enumerate() {
        match *c {
            Construct::JumpIfFalsy { jump_idx } => {
                assert_eq!(instructions[i], Token::JumpIfFalsy);
                assert_eq!(instructions[jump_idx], Token::JumpIfTruthy);
                assert!(i < jump_idx);
                assert_eq!(program[jump_idx], Construct::JumpIfTruthy { jump_idx: i });
                pairs.push((i, jump_idx));
            }
            Construct::JumpIfTruthy { jump_idx } => {
                assert_eq!(program[jump_idx], Construct::JumpIfFalsy { jump_idx: i });
            }
            _ => {}
        }
    }
    assert_eq!(pairs, vec![(1, 13), (3, 5), (7, 12), (8, 10), (15, 16)]);
    for &(i, j) in &pairs {
        for &(i2, j2) in &pairs {
            assert!(!(i < i2 && i2 < j && j < j2));
        }
    }
}

#[test]
fn match_table_holds_partners_and_zeros() {
    let instructions = tokenize("+[>[-]<]");
    assert_eq!(get_loops_matches(&instructions), Ok(vec![0, 7, 0, 5, 0, 3, 0, 1]));
    let instructions = tokenize("[[]");
    assert_eq!(
        get_loops_matches(&instructions),
        Err(ParsingError::UnmatchedLoopConstruct { idx: 0 })
    );
}
