//! Lexing: source bytes to instruction tokens.

use vstd::prelude::*;
use vstd::string::StringSliceAdditionalSpecFns;

verus! {

/// One instruction of the language, as it appears in source text.
#[derive(Debug, Clone, Copy, PartialEq, Eq, Structural)]
pub enum Token {
    MoveRight,
    MoveLeft,
    Increment,
    Decrement,
    Write,
    Read,
    JumpIfFalsy,
    JumpIfTruthy,
}

/// The byte `>`.
pub const CH_MOVE_RIGHT: u8 = 62;

/// The byte `<`.
pub const CH_MOVE_LEFT: u8 = 60;

/// The byte `+`.
pub const CH_INCREMENT: u8 = 43;

/// The byte `-`.
pub const CH_DECREMENT: u8 = 45;

/// The byte `.`.
pub const CH_WRITE: u8 = 46;

/// The byte `,`.
pub const CH_READ: u8 = 44;

/// The byte `[`.
pub const CH_JUMP_IF_FALSY: u8 = 91;

/// The byte `]`.
pub const CH_JUMP_IF_TRUTHY: u8 = 93;

/// The token that a source byte stands for, if it is one of the eight
/// instruction characters.
pub open spec fn token_of_byte(b: u8) -> Option<Token> {
    if b == CH_MOVE_RIGHT {
        Some(Token::MoveRight)
    } else if b == CH_MOVE_LEFT {
        Some(Token::MoveLeft)
    } else if b == CH_INCREMENT {
        Some(Token::Increment)
    } else if b == CH_DECREMENT {
        Some(Token::Decrement)
    } else if b == CH_WRITE {
        Some(Token::Write)
    } else if b == CH_READ {
        Some(Token::Read)
    } else if b == CH_JUMP_IF_FALSY {
        Some(Token::JumpIfFalsy)
    } else if b == CH_JUMP_IF_TRUTHY {
        Some(Token::JumpIfTruthy)
    } else {
        None
    }
}

/// The tokens of a byte sequence: the tokens of its instruction bytes, in
/// source order; every other byte contributes nothing.
pub open spec fn tokens_of(bytes: Seq<u8>) -> Seq<Token>
    decreases bytes.len(),
{
    if bytes.len() == 0 {
        Seq::empty()
    } else {
        let front = tokens_of(bytes.drop_last());
        match token_of_byte(bytes.last()) {
            Some(t) => front.push(t),
            None => front,
        }
    }
}

/// Exec counterpart of [`token_of_byte`].
pub fn classify(b: u8) -> (r: Option<Token>)
    ensures
        r == token_of_byte(b),
{
    if b == CH_MOVE_RIGHT {
        Some(Token::MoveRight)
    } else if b == CH_MOVE_LEFT {
        Some(Token::MoveLeft)
    } else if b == CH_INCREMENT {
        Some(Token::Increment)
    } else if b == CH_DECREMENT {
        Some(Token::Decrement)
    } else if b == CH_WRITE {
        Some(Token::Write)
    } else if b == CH_READ {
        Some(Token::Read)
    } else if b == CH_JUMP_IF_FALSY {
        Some(Token::JumpIfFalsy)
    } else if b == CH_JUMP_IF_TRUTHY {
        Some(Token::JumpIfTruthy)
    } else {
        None
    }
}

/// Scans the source byte by byte and returns its instruction tokens in order.
pub fn tokenize(input: &str) -> (tokens: Vec<Token>)
    ensures
        tokens@ == tokens_of(input.spec_bytes()),
{
    let bytes = input.as_bytes();
    let mut tokens: Vec<Token> = Vec::new();
    let mut i: usize = 0;
    while i < bytes.len()
        invariant
            i <= bytes.len(),
            bytes@ == input.spec_bytes(),
            tokens@ == tokens_of(bytes@.take(i as int)),
        decreases bytes.len() - i,
    {
        proof {
            assert(bytes@.take(i + 1).drop_last() == bytes@.take(i as int));
        }
        match classify(bytes[i]) {
            Some(t) => tokens.push(t),
            None => {},
        }
        i += 1;
    }
    proof {
        assert(bytes@.take(i as int) == bytes@);
    }
    tokens
}

/// Lexing distributes over concatenation.
pub proof fn lemma_tokens_of_concat(a: Seq<u8>, b: Seq<u8>)
    ensures
        tokens_of(a + b) == tokens_of(a) + tokens_of(b),
    decreases b.len(),
{
    if b.len() == 0 {
        assert(a + b == a);
        assert(tokens_of(a) + tokens_of(b) == tokens_of(a));
    } else {
        lemma_tokens_of_concat(a, b.drop_last());
        assert((a + b).drop_last() == a + b.drop_last());
        assert((a + b).last() == b.last());
        match token_of_byte(b.last()) {
            Some(t) => {
                assert((tokens_of(a) + tokens_of(b.drop_last())).push(t) == tokens_of(a)
                    + tokens_of(b.drop_last()).push(t));
            },
            None => {},
        }
    }
}

/// Bytes that are not instructions are invisible to the lexer: removing one
/// from anywhere in the source leaves the tokens unchanged.
pub proof fn lemma_tokens_of_ignores_other_bytes(a: Seq<u8>, b: u8, c: Seq<u8>)
    requires
        token_of_byte(b) is None,
    ensures
        tokens_of(a.push(b) + c) == tokens_of(a + c),
{
    lemma_tokens_of_concat(a.push(b), c);
    lemma_tokens_of_concat(a, c);
    assert(a.push(b).drop_last() == a);
}

} // verus!
