//! Parsing: tokens to instructions whose loop delimiters carry the index of
//! their partner.

use crate::lexer::Token;
use vstd::prelude::*;

verus! {

/// A parsed instruction. A jump holds the index of the matching jump in the
/// same instruction sequence.
#[derive(Debug, PartialEq, Eq, Structural, Clone, Copy)]
pub enum Construct {
    MoveRight,
    MoveLeft,
    Increment,
    Decrement,
    Write,
    Read,
    JumpIfFalsy { jump_idx: usize },
    JumpIfTruthy { jump_idx: usize },
}

#[derive(Debug, PartialEq, Eq, Structural, Clone, Copy)]
pub enum ParsingError {
    /// A loop delimiter at `idx` has no partner.
    UnmatchedLoopConstruct { idx: usize },
}

/// How much a token changes the loop nesting depth.
pub open spec fn depth_change(t: Token) -> int {
    match t {
        Token::JumpIfFalsy => 1,
        Token::JumpIfTruthy => -1,
        _ => 0,
    }
}

/// Loop nesting depth after the first `k` tokens: opens minus closes.
pub open spec fn depth(tokens: Seq<Token>, k: int) -> int
    decreases k,
{
    if k <= 0 {
        0
    } else {
        depth(tokens, k - 1) + depth_change(tokens[k - 1])
    }
}

/// No prefix closes more loops than it opens.
pub open spec fn never_negative(tokens: Seq<Token>) -> bool {
    forall|m: int| 0 <= m <= tokens.len() ==> #[trigger] depth(tokens, m) >= 0
}

/// Every loop delimiter has a partner.
pub open spec fn balanced(tokens: Seq<Token>) -> bool {
    never_negative(tokens) && depth(tokens, tokens.len() as int) == 0
}

/// The loop opened at `i` is still open after the first `k` tokens.
pub open spec fn open_until(tokens: Seq<Token>, i: int, k: int) -> bool {
    forall|m: int| i < m <= k ==> #[trigger] depth(tokens, m) > depth(tokens, i)
}

/// The loop opened at `i` is closed at `j`: the depth first returns to its
/// value before `i` right after `j`.
pub open spec fn is_pair(tokens: Seq<Token>, i: int, j: int) -> bool {
    &&& 0 <= i < j < tokens.len()
    &&& tokens[i] == Token::JumpIfFalsy
    &&& tokens[j] == Token::JumpIfTruthy
    &&& depth(tokens, j + 1) == depth(tokens, i)
    &&& open_until(tokens, i, j)
}

/// `j` holds the first close that has no loop to close.
pub open spec fn is_first_stray_close(tokens: Seq<Token>, j: int) -> bool {
    &&& 0 <= j < tokens.len()
    &&& tokens[j] == Token::JumpIfTruthy
    &&& depth(tokens, j) == 0
    &&& forall|m: int| 0 <= m <= j ==> #[trigger] depth(tokens, m) >= 0
}

/// `i` holds an open whose loop is never closed.
pub open spec fn is_pending_open(tokens: Seq<Token>, i: int) -> bool {
    &&& 0 <= i < tokens.len()
    &&& tokens[i] == Token::JumpIfFalsy
    &&& open_until(tokens, i, tokens.len() as int)
}

/// `i` holds the innermost open whose loop is never closed: the last one.
pub open spec fn is_innermost_pending_open(tokens: Seq<Token>, i: int) -> bool {
    &&& is_pending_open(tokens, i)
    &&& forall|k: int| i < k < tokens.len() ==> !#[trigger] is_pending_open(tokens, k)
}

/// `idx` is the delimiter that parsing reports: the first stray close, or,
/// where there is none, the innermost open that is never closed.
pub open spec fn is_unmatched(tokens: Seq<Token>, idx: int) -> bool {
    ||| is_first_stray_close(tokens, idx)
    ||| (never_negative(tokens) && is_innermost_pending_open(tokens, idx))
}

/// The index of the delimiter that matches the one at `i`.
pub open spec fn partner(tokens: Seq<Token>, i: int) -> int {
    if tokens[i] == Token::JumpIfFalsy {
        choose|j: int| is_pair(tokens, i, j)
    } else {
        choose|j: int| is_pair(tokens, j, i)
    }
}

/// The instruction that the token at `i` becomes.
pub open spec fn construct_at(tokens: Seq<Token>, i: int) -> Construct {
    match tokens[i] {
        Token::MoveRight => Construct::MoveRight,
        Token::MoveLeft => Construct::MoveLeft,
        Token::Increment => Construct::Increment,
        Token::Decrement => Construct::Decrement,
        Token::Write => Construct::Write,
        Token::Read => Construct::Read,
        Token::JumpIfFalsy => Construct::JumpIfFalsy { jump_idx: partner(tokens, i) as usize },
        Token::JumpIfTruthy => Construct::JumpIfTruthy { jump_idx: partner(tokens, i) as usize },
    }
}

/// The instruction sequence of a balanced token sequence.
pub open spec fn parsed(tokens: Seq<Token>) -> Seq<Construct> {
    Seq::new(tokens.len(), |i: int| construct_at(tokens, i))
}

/// `matches` holds, for every delimiter of `tokens`, the index of its
/// partner, and zero everywhere else.
pub open spec fn is_match_table(tokens: Seq<Token>, matches: Seq<usize>) -> bool {
    &&& matches.len() == tokens.len()
    &&& forall|i: int|
        0 <= i < tokens.len() ==> match #[trigger] tokens[i] {
            Token::JumpIfFalsy => is_pair(tokens, i, matches[i] as int),
            Token::JumpIfTruthy => is_pair(tokens, matches[i] as int, i),
            _ => matches[i] == 0,
        }
}

/// Jumps come in mutually linked pairs: a jump-if-falsy at `i` that targets
/// `j` finds at `j` a later jump-if-truthy that targets `i`, and the other
/// way round.
pub open spec fn well_linked(program: Seq<Construct>) -> bool {
    forall|i: int|
        0 <= i < program.len() ==> match #[trigger] program[i] {
            Construct::JumpIfFalsy { jump_idx } => i < jump_idx < program.len() && program[jump_idx as int]
                == (Construct::JumpIfTruthy { jump_idx: i as usize }),
            Construct::JumpIfTruthy { jump_idx } => jump_idx < i && program[jump_idx as int]
                == (Construct::JumpIfFalsy { jump_idx: i as usize }),
            _ => true,
        }
}

/// A loop has one close.
pub proof fn lemma_pair_close_unique(tokens: Seq<Token>, i: int, j1: int, j2: int)
    requires
        is_pair(tokens, i, j1),
        is_pair(tokens, i, j2),
    ensures
        j1 == j2,
{
    if j1 < j2 {
        assert(depth(tokens, j1 + 1) > depth(tokens, i));
    }
    if j2 < j1 {
        assert(depth(tokens, j2 + 1) > depth(tokens, i));
    }
}

/// A close ends one loop.
pub proof fn lemma_pair_open_unique(tokens: Seq<Token>, i1: int, i2: int, j: int)
    requires
        is_pair(tokens, i1, j),
        is_pair(tokens, i2, j),
    ensures
        i1 == i2,
{
    if i1 < i2 {
        assert(depth(tokens, i2) > depth(tokens, i1));
    }
    if i2 < i1 {
        assert(depth(tokens, i1) > depth(tokens, i2));
    }
}

/// Loops nest: of two loops, one that opens inside the other also closes
/// inside it.
pub proof fn lemma_pairs_do_not_cross(tokens: Seq<Token>, i: int, j: int, i2: int, j2: int)
    requires
        is_pair(tokens, i, j),
        is_pair(tokens, i2, j2),
        i < i2 < j,
    ensures
        j2 < j,
{
    if j2 > j {
        assert(depth(tokens, i2) > depth(tokens, i));
        assert(depth(tokens, j + 1) > depth(tokens, i2));
    }
}

/// Parsing reports one index.
pub proof fn lemma_unmatched_unique(tokens: Seq<Token>, a: int, b: int)
    requires
        is_unmatched(tokens, a),
        is_unmatched(tokens, b),
    ensures
        a == b,
{
    if is_first_stray_close(tokens, a) {
        assert(depth(tokens, a + 1) == -1);
    }
    if is_first_stray_close(tokens, b) {
        assert(depth(tokens, b + 1) == -1);
    }
}

/// A balanced sequence has no stray close and no open that is never
/// closed.
pub proof fn lemma_balanced_all_matched(tokens: Seq<Token>)
    requires
        balanced(tokens),
    ensures
        forall|j: int| !is_first_stray_close(tokens, j),
        forall|i: int| !is_pending_open(tokens, i),
{
    assert forall|j: int| !is_first_stray_close(tokens, j) by {
        if is_first_stray_close(tokens, j) {
            assert(depth(tokens, j + 1) == -1);
        }
    }
    assert forall|i: int| !is_pending_open(tokens, i) by {
        if is_pending_open(tokens, i) {
            assert(depth(tokens, tokens.len() as int) > depth(tokens, i));
            assert(depth(tokens, i) >= 0);
        }
    }
}

/// Where a sequence has a first stray close, that close is the delimiter
/// reported.
pub proof fn lemma_stray_close_is_reported(tokens: Seq<Token>, j: int, idx: int)
    requires
        is_first_stray_close(tokens, j),
        is_unmatched(tokens, idx),
    ensures
        idx == j,
{
    lemma_unmatched_unique(tokens, j, idx);
}

/// Where a sequence has no stray close but an open that is never closed, the
/// delimiter reported is the innermost such open.
pub proof fn lemma_pending_open_is_reported(tokens: Seq<Token>, i: int, idx: int)
    requires
        never_negative(tokens),
        is_pending_open(tokens, i),
        is_unmatched(tokens, idx),
    ensures
        is_innermost_pending_open(tokens, idx),
        i <= idx,
{
    if is_first_stray_close(tokens, idx) {
        assert(depth(tokens, idx + 1) == -1);
    }
}

/// An open at `i` that is still open at the end, right below the final
/// depth, is the innermost one that is never closed.
proof fn lemma_top_is_innermost(tokens: Seq<Token>, i: int)
    requires
        is_pending_open(tokens, i),
        depth(tokens, tokens.len() as int) == depth(tokens, i) + 1,
    ensures
        is_innermost_pending_open(tokens, i),
{
    assert forall|k: int| i < k < tokens.len() implies !#[trigger] is_pending_open(tokens, k) by {
        assert(depth(tokens, k) > depth(tokens, i));
        if is_pending_open(tokens, k) {
            assert(depth(tokens, tokens.len() as int) > depth(tokens, k));
        }
    }
}

/// Matches every loop delimiter with its partner in one pass, keeping the
/// indices of the loops that are still open on a stack.
///
/// Succeeds exactly on balanced sequences. Otherwise reports the first close
/// that has no loop to close or, where there is none, the innermost open that
/// is never closed.
pub fn get_loops_matches(instructions: &[Token]) -> (r: Result<Vec<usize>, ParsingError>)
    ensures
        match r {
            Ok(matches) => balanced(instructions@) && is_match_table(instructions@, matches@),
            Err(ParsingError::UnmatchedLoopConstruct { idx }) => !balanced(instructions@)
                && is_unmatched(instructions@, idx as int),
        },
{
    let ghost tokens = instructions@;
    let n: usize = instructions.len();
    let mut pending: Vec<usize> = Vec::new();
    let mut result: Vec<usize> = vec![0usize; n];
    let mut idx: usize = 0;
    while idx < n
        invariant
            tokens == instructions@,
            n == tokens.len(),
            idx <= n,
            result.len() == n,
            forall|m: int| 0 <= m <= idx ==> #[trigger] depth(tokens, m) >= 0,
            pending.len() == depth(tokens, idx as int),
            forall|p: int|
                0 <= p < pending.len() ==> {
                    &&& (#[trigger] pending[p]) < idx
                    &&& tokens[pending[p] as int] == Token::JumpIfFalsy
                    &&& depth(tokens, pending[p] as int) == p
                    &&& open_until(tokens, pending[p] as int, idx as int)
                },
            forall|i: int|
                0 <= i < n ==> match #[trigger] tokens[i] {
                    Token::JumpIfFalsy => i < idx ==> is_pair(tokens, i, result[i] as int)
                        || open_until(tokens, i, idx as int),
                    Token::JumpIfTruthy => i < idx ==> is_pair(tokens, result[i] as int, i),
                    _ => result[i] == 0,
                },
        decreases n - idx,
    {
        let ghost before = result@;
        let ghost d = depth(tokens, idx as int);
        assert(depth(tokens, idx + 1) == d + depth_change(tokens[idx as int]));
        match instructions[idx] {
            Token::JumpIfFalsy => {
                pending.push(idx);
            },
            Token::JumpIfTruthy => {
                let match_idx = match pending.pop() {
                    Some(m) => m,
                    None => {
                        return Err(ParsingError::UnmatchedLoopConstruct { idx });
                    },
                };
                result[idx] = match_idx;
                result[match_idx] = idx;
                assert(is_pair(tokens, match_idx as int, idx as int));
                assert forall|i: int| 0 <= i < idx && tokens[i] == Token::JumpIfFalsy implies is_pair(
                    tokens,
                    i,
                    result[i] as int,
                ) || open_until(tokens, i, idx + 1) by {
                    if i != match_idx && !is_pair(tokens, i, before[i] as int) {
                        assert(open_until(tokens, i, idx as int));
                        if i < match_idx {
                            assert(depth(tokens, match_idx as int) > depth(tokens, i));
                        } else {
                            assert(depth(tokens, i) > depth(tokens, match_idx as int));
                            assert(depth(tokens, idx as int) > depth(tokens, i));
                        }
                    }
                }
            },
            _ => {},
        }
        idx += 1;
    }
    if pending.len() > 0 {
        let remaining = pending[pending.len() - 1];
        proof {
            lemma_top_is_innermost(tokens, remaining as int);
        }
        Err(ParsingError::UnmatchedLoopConstruct { idx: remaining })
    } else {
        assert forall|i: int| 0 <= i < n && tokens[i] == Token::JumpIfFalsy implies is_pair(
            tokens,
            i,
            result[i] as int,
        ) by {
            if open_until(tokens, i, n as int) {
                assert(depth(tokens, n as int) > depth(tokens, i));
            }
        }
        Ok(result)
    }
}

/// A match table holds the partner of every delimiter.
proof fn lemma_match_table_partner(tokens: Seq<Token>, matches: Seq<usize>, i: int)
    requires
        is_match_table(tokens, matches),
        0 <= i < tokens.len(),
        tokens[i] == Token::JumpIfFalsy || tokens[i] == Token::JumpIfTruthy,
    ensures
        partner(tokens, i) == matches[i],
        tokens[i] == Token::JumpIfFalsy ==> is_pair(tokens, i, partner(tokens, i)),
        tokens[i] == Token::JumpIfTruthy ==> is_pair(tokens, partner(tokens, i), i),
{
    let m = matches[i] as int;
    if tokens[i] == Token::JumpIfFalsy {
        assert(is_pair(tokens, i, m));
        lemma_pair_close_unique(tokens, i, m, partner(tokens, i));
    } else {
        assert(is_pair(tokens, m, i));
        lemma_pair_open_unique(tokens, m, partner(tokens, i), i);
    }
}

/// Looks for the close of the loop opened at `i`, which is still open after
/// `m` tokens.
proof fn lemma_open_has_close(tokens: Seq<Token>, i: int, m: int) -> (j: int)
    requires
        0 <= i < m <= tokens.len(),
        tokens[i] == Token::JumpIfFalsy,
        open_until(tokens, i, m),
        depth(tokens, tokens.len() as int) <= depth(tokens, i),
    ensures
        is_pair(tokens, i, j),
    decreases tokens.len() - m,
{
    assert(depth(tokens, m) > depth(tokens, i));
    assert(depth(tokens, m + 1) == depth(tokens, m) + depth_change(tokens[m]));
    if depth(tokens, m + 1) > depth(tokens, i) {
        lemma_open_has_close(tokens, i, m + 1)
    } else {
        m
    }
}

/// Looks for the open of the loop closed at `j`, which is open from `m` on.
proof fn lemma_close_has_open(tokens: Seq<Token>, j: int, m: int) -> (i: int)
    requires
        0 <= m <= j < tokens.len(),
        tokens[j] == Token::JumpIfTruthy,
        depth(tokens, j + 1) >= 0,
        forall|k: int| m <= k <= j ==> #[trigger] depth(tokens, k) > depth(tokens, j + 1),
    ensures
        is_pair(tokens, i, j),
    decreases m,
{
    assert(depth(tokens, m) > depth(tokens, j + 1));
    assert(depth(tokens, m) == depth(tokens, m - 1) + depth_change(tokens[m - 1]));
    if depth(tokens, m - 1) > depth(tokens, j + 1) {
        lemma_close_has_open(tokens, j, m - 1)
    } else {
        m - 1
    }
}

/// In a balanced sequence every open has its close and every close its open:
/// the partner of a delimiter is the other end of its loop.
pub proof fn lemma_balanced_partners(tokens: Seq<Token>)
    requires
        balanced(tokens),
    ensures
        forall|i: int|
            0 <= i < tokens.len() && tokens[i] == Token::JumpIfFalsy ==> is_pair(
                tokens,
                i,
                #[trigger] partner(tokens, i),
            ),
        forall|j: int|
            0 <= j < tokens.len() && tokens[j] == Token::JumpIfTruthy ==> is_pair(
                tokens,
                #[trigger] partner(tokens, j),
                j,
            ),
{
    assert forall|i: int| 0 <= i < tokens.len() && tokens[i] == Token::JumpIfFalsy implies is_pair(
        tokens,
        i,
        #[trigger] partner(tokens, i),
    ) by {
        assert(depth(tokens, i) >= 0);
        assert(depth(tokens, i + 1) == depth(tokens, i) + depth_change(tokens[i]));
        let j = lemma_open_has_close(tokens, i, i + 1);
    }
    assert forall|j: int| 0 <= j < tokens.len() && tokens[j] == Token::JumpIfTruthy implies is_pair(
        tokens,
        #[trigger] partner(tokens, j),
        j,
    ) by {
        assert(depth(tokens, j + 1) >= 0);
        assert(depth(tokens, j + 1) == depth(tokens, j) + depth_change(tokens[j]));
        let i = lemma_close_has_open(tokens, j, j);
    }
}

/// The instructions of a balanced token sequence are linked in pairs.
pub proof fn lemma_parsed_well_linked(tokens: Seq<Token>)
    requires
        balanced(tokens),
        tokens.len() <= usize::MAX,
    ensures
        well_linked(parsed(tokens)),
{
    let program = parsed(tokens);
    lemma_balanced_partners(tokens);
    assert forall|i: int| 0 <= i < program.len() implies match #[trigger] program[i] {
        Construct::JumpIfFalsy { jump_idx } => i < jump_idx < program.len() && program[jump_idx as int]
            == (Construct::JumpIfTruthy { jump_idx: i as usize }),
        Construct::JumpIfTruthy { jump_idx } => jump_idx < i && program[jump_idx as int]
            == (Construct::JumpIfFalsy { jump_idx: i as usize }),
        _ => true,
    } by {
        if tokens[i] == Token::JumpIfFalsy {
            let j = partner(tokens, i);
            lemma_pair_open_unique(tokens, i, partner(tokens, j), j);
        } else if tokens[i] == Token::JumpIfTruthy {
            let j = partner(tokens, i);
            lemma_pair_close_unique(tokens, j, i, partner(tokens, j));
        }
    }
}

/// Turns tokens into instructions, giving each loop delimiter the index of
/// its partner.
///
/// Succeeds exactly on balanced sequences, with one instruction per token;
/// the jumps of the result are linked in pairs, each open with the close of
/// its own loop. Otherwise reports the first close that has no loop to close
/// or, where there is none, the innermost open that is never closed. So a
/// first stray close is always reported under its own index, and without a
/// stray close any open that is never closed makes parsing report the
/// innermost of them.
pub fn parse(instructions: &[Token]) -> (r: Result<Vec<Construct>, ParsingError>)
    ensures
        match r {
            Ok(program) => {
                &&& balanced(instructions@)
                &&& program@ == parsed(instructions@)
                &&& well_linked(program@)
                &&& forall|i: int|
                    0 <= i < program.len() ==> match #[trigger] program[i] {
                        Construct::JumpIfFalsy { jump_idx } => is_pair(instructions@, i, jump_idx as int),
                        Construct::JumpIfTruthy { jump_idx } => is_pair(instructions@, jump_idx as int, i),
                        _ => true,
                    }
            },
            Err(ParsingError::UnmatchedLoopConstruct { idx }) => !balanced(instructions@)
                && is_unmatched(instructions@, idx as int),
        },
        forall|j: int|
            is_first_stray_close(instructions@, j) ==> r == Err::<Vec<Construct>, ParsingError>(
                ParsingError::UnmatchedLoopConstruct { idx: j as usize },
            ),
        forall|i: int|
            never_negative(instructions@) && is_pending_open(instructions@, i) ==> (r matches Err(
                ParsingError::UnmatchedLoopConstruct { idx },
            ) && is_innermost_pending_open(instructions@, idx as int)),
{
    let matches = match get_loops_matches(instructions) {
        Ok(matches) => matches,
        Err(e) => {
            proof {
                let ParsingError::UnmatchedLoopConstruct { idx } = e;
                assert forall|j: int| is_first_stray_close(instructions@, j) implies j == idx by {
                    lemma_stray_close_is_reported(instructions@, j, idx as int);
                }
                assert forall|i: int|
                    never_negative(instructions@) && is_pending_open(
                        instructions@,
                        i,
                    ) implies is_innermost_pending_open(instructions@, idx as int) by {
                    lemma_pending_open_is_reported(instructions@, i, idx as int);
                }
            }
            return Err(e);
        },
    };
    proof {
        lemma_balanced_all_matched(instructions@);
    }
    let ghost tokens = instructions@;
    let mut program: Vec<Construct> = Vec::new();
    let mut idx: usize = 0;
    while idx < instructions.len()
        invariant
            tokens == instructions@,
            is_match_table(tokens, matches@),
            idx <= tokens.len(),
            program.len() == idx,
            forall|i: int| 0 <= i < idx ==> #[trigger] program[i] == construct_at(tokens, i),
            forall|i: int|
                0 <= i < idx ==> match #[trigger] program[i] {
                    Construct::JumpIfFalsy { jump_idx } => is_pair(tokens, i, jump_idx as int),
                    Construct::JumpIfTruthy { jump_idx } => is_pair(tokens, jump_idx as int, i),
                    _ => true,
                },
        decreases tokens.len() - idx,
    {
        let construct = match instructions[idx] {
            Token::MoveRight => Construct::MoveRight,
            Token::MoveLeft => Construct::MoveLeft,
            Token::Increment => Construct::Increment,
            Token::Decrement => Construct::Decrement,
            Token::Write => Construct::Write,
            Token::Read => Construct::Read,
            Token::JumpIfFalsy => {
                proof {
                    lemma_match_table_partner(tokens, matches@, idx as int);
                }
                Construct::JumpIfFalsy { jump_idx: matches[idx] }
            },
            Token::JumpIfTruthy => {
                proof {
                    lemma_match_table_partner(tokens, matches@, idx as int);
                }
                Construct::JumpIfTruthy { jump_idx: matches[idx] }
            },
        };
        program.push(construct);
        idx += 1;
    }
    proof {
        assert(program@ =~= parsed(tokens));
        lemma_parsed_well_linked(tokens);
    }
    Ok(program)
}

} // verus!
