//! An interpreter for an eight-instruction tape language.
//!
//! Source text is split into tokens, loop delimiters are resolved into jump
//! targets, and the resulting program is run on a bounded tape of byte cells.

pub mod interpreter;
pub mod lexer;
pub mod parser;

use crate::interpreter::{
    halts, initial, lemma_outcome_is_run, outcome, run, running, stops_within, Machine, RuntimeError,
};
use crate::lexer::{tokenize, tokens_of, Token};
use crate::parser::{balanced, is_unmatched, parse, parsed, well_linked, Construct, ParsingError};
use vstd::prelude::*;
use vstd::std_specs::convert::FromSpecImpl;
use vstd::string::StringSliceAdditionalSpecFns;
use vstd::utf8::{decode_utf8, valid_utf8};

verus! {

/// Why a program gave no output: it did not parse, or a step of its run
/// failed.
#[derive(Debug, PartialEq, Eq, Structural, Clone, Copy)]
pub enum Error {
    Parsing(ParsingError),
    Runtime(RuntimeError),
}

impl From<ParsingError> for Error {
    fn from(value: ParsingError) -> (r: Self) {
        Error::Parsing(value)
    }
}

impl FromSpecImpl<ParsingError> for Error {
    open spec fn obeys_from_spec() -> bool {
        true
    }

    open spec fn from_spec(v: ParsingError) -> Self {
        Error::Parsing(v)
    }
}

impl From<RuntimeError> for Error {
    fn from(value: RuntimeError) -> (r: Self) {
        Error::Runtime(value)
    }
}

impl FromSpecImpl<RuntimeError> for Error {
    open spec fn obeys_from_spec() -> bool {
        true
    }

    open spec fn from_spec(v: RuntimeError) -> Self {
        Error::Runtime(v)
    }
}

/// The tokens of a source text.
pub open spec fn source_tokens(code: &str) -> Seq<Token> {
    tokens_of(code.spec_bytes())
}

/// The program that a source text with balanced loops stands for.
pub open spec fn source_program(code: &str) -> Seq<Construct> {
    parsed(source_tokens(code))
}

/// The state in which a run on `input` starts. The machine reads from the
/// end of its input buffer, so the buffer holds the text's bytes in reverse:
/// reads take them in the order of the text.
pub open spec fn start_state(input: Option<&str>) -> Machine {
    match input {
        Some(text) => initial(text.spec_bytes().reverse()),
        None => initial(Seq::empty()),
    }
}

/// Decodes bytes as text by `String::from_utf8` of the standard library.
///
/// Taken on trust, not proved: the call gives a text exactly if `bytes` are
/// well-formed UTF-8, and that text is the one which `bytes` encode.
#[verifier::external_body]
fn text_from_utf8(bytes: Vec<u8>) -> (r: Option<String>)
    ensures
        r is Some <==> valid_utf8(bytes@),
        r matches Some(text) ==> text@ == decode_utf8(bytes@),
{
    String::from_utf8(bytes).ok()
}

/// The bytes of `text`, last byte first.
pub fn reversed_bytes(text: &str) -> (r: Vec<u8>)
    ensures
        r@ == text.spec_bytes().reverse(),
{
    let bytes = text.as_bytes();
    let mut out: Vec<u8> = Vec::new();
    let mut i: usize = bytes.len();
    while i > 0
        invariant
            i <= bytes.len(),
            out.len() == bytes.len() - i,
            forall|k: int| 0 <= k < out.len() ==> out[k] == bytes[bytes.len() - 1 - k],
        decreases i,
    {
        i -= 1;
        out.push(bytes[i]);
    }
    assert(out@ =~= bytes@.reverse());
    out
}

/// A program of a length that fits in memory, and whose jumps are linked in
/// pairs, has no jump to the largest index.
pub proof fn lemma_well_linked_jumps_fit(program: Seq<Construct>)
    requires
        well_linked(program),
        program.len() <= usize::MAX,
    ensures
        crate::interpreter::jumps_fit(program),
{
}

/// Runs the program in `code` on `input` and returns the text it wrote.
///
/// A source whose loops are not balanced gives the parsing error. Otherwise
/// the program must come to an end on this input, and what it writes must be
/// well-formed UTF-8; the result is then the text written by the run, or the
/// error of the step that failed.
pub fn interpret(code: &str, input: Option<&str>) -> (r: Result<String, Error>)
    requires
        balanced(source_tokens(code)) ==> halts(source_program(code), start_state(input)),
        balanced(source_tokens(code)) ==> (outcome(source_program(code), start_state(input)) matches Ok(end)
            ==> valid_utf8(end.output)),
    ensures
        !balanced(source_tokens(code)) ==> (r matches Err(
            Error::Parsing(ParsingError::UnmatchedLoopConstruct { idx }),
        ) && is_unmatched(source_tokens(code), idx as int)),
        balanced(source_tokens(code)) ==> match outcome(source_program(code), start_state(input)) {
            Ok(end) => r matches Ok(text) && text@ == decode_utf8(end.output),
            Err(e) => r == Err::<String, Error>(Error::Runtime(e)),
        },
{
    let input: Vec<u8> = match input {
        Some(text) => reversed_bytes(text),
        None => Vec::new(),
    };
    let instructions = tokenize(code);
    let program = match parse(instructions.as_slice()) {
        Ok(program) => program,
        Err(e) => {
            return Err(Error::from(e));
        },
    };
    proof {
        lemma_well_linked_jumps_fit(program@);
    }
    let output = match crate::interpreter::interpret(program.as_slice(), input) {
        Ok(output) => output,
        Err(e) => {
            return Err(Error::from(e));
        },
    };
    match text_from_utf8(output) {
        Some(text) => Ok(text),
        None => vstd::pervasive::unreached(),
    }
}

/// Runs the program in `code` on `input` for at most `budget` steps.
///
/// A source whose loops are not balanced gives the parsing error, and a step
/// that fails within the budget gives its error. A run that is over within
/// the budget gives the text it wrote. `None` stands for a run that is not
/// over within the budget, and for one that wrote bytes that are not
/// well-formed UTF-8. Where there is a result, the run comes to an end and
/// the result is that of [`interpret`].
pub fn interpret_within(code: &str, input: Option<&str>, budget: usize) -> (r: Option<Result<String, Error>>)
    ensures
        !balanced(source_tokens(code)) ==> (r matches Some(
            Err(Error::Parsing(ParsingError::UnmatchedLoopConstruct { idx })),
        ) && is_unmatched(source_tokens(code), idx as int)),
        balanced(source_tokens(code)) ==> match run(source_program(code), start_state(input), budget as nat) {
            Ok(end) => if running(source_program(code), end) || !valid_utf8(end.output) {
                r is None
            } else {
                r matches Some(Ok(text)) && text@ == decode_utf8(end.output)
            },
            Err(e) => r == Some(Err::<String, Error>(Error::Runtime(e))),
        },
        balanced(source_tokens(code)) && r is Some ==> halts(source_program(code), start_state(input))
            && match outcome(source_program(code), start_state(input)) {
            Ok(end) => valid_utf8(end.output) && (r matches Some(Ok(text)) && text@ == decode_utf8(
                end.output,
            )),
            Err(e) => r == Some(Err::<String, Error>(Error::Runtime(e))),
        },
{
    proof {
        if stops_within(source_program(code), start_state(input), budget as nat) {
            lemma_outcome_is_run(source_program(code), start_state(input), budget as nat);
        }
    }
    let input: Vec<u8> = match input {
        Some(text) => reversed_bytes(text),
        None => Vec::new(),
    };
    let instructions = tokenize(code);
    let program = match parse(instructions.as_slice()) {
        Ok(program) => program,
        Err(e) => {
            return Some(Err(Error::from(e)));
        },
    };
    proof {
        lemma_well_linked_jumps_fit(program@);
    }
    match crate::interpreter::interpret_within(program.as_slice(), input, budget) {
        Ok(Some(output)) => match text_from_utf8(output) {
            Some(text) => Some(Ok(text)),
            None => None,
        },
        Ok(None) => None,
        Err(e) => Some(Err(Error::from(e))),
    }
}

} // verus!
