use bf_interpreter::interpreter::RuntimeError;
use bf_interpreter::parser::ParsingError;
use bf_interpreter::{interpret, interpret_within, reversed_bytes, Error};

/// A text of some forty lines, used as input.
const SAMPLE_LINES: [&str; 39] = [
    "// Brainfuck has 8 basic instructions:\n",
    "//\n",
    "// > - move the pointer right\n",
    "// < - move the pointer left\n",
    "// + - increment the current cell\n",
    "// - - decrement the current cell\n",
    "// . - output the value of the current cell\n",
    "// , - replace the value of the current cell with input\n",
    "// [ - jump to the matching ] instruction if the current value is zero\n",
    "// ] - jump to the matching [ instruction if the current value is not zero\n",
    "\n",
    "#[derive(Debug, Clone, Copy, PartialEq)]\n",
    "pub enum Token {\n",
    "    MoveRight,\n",
    "    MoveLeft,\n",
    "    Increment,\n",
    "    Decrement,\n",
    "    Write,\n",
    "    Read,\n",
    "    JumpIfFalsy,\n",
    "    JumpIfTruthy,\n",
    "}\n",
    "\n",
    "pub fn tokenize(input: &str) -> Vec<Token> {\n",
    "    input\n",
    "        .bytes()\n",
    "        .filter_map(|b| match b {\n",
    "            b'>' => Some(Token::MoveRight),\n",
    "            b'<' => Some(Token::MoveLeft),\n",
    "            b'+' => Some(Token::Increment),\n",
    "            b'-' => Some(Token::Decrement),\n",
    "            b'.' => Some(Token::Write),\n",
    "            b',' => Some(Token::Read),\n",
    "            b'[' => Some(Token::JumpIfFalsy),\n",
    "            b']' => Some(Token::JumpIfTruthy),\n",
    "            _ => None,\n",
    "        })\n",
    "        .collect()\n",
    "}\n",
];

fn sample_text() -> String {
    SAMPLE_LINES.concat()
}

#[test]
fn output_hello_world() {
    let input = "-[------->+<]>-.-[->+++++<]>++.+++++++..+++.[--->+<]>-----.---[->+++<]>.-[--->+<]>---.+++.------.--------.-[--->+<]>.";
    let result = interpret(input, None);
    assert_eq!(result, Ok("Hello World!".to_string()));
}

#[test]
fn output_hello_world_nested() {
    let input = "++++++++[>++++[>++>+++>+++>+<<<<-]>+>+>->>+[<]<-]>>.>---.+++++++..+++.>>.<-.<.+++.------.--------.>>+.";
    let result = interpret(input, None);
    assert_eq!(result, Ok("Hello World!".to_string()));
}

#[test]
fn output_a() {
    let input = "--[----->+<]>-----.";
    let result = interpret(input, None);
    assert_eq!(result, Ok("a".to_string()));
}

#[test]
fn output_exclamation() {
    let input = "++++[->++++++++<]>+.";
    let result = interpret(input, None);
    assert_eq!(result, Ok("!".to_string()));
}

#[test]
fn output_head_10() {
    let input = "+>>>>>>>>>>-[,+[-.----------[[-]>]<->]<]";

    let file = sample_text();

    let result = interpret(input, Some(&file));

    let expected = file.lines().take(10).fold(String::new(), |mut acc, l| {
        acc += l;
        acc += "\n";
        acc
    });

    assert_eq!(result, Ok(expected));
}

#[test]
fn sample_text_has_more_than_ten_lines() {
    assert_eq!(sample_text().lines().count(), 39);
}

#[test]
fn right_moves_past_the_tape_fail() {
    let program = ">".repeat(1024);
    assert_eq!(interpret(&program, None), Err(Error::Runtime(RuntimeError::OOBMoveRight)));
}

#[test]
fn right_moves_to_the_last_cell_succeed() {
    let program = ">".repeat(1023);
    assert_eq!(interpret(&program, None), Ok(String::new()));
}

#[test]
fn left_move_at_first_cell_fails() {
    assert_eq!(interpret("<", None), Err(Error::Runtime(RuntimeError::OOBMoveLeft)));
}

#[test]
fn read_without_input_fails() {
    assert_eq!(interpret(",", None), Err(Error::Runtime(RuntimeError::ExpectedInput)));
}

#[test]
fn read_with_empty_input_fails() {
    assert_eq!(interpret(",", Some("")), Err(Error::Runtime(RuntimeError::ExpectedInput)));
}

#[test]
fn read_past_the_input_fails() {
    assert_eq!(interpret(",.,", Some("a")), Err(Error::Runtime(RuntimeError::ExpectedInput)));
}

#[test]
fn reads_take_input_in_text_order() {
    assert_eq!(interpret(",.,.,.", Some("abc")), Ok("abc".to_string()));
}

#[test]
fn reversed_bytes_puts_last_byte_first() {
    assert_eq!(reversed_bytes("abc"), vec![b'c', b'b', b'a']);
    assert_eq!(reversed_bytes(""), Vec::<u8>::new());
}

#[test]
fn lone_open_fails_to_parse() {
    assert_eq!(
        interpret("[", None),
        Err(Error::Parsing(ParsingError::UnmatchedLoopConstruct { idx: 0 }))
    );
}

#[test]
fn parse_error_index_counts_tokens_not_bytes() {
    assert_eq!(
        interpret("a + b ]", None),
        Err(Error::Parsing(ParsingError::UnmatchedLoopConstruct { idx: 1 }))
    );
}

#[test]
fn parse_error_comes_before_any_run() {
    assert_eq!(
        interpret("<[", None),
        Err(Error::Parsing(ParsingError::UnmatchedLoopConstruct { idx: 1 }))
    );
}

#[test]
fn empty_program_writes_nothing() {
    assert_eq!(interpret("", None), Ok(String::new()));
    assert_eq!(interpret("no instructions here", Some("unused")), Ok(String::new()));
}

#[test]
fn loop_on_zero_cell_is_skipped() {
    assert_eq!(interpret("[.]+.", None), Ok("\u{1}".to_string()));
    assert_eq!(interpret("[]", None), Ok(String::new()));
}

#[test]
fn multi_byte_output_is_decoded() {
    let program = format!("{}.>{}.", "+".repeat(0xC3), "+".repeat(0xA9));
    assert_eq!(interpret(&program, None), Ok("\u{e9}".to_string()));
}

#[test]
fn errors_wrap_their_stage() {
    let parsing = ParsingError::UnmatchedLoopConstruct { idx: 3 };
    assert_eq!(Error::from(parsing), Error::Parsing(parsing));
    assert_eq!(Error::from(RuntimeError::ExpectedInput), Error::Runtime(RuntimeError::ExpectedInput));
}

#[test]
fn bounded_run_agrees_with_unbounded_run() {
    let code = "++++[->++++++++<]>+.";
    assert_eq!(interpret_within(code, None, 1000), Some(interpret(code, None)));
    assert_eq!(interpret_within(code, None, 1000), Some(Ok("!".to_string())));
}

#[test]
fn bounded_run_gives_up_on_endless_loop() {
    assert_eq!(interpret_within("+[]", None, 10_000), None);
}

#[test]
fn bounded_run_counts_steps_exactly() {
    // Three instructions take three steps.
    assert_eq!(interpret_within("+++", None, 2), None);
    assert_eq!(interpret_within("+++", None, 3), Some(Ok(String::new())));
    assert_eq!(interpret_within("", None, 0), Some(Ok(String::new())));
}

#[test]
fn bounded_run_reports_errors() {
    assert_eq!(
        interpret_within("]", None, 0),
        Some(Err(Error::Parsing(ParsingError::UnmatchedLoopConstruct { idx: 0 })))
    );
    assert_eq!(
        interpret_within("+<", None, 5),
        Some(Err(Error::Runtime(RuntimeError::OOBMoveLeft)))
    );
    assert_eq!(interpret_within("+<", None, 1), None);
    assert_eq!(
        interpret_within(",.,", Some("x"), 5),
        Some(Err(Error::Runtime(RuntimeError::ExpectedInput)))
    );
}

#[test]
fn bounded_run_refuses_ill_formed_output() {
    // A lone byte 255 is not UTF-8.
    assert_eq!(interpret_within("-.", None, 10), None);
    assert_eq!(interpret_within("-", None, 10), Some(Ok(String::new())));
}

#[test]
fn bounded_run_reads_input_in_text_order() {
    assert_eq!(interpret_within(",.,.", Some("hi"), 4), Some(Ok("hi".to_string())));
}
