use tape_engine::{Completion, Interpreter, ProgramError, Script, Transcript, ARRAY_MAX_SIZE};

fn interpret(input: &str) -> String {
    let mut interpreter = Interpreter::new();
    let mut output_stream = Transcript::new();
    let mut input_stream = Script::new(Vec::new());
    interpreter
        .interpret(input, &mut input_stream, &mut output_stream)
        .unwrap();
    output_stream.chars().iter().collect()
}

fn run_with(
    program: &str,
    input: &str,
    limit: u64,
) -> (Result<Completion, ProgramError>, Vec<char>, Interpreter) {
    let mut interpreter = Interpreter::new().with_step_limit(limit);
    let mut output_stream = Transcript::new();
    let mut input_stream = Script::new(input.chars().collect());
    let result = interpreter.interpret(program, &mut input_stream, &mut output_stream);
    (result, output_stream.chars().clone(), interpreter)
}

#[test]
pub fn hello_world() {
    let hello_world_program = "++++++++[>++++[>++>+++>+++>+<<<<-]>+>+>->>+[<]<-]>>.
                           >---.+++++++..+++.>>.<-.<.+++.------.--------.>>+.>++.";
    assert_eq!("Hello World!\n", interpret(hello_world_program).as_str());
}

#[test]
pub fn sum() {
    let sum_2_and_3 = "++>+++<[->+<]>.";
    assert_eq!(interpret(sum_2_and_3).bytes().next().unwrap(), 5);
}

#[test]
pub fn pointer_underflow() {
    let increment_with_underflow = "<+.";
    assert_eq!(
        interpret(increment_with_underflow).bytes().next().unwrap(),
        1
    );
}

#[test]
pub fn pointer_overflow() {
    let increment_with_overflow = "+++.<.+.>.";
    let output = interpret(increment_with_overflow);
    let mut bytes = output.bytes();
    assert_eq!(bytes.next().unwrap(), 3);
    assert_eq!(bytes.next().unwrap(), 0);
    assert_eq!(bytes.next().unwrap(), 1);
    assert_eq!(bytes.next().unwrap(), 3);
}

#[test]
#[should_panic]
pub fn invalid_loop_closing() {
    let invalid_loop_closing_program = "]";
    interpret(invalid_loop_closing_program);
}

#[test]
fn fresh_engine_is_blank() {
    let engine = Interpreter::new();
    assert_eq!(engine.pointer(), 0);
    assert_eq!(engine.open_loop_count(), 0);
    assert_eq!(engine.step_limit(), u64::MAX);
    assert_eq!(engine.cell(0), Some(0));
    assert_eq!(engine.cell(ARRAY_MAX_SIZE - 1), Some(0));
    assert_eq!(engine.cell(ARRAY_MAX_SIZE), None);
    assert_eq!(ARRAY_MAX_SIZE, 30_000);
}

#[test]
fn lone_closing_bracket_is_unmatched() {
    let (result, output, engine) = run_with("]", "", u64::MAX);
    assert_eq!(result, Err(ProgramError::UnmatchedClosingBracket));
    assert!(output.is_empty());
    assert_eq!(engine.pointer(), 0);
}

#[test]
fn closing_bracket_after_skipped_loop_is_unmatched() {
    let (result, output, _) = run_with("[+.]].", "", u64::MAX);
    assert_eq!(result, Err(ProgramError::UnmatchedClosingBracket));
    assert!(output.is_empty());
}

#[test]
fn skipped_loop_without_end_is_unterminated() {
    let (result, _, _) = run_with("[", "", u64::MAX);
    assert_eq!(result, Err(ProgramError::UnterminatedLoop));
    let (nested, _, _) = run_with("+>[[-]", "", u64::MAX);
    assert_eq!(nested, Err(ProgramError::UnterminatedLoop));
}

#[test]
fn output_before_a_failure_stays() {
    let (result, output, engine) = run_with("+.>++]+.", "", u64::MAX);
    assert_eq!(result, Err(ProgramError::UnmatchedClosingBracket));
    assert_eq!(output, vec!['\u{1}']);
    assert_eq!(engine.pointer(), 1);
    assert_eq!(engine.cell(0), Some(1));
    assert_eq!(engine.cell(1), Some(2));
}

#[test]
fn entered_loop_without_end_halts_with_the_loop_open() {
    let (result, output, engine) = run_with("+[.", "", u64::MAX);
    assert_eq!(result, Ok(Completion::Halted));
    assert_eq!(output, vec!['\u{1}']);
    assert_eq!(engine.open_loop_count(), 1);
}

#[test]
fn balanced_program_leaves_no_loop_open() {
    let (result, output, engine) = run_with("++[>+++[>+<-]<-]>>.", "", u64::MAX);
    assert_eq!(result, Ok(Completion::Halted));
    assert_eq!(output, vec!['\u{6}']);
    assert_eq!(engine.open_loop_count(), 0);
}

#[test]
fn pointer_wraps_at_both_ends() {
    let (_, _, left) = run_with("<", "", u64::MAX);
    assert_eq!(left.pointer(), ARRAY_MAX_SIZE - 1);
    let (_, _, back) = run_with("<>", "", u64::MAX);
    assert_eq!(back.pointer(), 0);
    let all_the_way = ">".repeat(ARRAY_MAX_SIZE);
    let (_, _, round) = run_with(&all_the_way, "", u64::MAX);
    assert_eq!(round.pointer(), 0);
    let (_, _, two) = run_with(">>", "", u64::MAX);
    assert_eq!(two.pointer(), 2);
}

#[test]
fn cell_wraps_at_both_ends() {
    let (_, down, engine) = run_with("-.", "", u64::MAX);
    assert_eq!(down, vec!['\u{ff}']);
    assert_eq!(engine.cell(0), Some(255));
    let (_, up, _) = run_with("-+.", "", u64::MAX);
    assert_eq!(up, vec!['\u{0}']);
    let full_circle = "+".repeat(256);
    let (_, _, circled) = run_with(&full_circle, "", u64::MAX);
    assert_eq!(circled.cell(0), Some(0));
}

#[test]
fn other_characters_do_nothing() {
    let (plain_result, plain, plain_engine) = run_with("++>+++<[->+<]>.", "", u64::MAX);
    let (result, output, engine) = run_with(
        "add two: ++ then >three +++ back< loop[ - > + < ]\n\tshow > . done!",
        "",
        u64::MAX,
    );
    assert_eq!(result, plain_result);
    assert_eq!(output, plain);
    assert_eq!(output, vec!['\u{5}']);
    assert_eq!(engine.pointer(), plain_engine.pointer());
    assert_eq!(engine.cell(0), plain_engine.cell(0));
    assert_eq!(engine.cell(1), Some(5));
    let (_, silent, untouched) = run_with("hello world", "", u64::MAX);
    assert!(silent.is_empty());
    assert_eq!(untouched.pointer(), 0);
    assert_eq!(untouched.cell(0), Some(0));
    assert_eq!(untouched.open_loop_count(), 0);
}

#[test]
fn equal_moves_return_to_the_start() {
    let (_, _, engine) = run_with(">>><<><<", "", u64::MAX);
    assert_eq!(engine.pointer(), 0);
    let (_, _, across) = run_with("<<>><>", "", u64::MAX);
    assert_eq!(across.pointer(), 0);
    let mut moved = Interpreter::new();
    let mut sink = Transcript::new();
    let mut source = Script::new(Vec::new());
    moved.interpret(">>>>>", &mut source, &mut sink).unwrap();
    assert_eq!(moved.pointer(), 5);
    moved.interpret("<<<>>><><>", &mut source, &mut sink).unwrap();
    assert_eq!(moved.pointer(), 5);
}

#[test]
fn input_is_stored_in_the_current_cell() {
    let (result, output, engine) = run_with(",.>,.", "hi", u64::MAX);
    assert_eq!(result, Ok(Completion::Halted));
    assert_eq!(output, vec!['h', 'i']);
    assert_eq!(engine.cell(0), Some(104));
    assert_eq!(engine.cell(1), Some(105));
}

#[test]
fn wide_input_is_reduced_to_eight_bits() {
    let (_, output, engine) = run_with(",>,", "\u{141}\u{100}", u64::MAX);
    assert!(output.is_empty());
    assert_eq!(engine.cell(0), Some(0x41));
    assert_eq!(engine.cell(1), Some(0));
}

#[test]
fn exhausted_script_delivers_zero() {
    let (_, output, engine) = run_with("+,.,", "", u64::MAX);
    assert_eq!(output, vec!['\u{0}']);
    assert_eq!(engine.cell(0), Some(0));
}

#[test]
fn step_limit_stops_an_endless_loop() {
    let (result, output, engine) = run_with("+[.]", "", 6);
    assert_eq!(result, Ok(Completion::StepLimitReached));
    assert_eq!(output, vec!['\u{1}', '\u{1}']);
    assert_eq!(engine.step_limit(), 6);
    assert_eq!(engine.open_loop_count(), 1);
    let (exact, _, _) = run_with("+++", "", 3);
    assert_eq!(exact, Ok(Completion::Halted));
    let (short, _, stopped) = run_with("+++", "", 2);
    assert_eq!(short, Ok(Completion::StepLimitReached));
    assert_eq!(stopped.cell(0), Some(2));
    let (none, _, _) = run_with("+", "", 0);
    assert_eq!(none, Ok(Completion::StepLimitReached));
}

#[test]
fn tape_is_kept_between_executions() {
    let mut engine = Interpreter::new();
    let mut sink = Transcript::new();
    let mut source = Script::new(Vec::new());
    assert_eq!(engine.interpret("+++>", &mut source, &mut sink), Ok(Completion::Halted));
    assert_eq!(engine.interpret("<.", &mut source, &mut sink), Ok(Completion::Halted));
    assert_eq!(sink.chars(), &vec!['\u{3}']);
}

#[test]
fn high_cells_are_emitted_as_their_code_point() {
    let (_, output, _) = run_with("--.", "", u64::MAX);
    assert_eq!(output, vec!['\u{fe}']);
}

#[test]
fn wide_characters_in_the_text_are_skipped() {
    let (result, output, engine) = run_with("\u{e9}+\u{1f600}[>\u{4e2d}++<-]>.", "", u64::MAX);
    assert_eq!(result, Ok(Completion::Halted));
    assert_eq!(output, vec!['\u{2}']);
    assert_eq!(engine.open_loop_count(), 0);
}
