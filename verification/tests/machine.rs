use bfscript::{Event, Interpreter};

fn run(program: &str, input: &[u8]) -> Interpreter<'static> {
    let text: &'static str = Box::leak(String::from(program).into_boxed_str());
    let mut interpreter = Interpreter::new(text.as_bytes());
    for &b in input {
        interpreter.feed(b);
    }
    loop {
        match interpreter.run(100_000) {
            Event::Halt => return interpreter,
            Event::Output(_) => {}
            other => panic!("unexpected event {:?}", other),
        }
    }
}

#[test]
fn cells_wrap_at_a_byte() {
    let i = run("-", &[]);
    assert_eq!(i.cells, vec![255]);
    let i = run("-+", &[]);
    assert_eq!(i.cells, vec![0]);
}

#[test]
fn tape_grows_to_both_sides() {
    let i = run(">>+", &[]);
    assert_eq!((i.cells.clone(), i.pointer), (vec![0, 0, 1], 2));
    let i = run("+<+", &[]);
    assert_eq!((i.cells.clone(), i.pointer), (vec![1, 1], 0));
}

#[test]
fn loops_run_while_the_cell_is_not_zero() {
    let i = run("+++[->++<]", &[]);
    assert_eq!(i.cells, vec![0, 6]);
    let i = run("[+++]>+", &[]);
    assert_eq!(i.cells, vec![0, 1]);
    let i = run("[[+]+]+", &[]);
    assert_eq!(i.cells, vec![1]);
    let i = run("++[>++[>+<-]<-]", &[]);
    assert_eq!(i.cells, vec![0, 0, 4]);
}

#[test]
fn input_and_output_pass_through() {
    let i = run(",+.,.", &[4, 9]);
    assert_eq!(i.output, vec![5, 9]);
    let mut waiting = Interpreter::new(b",.");
    assert_eq!(waiting.run(10), Event::Input);
    assert_eq!(waiting.position, 0);
    waiting.feed(3);
    assert_eq!(waiting.run(10), Event::Output(3));
    assert_eq!(waiting.run(10), Event::Halt);
}

#[test]
fn steps_and_budget() {
    let mut i = Interpreter::new(b"+[]");
    assert_eq!(i.step(), Event::Quiet);
    assert_eq!(i.position, 0);
    assert_eq!(i.cells, vec![1]);
    i.position = 1;
    assert_eq!(i.run(50), Event::Paused);
    let mut broken = Interpreter::new(b"+]");
    assert_eq!(broken.run(50), Event::Unbalanced);
    let mut plain = Interpreter::new(b"@+");
    assert_eq!(plain.run(50), Event::Halt);
    assert_eq!(plain.cells, vec![1]);
    let mut extended = Interpreter::new(b"++@");
    extended.enable_extended();
    assert_eq!(extended.run(50), Event::Command(2));
    extended.answer(7);
    assert_eq!(extended.cells, vec![7]);
    extended.right();
    extended.left();
    extended.left();
    assert_eq!((extended.cells.clone(), extended.pointer), (vec![0, 7, 0], 0));
}

#[test]
fn a_step_leaves_the_position_alone() {
    let mut i = Interpreter::new(b"+");
    i.cells[0] = 255;
    assert_eq!(i.step(), Event::Quiet);
    assert_eq!(i.cells, vec![0]);
    assert_eq!((i.pointer, i.position, i.level, i.stack.len()), (0, 0, 0, 0));
    let mut i = Interpreter::new(b"-");
    assert_eq!(i.step(), Event::Quiet);
    assert_eq!(i.cells, vec![255]);
    assert_eq!((i.pointer, i.position, i.level, i.stack.len()), (0, 0, 0, 0));
    for program in [">", "<", ".", "x", "@"] {
        let text: &'static str = Box::leak(String::from(program).into_boxed_str());
        let mut i = Interpreter::new(text.as_bytes());
        i.step();
        assert_eq!((i.position, i.level), (0, 0));
    }
    let mut i = Interpreter::new(b",");
    assert_eq!(i.step(), Event::Input);
    assert_eq!(i.position, 0);
    i.feed(6);
    assert_eq!(i.step(), Event::Quiet);
    assert_eq!((i.position, i.cells.clone()), (0, vec![6]));
}

#[test]
fn brackets_open_and_close_their_loop() {
    let mut i = Interpreter::new(b"+[-]");
    assert_eq!(i.step(), Event::Quiet);
    i.position = 1;
    assert_eq!(i.step(), Event::Quiet);
    assert_eq!((i.position, i.level, i.stack.clone(), i.skipping), (1, 1, vec![0], false));
    i.position = 3;
    assert_eq!(i.step(), Event::Quiet);
    assert_eq!((i.position, i.level, i.stack.len()), (0, 0, 0));
    i.position = 1;
    assert_eq!(i.step(), Event::Quiet);
    assert_eq!((i.position, i.level, i.stack.clone()), (1, 1, vec![0]));
    i.position = 2;
    assert_eq!(i.step(), Event::Quiet);
    i.position = 3;
    assert_eq!(i.step(), Event::Quiet);
    assert_eq!((i.position, i.level, i.stack.len(), i.cells.clone()), (3, 0, 0, vec![0]));
    let mut skip = Interpreter::new(b"[[+]]");
    assert_eq!(skip.step(), Event::Quiet);
    assert_eq!((skip.skipping, skip.skiplevel, skip.level, skip.position), (true, 1, 1, 0));
    assert_eq!(skip.stack, vec![usize::MAX]);
    skip.position = 1;
    assert_eq!(skip.run(50), Event::Halt);
    assert_eq!((skip.skipping, skip.level, skip.cells.clone(), skip.position), (false, 0, vec![0], 5));
    let mut first = Interpreter::new(b"[-]");
    first.cells[0] = 2;
    assert_eq!(first.step(), Event::Quiet);
    first.position = 2;
    assert_eq!(first.step(), Event::Quiet);
    assert_eq!((first.position, first.level), (usize::MAX, 0));
    first.position = 0;
    assert_eq!(first.run(50), Event::Halt);
    assert_eq!((first.cells.clone(), first.position, first.level), (vec![0], 3, 0));
}

#[test]
fn strings_end_at_zero() {
    let mut i = run("+>++>+++>>+", &[]);
    i.cells[0] = b'a';
    i.cells[1] = b'b';
    i.cells[2] = b'c';
    assert_eq!(i.read_string(0, 255), "abc");
    assert_eq!(i.read_string(1, 1), "b");
    assert_eq!(i.read_string(3, 9), "");
    assert_eq!(i.read_string(4, 9), "\u{1}");
    assert_eq!(i.read_string(40, 9), "");
}

#[test]
fn dump_shows_the_tape_in_rows_of_ten() {
    let i = run("+>++>>>>>>>>>>+++<", &[]);
    assert_eq!(
        i.dump(),
        "Pointer [10]\nCells [12]\n\n1 2 0 0 0 0 0 0 0 0 \n>0< 3 "
    );
    let fresh = Interpreter::new(b"");
    assert_eq!(fresh.dump(), "Pointer [0]\nCells [1]\n\n>0< ");
    let wide = run("-", &[]);
    assert_eq!(wide.dump(), "Pointer [0]\nCells [1]\n\n>255< ");
    let mut lost = Interpreter::new(b"");
    lost.pointer = -12;
    assert_eq!(lost.dump(), "Pointer [-12]\nCells [1]\n\n0 ");
}
