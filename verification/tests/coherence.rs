use bfscript::{
    Add, BFBlock, BoolNegate, Clear, Command, CompileError, Compiler, Distance, Div, Event, Goto, If, Input,
    Instr, Interpreter, Move, Mul, Output, SetCell, Sub, While,
};

const CELLS: usize = 40;

/// Emits and replays the instructions on a tape of `CELLS` allocated cells,
/// runs the text, and holds the model against the tape.
fn hold(instructions: Vec<Instr>, input: &[u8]) -> (Compiler<'static>, Interpreter<'static>) {
    let mut compiler = Compiler::new(b"");
    compiler.gen.memory.allocate(CELLS);
    let mut block = BFBlock::new();
    for i in instructions {
        block.add(i);
    }
    let text = compiler.finish(&block).unwrap();
    let text: &'static str = Box::leak(text.into_boxed_str());
    let mut interpreter = Interpreter::new(text.as_bytes());
    interpreter.enable_extended();
    for &b in input {
        interpreter.feed(b);
    }
    loop {
        match interpreter.run(1_000_000) {
            Event::Halt => break,
            Event::Output(_) => {}
            Event::Command(_) => interpreter.answer(77),
            other => panic!("unexpected event {:?}", other),
        }
    }
    assert_eq!(interpreter.pointer as usize, compiler.gen.cell, "head");
    for cell in 0..CELLS {
        if !compiler.gen.memory.is_dirty(cell) {
            let on_tape = if cell < interpreter.cells.len() { interpreter.cells[cell] } else { 0 };
            assert_eq!(compiler.gen.memory.get(cell), on_tape, "cell {}", cell);
        }
    }
    (compiler, interpreter)
}

fn set(cell: usize, value: u8) -> Instr {
    Instr::SetCell(SetCell::new(cell, value))
}

fn mul(a: usize, b: usize, base: usize) -> Instr {
    Instr::Mul(Mul { a, b, block: Some(base) })
}

fn div(a: usize, b: usize, base: usize) -> Instr {
    Instr::Div(Div { a, b, block: Some(base) })
}

fn distance(a: usize, b: usize, base: usize) -> Instr {
    Instr::Distance(Distance { a, b, block: Some(base), gt_cell: base + 3, lt_cell: base + 5 })
}

#[test]
fn goto_accounting() {
    let mut gen = bfscript::Generator::new();
    let first = bfscript::Instruction::compile(&mut Goto::new(4), &mut gen);
    assert_eq!(first.match_indices(">").count(), 4);
    assert_eq!(first.match_indices("<").count(), 0);
    let second = bfscript::Instruction::compile(&mut Goto::new(6), &mut gen);
    assert_eq!(second, ">>");
    let third = bfscript::Instruction::compile(&mut Goto::new(3), &mut gen);
    assert_eq!(third, "<<<");
    assert_eq!(gen.cell, 3);
}

#[test]
fn coherent_moves_and_writes() {
    let (c, _) = hold(
        vec![
            Instr::Goto(Goto::new(7)),
            set(3, 9),
            Instr::Clear(Clear::new(3)),
            set(2, 5),
            set(4, 6),
            Instr::Output(Output::new(2)),
        ],
        &[],
    );
    assert_eq!(c.gen.cell, 2);
}

#[test]
fn coherent_add_and_sub() {
    let (c, _) = hold(
        vec![set(1, 5), set(2, 10), Instr::Add(Add::new(1, 2)), set(3, 4), Instr::Sub(Sub::new(1, 3))],
        &[],
    );
    assert_eq!(c.gen.memory.get(1), 11);
    assert_eq!(c.gen.memory.get(2), 0);
    assert_eq!(c.gen.memory.get(3), 0);
}

#[test]
fn add_then_sub_restores() {
    let (c, _) = hold(
        vec![set(1, 5), set(2, 10), Instr::Add(Add::new(1, 2)), set(2, 10), Instr::Sub(Sub::new(1, 2))],
        &[],
    );
    assert_eq!(c.gen.memory.get(1), 5);
}

#[test]
fn coherent_move_and_copy() {
    let (c, _) = hold(
        vec![set(1, 5), Instr::Move(Move::new(6, 1)), Instr::Copy(bfscript::instructions::Copy::new(8, 9, 6))],
        &[],
    );
    assert_eq!(c.gen.memory.get(1), 0);
    assert_eq!(c.gen.memory.get(6), 5);
    assert_eq!(c.gen.memory.get(8), 5);
    assert_eq!(c.gen.memory.get(9), 0);
    assert_eq!(c.gen.cell, 8);
}

#[test]
fn copy_preserves_source_and_clears_scratch() {
    let (c, i) = hold(vec![set(2, 7), set(5, 3), Instr::Copy(bfscript::instructions::Copy::new(4, 5, 2))], &[]);
    assert_eq!(i.cells[2], 7);
    assert_eq!(i.cells[5], 0);
    assert_eq!(i.cells[4], 7);
    assert_eq!(c.gen.memory.get(2), 7);
}

#[test]
fn negate_is_self_inverse_on_truth_values() {
    for start in [0u8, 1u8] {
        let (c, _) = hold(vec![set(3, start), Instr::BoolNegate(BoolNegate::new(3, 4))], &[]);
        assert_eq!(c.gen.memory.get(3), 1 - start);
        let (c, _) = hold(
            vec![
                set(3, start),
                Instr::BoolNegate(BoolNegate::new(3, 4)),
                Instr::BoolNegate(BoolNegate::new(3, 4)),
            ],
            &[],
        );
        assert_eq!(c.gen.memory.get(3), start);
    }
    let (c, _) = hold(vec![set(3, 9), Instr::BoolNegate(BoolNegate::new(3, 4))], &[]);
    assert_eq!(c.gen.memory.get(3), 0);
}

#[test]
fn coherent_multiplication() {
    let (c, _) = hold(vec![set(0, 6), set(1, 7), mul(0, 1, 10)], &[]);
    assert_eq!(c.gen.memory.get(13), 42);
    assert_eq!(c.gen.memory.get(11), 7);
    assert_eq!(c.gen.cell, 10);
    let (c, _) = hold(vec![set(0, 0), set(1, 7), mul(0, 1, 10)], &[]);
    assert_eq!(c.gen.memory.get(13), 0);
}

#[test]
fn multiplication_into_a_used_block_is_unknown() {
    let (c, i) = hold(vec![set(0, 2), set(1, 3), set(12, 1), mul(0, 1, 10)], &[]);
    assert!(c.gen.memory.is_dirty(13));
    assert!(c.gen.memory.is_dirty(11));
    assert_eq!(i.cells[13], 7);
}

#[test]
fn coherent_division() {
    let (c, _) = hold(vec![set(0, 17), set(1, 5), div(0, 1, 10)], &[]);
    assert_eq!(c.gen.memory.get(15), 3);
    assert_eq!(c.gen.memory.get(11), 2);
    assert_eq!(c.gen.memory.get(14), 3);
    assert_eq!(c.gen.cell, 10);
    let (c, _) = hold(vec![set(0, 20), set(1, 5), div(0, 1, 10)], &[]);
    assert_eq!(c.gen.memory.get(15), 4);
    assert_eq!(c.gen.memory.get(11), 0);
    assert_eq!(c.gen.memory.get(14), 5);
    let (c, _) = hold(vec![set(0, 0), set(1, 5), div(0, 1, 10)], &[]);
    assert_eq!(c.gen.memory.get(15), 0);
    assert_eq!(c.gen.memory.get(11), 0);
}

#[test]
fn coherent_distance() {
    let (c, _) = hold(vec![set(0, 4), set(1, 6), distance(0, 1, 10)], &[]);
    assert_eq!(c.gen.memory.get(13), 0);
    assert_eq!(c.gen.memory.get(15), 2);
    assert_eq!(c.gen.cell, 12);
    let (c, _) = hold(vec![set(0, 5), set(1, 5), distance(0, 1, 10)], &[]);
    assert_eq!(c.gen.memory.get(13), 0);
    assert_eq!(c.gen.memory.get(15), 0);
    let (c, _) = hold(vec![set(0, 0), set(1, 3), distance(0, 1, 10)], &[]);
    assert_eq!(c.gen.memory.get(15), 3);
}

#[test]
fn distance_of_a_greater_first_operand_is_recorded_wrapped() {
    let mut compiler = Compiler::new(b"");
    compiler.gen.memory.allocate(CELLS);
    let mut block = BFBlock::new();
    block.add(set(0, 6));
    block.add(set(1, 5));
    block.add(distance(0, 1, 10));
    let text = compiler.finish(&block).unwrap();
    assert_eq!(compiler.gen.memory.get(13), 255);
    assert_eq!(compiler.gen.memory.get(15), 0);
    let mut interpreter = Interpreter::new(text.as_bytes());
    assert_eq!(interpreter.run(1_000_000), Event::Halt);
    assert_eq!(interpreter.cells[13], 1);
    assert_eq!(interpreter.cells[15], 0);
    assert_eq!(interpreter.pointer as usize, compiler.gen.cell);
}

#[test]
fn coherent_input_and_command() {
    let (c, i) = hold(
        vec![Instr::Input(Input::new(3)), set(5, 1), Instr::Command(Command::new(5))],
        &[b'z'],
    );
    assert!(c.gen.memory.is_dirty(3));
    assert!(c.gen.memory.is_dirty(5));
    assert_eq!(i.cells[3], b'z');
    assert_eq!(i.cells[5], 77);
    assert_eq!(c.gen.cell, 5);
}

#[test]
fn dirty_operands_spread() {
    let (c, _) = hold(
        vec![Instr::Input(Input::new(1)), set(2, 3), Instr::Add(Add::new(2, 1)), set(4, 1), Instr::Move(Move::new(4, 2))],
        &[9],
    );
    assert!(c.gen.memory.is_dirty(4));
    assert!(!c.gen.memory.is_dirty(1));
    assert_eq!(c.gen.memory.get(1), 0);
    assert_eq!(c.gen.memory.get(2), 0);
}

#[test]
fn coherent_if_with_known_condition() {
    let mut taken = If::new(1);
    taken.block.add(set(2, 8));
    let (c, _) = hold(vec![set(1, 1), Instr::If(taken)], &[]);
    assert_eq!(c.gen.memory.get(2), 8);
    assert_eq!(c.gen.memory.get(1), 0);
    assert_eq!(c.gen.cell, 1);
    let mut skipped = If::new(1);
    skipped.block.add(set(2, 8));
    let (c, _) = hold(vec![set(1, 0), Instr::If(skipped)], &[]);
    assert_eq!(c.gen.memory.get(2), 0);
}

#[test]
fn if_with_unknown_condition_blurs_what_its_body_changes() {
    for input in [0u8, 1u8] {
        let mut check = If::new(1);
        check.block.add(set(2, 8));
        check.block.add(set(3, 4));
        let (c, _) = hold(vec![set(3, 4), Instr::Input(Input::new(1)), Instr::If(check)], &[input]);
        assert!(c.gen.memory.is_dirty(2));
        assert!(!c.gen.memory.is_dirty(3));
        assert_eq!(c.gen.memory.get(3), 4);
        assert_eq!(c.gen.memory.get(1), 0);
    }
}

#[test]
fn while_leaves_the_head_on_its_condition() {
    let mut lp = While::new(1);
    lp.block.add(Instr::Output(Output::new(1)));
    lp.block.add(set(2, 1));
    lp.block.add(Instr::Sub(Sub::new(1, 2)));
    let mut compiler = Compiler::new(b"");
    compiler.gen.memory.allocate(CELLS);
    let mut block = BFBlock::new();
    block.add(set(1, 3));
    block.add(Instr::While(lp));
    let text = compiler.finish(&block).unwrap();
    let mut interpreter = Interpreter::new(text.as_bytes());
    loop {
        match interpreter.run(1_000_000) {
            Event::Halt => break,
            Event::Output(_) => {}
            other => panic!("unexpected event {:?}", other),
        }
    }
    assert_eq!(interpreter.output, vec![3, 2, 1]);
    assert_eq!(interpreter.pointer as usize, compiler.gen.cell);
    assert_eq!(compiler.gen.cell, 1);
    assert_eq!(compiler.gen.memory.get(1), 0);
}

#[test]
fn aliased_operands_are_refused() {
    let mut compiler = Compiler::new(b"");
    compiler.gen.memory.allocate(CELLS);
    let mut block = BFBlock::new();
    block.add(Instr::Add(Add::new(5, 5)));
    assert_eq!(compiler.finish(&block), Err(CompileError::InvalidInstruction));
    assert!(!Instr::Add(Add::new(5, 5)).check(CELLS));
    assert!(Instr::Add(Add::new(5, 6)).check(CELLS));
    assert!(!Instr::Copy(bfscript::instructions::Copy::new(1, 1, 2)).check(CELLS));
    assert!(!mul(11, 1, 10).check(CELLS));
    assert!(!Instr::Mul(Mul::new(1, 2)).check(CELLS));
}

#[test]
fn operands_beyond_the_tape_are_refused() {
    let mut compiler = Compiler::new(b"");
    compiler.gen.memory.allocate(4);
    let mut block = BFBlock::new();
    block.add(set(4, 1));
    assert_eq!(compiler.finish(&block), Err(CompileError::InvalidInstruction));
    let mut nested = If::new(1);
    nested.block.add(set(9, 1));
    assert!(!Instr::If(nested).check(4));
}

#[test]
fn nested_text_is_indented_by_the_generator() {
    let mut compiler = Compiler::new(b"");
    compiler.gen.memory.allocate(4);
    compiler.gen.indent = 2;
    let mut check = If::new(1);
    check.block.add(Instr::Output(Output::new(1)));
    let mut block = BFBlock::new();
    block.add(Instr::If(check));
    let text = compiler.finish(&block).unwrap();
    assert_eq!(text, "\t\t>\t\t[\t\t.\n\t\t\t\t\t\t\t\t[-]\n\t]\n");
}

#[test]
fn emitted_shapes() {
    let mut gen = bfscript::Generator::new();
    assert_eq!(bfscript::Instruction::compile(&mut Clear::new(1), &mut gen), ">[-]\n");
    assert_eq!(bfscript::Instruction::compile(&mut SetCell::new(2, 3), &mut gen), ">[-]\n+++");
    assert_eq!(bfscript::Instruction::compile(&mut Move::new(1, 2), &mut gen), "<[-]\n>[-<+>]\n");
    assert_eq!(
        bfscript::Instruction::compile(&mut bfscript::instructions::Copy::new(0, 3, 2), &mut gen),
        "<<[-]\n>>>[-]\n<[->+<]\n>[-<<<+>>+>]<<<\n"
    );
    assert_eq!(
        bfscript::Instruction::compile(&mut BoolNegate::new(1, 2), &mut gen),
        ">>[-]+\n<[[-]>-<]>[-<+>]<\n"
    );
    assert_eq!(bfscript::Instruction::compile(&mut Input::new(1), &mut gen), ",\n");
    assert_eq!(bfscript::Instruction::compile(&mut Output::new(0), &mut gen), "<.\n");
    assert_eq!(bfscript::Instruction::compile(&mut Command::new(0), &mut gen), "@\n");
    gen.memory.allocate(8);
    let mut m = Mul { a: 0, b: 1, block: Some(4) };
    assert_eq!(
        bfscript::Instruction::compile(&mut m, &mut gen),
        ">>>>[-]\n<<<<[->>>>+<<<<]\n>>>>>[-]\n<<<<[->>>>+<<<<]\n>>>[>[->+>+<<]>[-<+>]<<-]\n"
    );
    assert_eq!(gen.cell, 4);
}
