use bfscript::compiler::{Scope, Variable};
use bfscript::{
    BFBlock, CompileError, Compiler, Event, ExtendedBF, Expression, ExpressionType, Instr, Interpreter, Parser,
    Statement, StatementType, Token, TokenType, Tokenizer,
};

fn lowered(source: &str) -> (Compiler<'static>, BFBlock, Result<usize, CompileError>) {
    let mut compiler = Compiler::new(b"");
    let mut parser = Parser::new(Tokenizer::new(source.as_bytes()));
    let expr = parser.expression().unwrap();
    let mut block = BFBlock::new();
    let cell = compiler.compile_expression(&mut block, expr);
    (compiler, block, cell)
}

fn names(block: &BFBlock) -> Vec<&'static str> {
    block
        .instructions
        .iter()
        .map(|i| match i {
            Instr::Goto(_) => "goto",
            Instr::Clear(_) => "clear",
            Instr::SetCell(_) => "set",
            Instr::Add(_) => "add",
            Instr::Sub(_) => "sub",
            Instr::Move(_) => "move",
            Instr::BoolNegate(_) => "negate",
            Instr::Copy(_) => "copy",
            Instr::Mul(_) => "mul",
            Instr::Div(_) => "div",
            Instr::Distance(_) => "distance",
            Instr::Input(_) => "input",
            Instr::Output(_) => "output",
            Instr::Command(_) => "command",
            Instr::If(_) => "if",
            Instr::While(_) => "while",
        })
        .collect()
}

#[test]
fn literals_take_fresh_cells() {
    let (c, b, r) = lowered("7");
    assert_eq!(r, Ok(0));
    assert_eq!(names(&b), vec!["set"]);
    assert_eq!(c.gen.memory.current, 1);
    let (c, b, r) = lowered("\"abc\"");
    assert_eq!(r, Ok(0));
    assert_eq!(names(&b), vec!["set", "set", "set", "set"]);
    assert_eq!(c.gen.memory.current, 4);
    match &b.instructions[3] {
        Instr::SetCell(s) => assert_eq!((s.cell, s.value), (3, 0)),
        _ => panic!("terminator"),
    }
    let (_, b, _) = lowered("'A'");
    match &b.instructions[0] {
        Instr::SetCell(s) => assert_eq!((s.cell, s.value), (0, 65)),
        _ => panic!("char"),
    }
}

#[test]
fn number_literals_wrap_to_a_cell() {
    assert_eq!(bfscript::compiler::number_cell(200), 200);
    assert_eq!(bfscript::compiler::number_cell(256), 0);
    assert_eq!(bfscript::compiler::number_cell(300), 44);
    assert_eq!(bfscript::compiler::number_cell(-1), 255);
    assert_eq!(bfscript::compiler::number_cell(i64::MIN), 0);
    assert_eq!(bfscript::compiler::number_cell(i64::MAX), 255);
    assert_eq!(bfscript::compiler::cell_of_char('A'), 65);
    assert_eq!(bfscript::compiler::cell_of_char('\u{141}'), 65);
    assert!(bfscript::compiler::is_binary_operator(TokenType::Slash));
    assert!(!bfscript::compiler::is_binary_operator(TokenType::CompoundAdd));
}

#[test]
fn binary_operations_lower_their_operands_first() {
    let (_, b, r) = lowered("1 + 2");
    assert_eq!(r, Ok(0));
    assert_eq!(names(&b), vec!["set", "set", "add"]);
    let (_, b, r) = lowered("1 == 2");
    assert_eq!(r, Ok(0));
    assert_eq!(names(&b), vec!["set", "set", "sub", "negate"]);
    let (_, b, r) = lowered("1 != 2");
    assert_eq!(r, Ok(0));
    assert_eq!(names(&b), vec!["set", "set", "sub"]);
    let (c, b, r) = lowered("2 * 3");
    assert_eq!(r, Ok(5));
    assert_eq!(names(&b), vec!["set", "set", "mul"]);
    assert_eq!(c.gen.memory.current, 6);
    let (c, b, r) = lowered("6 / 3");
    assert_eq!(r, Ok(7));
    assert_eq!(names(&b), vec!["set", "set", "div"]);
    assert_eq!(c.gen.memory.current, 8);
}

#[test]
fn comparisons_use_the_handles_of_their_block() {
    let (c, b, r) = lowered("1 > 2");
    assert_eq!(r, Ok(5));
    assert_eq!(names(&b), vec!["set", "set", "set", "sub", "distance"]);
    assert_eq!(c.gen.memory.current, 10);
    match &b.instructions[3] {
        Instr::Sub(s) => assert_eq!((s.a, s.b), (0, 9)),
        _ => panic!("bias"),
    }
    let (_, b, r) = lowered("1 < 2");
    assert_eq!(r, Ok(7));
    match &b.instructions[3] {
        Instr::Sub(s) => assert_eq!((s.a, s.b), (1, 9)),
        _ => panic!("bias"),
    }
    let (_, b, r) = lowered("1 >= 2");
    assert_eq!(r, Ok(5));
    assert_eq!(names(&b), vec!["set", "set", "distance", "negate", "add"]);
    match (&b.instructions[3], &b.instructions[4]) {
        (Instr::BoolNegate(n), Instr::Add(a)) => assert_eq!((n.a, n.tmp, a.a, a.b), (7, 9, 5, 7)),
        _ => panic!("or equal"),
    }
    let (_, b, r) = lowered("1 <= 2");
    assert_eq!(r, Ok(7));
    match (&b.instructions[3], &b.instructions[4]) {
        (Instr::BoolNegate(n), Instr::Add(a)) => assert_eq!((n.a, n.tmp, a.a, a.b), (5, 9, 7, 5)),
        _ => panic!("or equal"),
    }
}

#[test]
fn intrinsics_lower_to_input_output_and_requests() {
    let (c, b, r) = lowered("read(2)");
    assert_eq!(r, Ok(0));
    assert_eq!(names(&b), vec!["input", "input", "set"]);
    assert_eq!((c.last_return.typename.as_str(), c.last_return.size), ("string", 2));
    let (c, b, r) = lowered("print(\"ab\")");
    assert_eq!(r, Ok(0));
    assert_eq!(names(&b), vec!["set", "set", "set", "output", "output"]);
    assert_eq!((c.last_return.typename.as_str(), c.last_return.size), ("void", 0));
    let (c, b, r) = lowered("open(\"ab\")");
    assert_eq!(r, Ok(3));
    assert_eq!(names(&b), vec!["set", "set", "set", "set", "copy", "copy", "command"]);
    assert_eq!((c.last_return.typename.as_str(), c.last_return.size), ("int", 1));
    match &b.instructions[3] {
        Instr::SetCell(s) => assert_eq!((s.cell, s.value), (3, ExtendedBF::OpenFile.code())),
        _ => panic!("selector"),
    }
    let (_, b, r) = lowered("open(read(3))");
    assert_eq!(r, Ok(4));
    assert_eq!(names(&b).iter().filter(|n| **n == "copy").count(), 3);
    let (_, b, r) = lowered("write(1, 'x')");
    assert_eq!(r, Ok(1));
    assert_eq!(names(&b), vec!["set", "set", "set", "copy", "copy", "copy", "command"]);
    match &b.instructions[1] {
        Instr::SetCell(s) => assert_eq!((s.cell, s.value), (1, ExtendedBF::Write.code())),
        _ => panic!("selector"),
    }
    assert_eq!(ExtendedBF::Read.code(), 3);
    assert_eq!(ExtendedBF::from_code(2), Some(ExtendedBF::Write));
    assert_eq!(ExtendedBF::from_code(0), None);
}

#[test]
fn lowering_errors() {
    assert_eq!(lowered("x").2, Err(CompileError::UnknownVariable));
    assert_eq!(lowered("f(1)").2, Err(CompileError::UnknownFunction));
    assert_eq!(lowered("read(x)").2, Err(CompileError::ReadNeedsLiteral));
    assert_eq!(lowered("print()").2, Err(CompileError::Malformed));
    assert_eq!(lowered("write(1)").2, Err(CompileError::Malformed));
    assert_eq!(lowered("if").2, Err(CompileError::Malformed));
    let mut compiler = Compiler::new(b"");
    let mut block = BFBlock::new();
    assert_eq!(
        compiler.compile_expression(&mut block, Expression::new(ExpressionType::Binary)),
        Err(CompileError::Malformed)
    );
    assert_eq!(
        compiler.compile_expression(&mut block, Expression::new(ExpressionType::Unary)),
        Err(CompileError::Malformed)
    );
    assert_eq!(
        compiler.compile_statement(&mut block, Statement::new(StatementType::If)),
        Err(CompileError::Malformed)
    );
    assert_eq!(compiler.compile_statement(&mut block, Statement::new(StatementType::Return)), Ok(()));
    assert_eq!(block.instructions.len(), 0);
}

#[test]
fn statements_lower_into_their_block() {
    let mut compiler = Compiler::new(b"int x = 1\nwhile x { x = x - 1 }\nif x { print(x) }");
    compiler.analyzer.analyze().unwrap();
    let mut block = BFBlock::new();
    assert_eq!(compiler.advance(&mut block), Ok(false));
    assert_eq!(names(&block), vec!["set"]);
    assert_eq!(compiler.scope.get(&String::from("x")).unwrap().cell, 0);
    assert_eq!(compiler.scope.cell_of(&String::from("y")), None);
    assert_eq!(compiler.advance(&mut block), Ok(false));
    assert_eq!(names(&block), vec!["set", "copy", "while"]);
    match &block.instructions[2] {
        Instr::While(w) => {
            assert_eq!(w.condition, 1);
            assert_eq!(names(&w.block), vec!["copy", "set", "sub", "move", "copy", "move"]);
            match &w.block.instructions[5] {
                Instr::Move(m) => assert_eq!(m.a, 1),
                _ => panic!("condition refresh"),
            }
        }
        _ => panic!("while"),
    }
    assert_eq!(compiler.advance(&mut block), Ok(false));
    match &block.instructions[4] {
        Instr::If(i) => assert_eq!(names(&i.block), vec!["copy", "output"]),
        _ => panic!("if"),
    }
    assert_eq!(compiler.advance(&mut block), Ok(true));
    let text = compiler.finish(&block).unwrap();
    let mut interpreter = Interpreter::new(text.as_bytes());
    assert_eq!(interpreter.run(1_000_000), Event::Halt);
}

#[test]
fn compiler_scopes_nest() {
    let expr = || Expression::new_literal(Token::number_literal(1, 1, 1));
    let mut scope = Scope::new();
    scope.define(&Variable::new(String::from("int"), String::from("a"), expr(), 3));
    scope.define(&Variable::new(String::from("int"), String::from("b"), expr(), 4));
    scope.define(&Variable::new(String::from("int"), String::from("a"), expr(), 5));
    assert_eq!(scope.variables.len(), 2);
    assert_eq!(scope.cell_of(&String::from("a")), Some(5));
    let mut child = scope.create_child();
    assert_eq!(scope.variables.len(), 2);
    assert_eq!(child.variables.len(), 0);
    assert_eq!(child.cell_of(&String::from("b")), Some(4));
    child.define(&Variable::new(String::from("int"), String::from("b"), expr(), 9));
    assert_eq!(child.cell_of(&String::from("b")), Some(9));
    assert_eq!(child.parent.as_ref().unwrap().cell_of(&String::from("b")), Some(4));
    child.get_mut(&String::from("a")).unwrap().cell = 11;
    assert_eq!(child.cell_of(&String::from("a")), Some(11));
    assert!(child.get_mut(&String::from("zz")).is_none());
    assert!(child.get(&String::from("zz")).is_none());
}

#[test]
fn a_failed_compile_leaves_the_compiler_as_it_was() {
    let mut compiler = Compiler::new(b"int x = 5\nx = \"ab\"");
    assert_eq!(compiler.compile(), Err(CompileError::TypeMismatch));
    assert_eq!(compiler.output, "");
    assert_eq!(compiler.gen.cell, 0);
    assert_eq!(compiler.gen.memory.current, 0);
    assert_eq!(compiler.gen.memory.cells, Vec::<u8>::new());
    assert_eq!(compiler.gen.memory.used, Vec::<usize>::new());
    assert_eq!(compiler.scope.variables.len(), 0);
    let mut late = Compiler::new(b"int x = 5\nprint(y)");
    assert!(late.compile().is_err());
    assert_eq!(late.gen.memory.current, 0);
    assert_eq!(late.scope.variables.len(), 0);
    assert_eq!(late.analyzer.scope.variables.len(), 0);
    assert_eq!((late.parser.tokenizer.position, late.analyzer.parser.tokenizer.position), (0, 0));
    let mut read = Compiler::new(b"int x = 5\nint n = 2\nread(n)");
    assert_eq!(read.compile(), Err(CompileError::ReadNeedsLiteral));
    assert_eq!((read.gen.memory.current, read.scope.variables.len()), (0, 0));
    assert_eq!((read.parser.tokenizer.position, read.analyzer.parser.tokenizer.position), (0, 0));
    let mut fine = Compiler::new(b"int x = 5\n ");
    assert!(fine.compile().is_ok());
    assert_eq!(fine.output, "");
    assert_eq!((fine.parser.tokenizer.position, fine.analyzer.parser.tokenizer.position), (9, 9));
    assert_eq!((fine.parser.tokenizer.line, fine.parser.tokenizer.column), (1, 10));
    assert_eq!(fine.scope.cell_of(&String::from("x")), Some(0));
}

#[test]
fn finish_refuses_a_released_operand() {
    let mut compiler = Compiler::new(b"");
    let a = compiler.gen.memory.allocate(1);
    let b = compiler.gen.memory.allocate(1);
    let mut block = BFBlock::new();
    block.add(Instr::Add(bfscript::Add::new(a, b)));
    compiler.gen.memory.free(b);
    assert_eq!(compiler.finish(&block), Err(CompileError::InvalidInstruction));
    assert_eq!(compiler.gen.cell, 0);
    compiler.gen.memory.set_used(b);
    assert_eq!(compiler.finish(&block).map(|text| text.contains('[')), Ok(true));
}

#[test]
fn add_hands_the_instruction_back() {
    let mut block = BFBlock::new();
    match block.add(Instr::SetCell(bfscript::SetCell::new(2, 5))) {
        Instr::SetCell(s) => {
            assert_eq!((s.cell, s.value), (2, 5));
            s.value = 6;
        }
        _ => panic!("another instruction"),
    }
    assert_eq!(block.instructions.len(), 1);
    match &block.instructions[0] {
        Instr::SetCell(s) => assert_eq!(s.value, 6),
        _ => panic!("another instruction"),
    }
}

#[test]
fn a_refused_lowering_leaves_the_block_as_it_was() {
    let (mut compiler, mut block, r) = lowered("7");
    assert_eq!(r, Ok(0));
    let mut parser = Parser::new(Tokenizer::new(b"1 + missing"));
    let expr = parser.expression().unwrap();
    assert!(compiler.compile_expression(&mut block, expr).is_err());
    assert_eq!(names(&block), vec!["set"]);
    assert_eq!((compiler.gen.memory.current, compiler.gen.memory.used.clone()), (1, vec![0]));
    let mut parser = Parser::new(Tokenizer::new(b"int y = 2 + read(n)"));
    let stmt = parser.statement().unwrap();
    assert!(compiler.compile_statement(&mut block, stmt).is_err());
    assert_eq!(names(&block), vec!["set"]);
    assert_eq!((compiler.gen.memory.current, compiler.scope.variables.len()), (1, 0));
    let mut stepwise = Compiler::new(b"int x = 1\nx = y\n");
    let mut code = BFBlock::new();
    assert_eq!(stepwise.advance(&mut code), Ok(false));
    let at = stepwise.parser.tokenizer.position;
    assert!(stepwise.advance(&mut code).is_err());
    assert_eq!(stepwise.parser.tokenizer.position, at);
    assert_eq!(names(&code), vec!["set"]);
    assert_eq!((stepwise.gen.memory.current, stepwise.scope.variables.len()), (1, 1));
    let copy = code.duplicate();
    assert_eq!(names(&copy), vec!["set"]);
}
