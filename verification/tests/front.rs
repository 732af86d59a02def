use bfscript::analyzer::Scope;
use bfscript::{
    Analyzer, BFBuilder, CompileError, Expression, ExpressionType, Parser, Statement, StatementType, Token,
    TokenType, Tokenizer, ValueInfo,
};

fn kinds(source: &str) -> Vec<TokenType> {
    let mut tokenizer = Tokenizer::new(source.as_bytes());
    let mut out = Vec::new();
    loop {
        let token = tokenizer.next().unwrap();
        let kind = token.kind;
        out.push(kind);
        if kind == TokenType::EndOfFile {
            return out;
        }
    }
}

#[test]
fn tokens_of_a_declaration() {
    assert_eq!(
        kinds("int x = 12"),
        vec![
            TokenType::Identifier,
            TokenType::Identifier,
            TokenType::Equal,
            TokenType::Number,
            TokenType::EndOfFile
        ]
    );
}

#[test]
fn operators_take_a_following_equals_sign() {
    assert_eq!(
        kinds("== != >= <= += -= *= /= = ! > < + - * /"),
        vec![
            TokenType::EqualEqual,
            TokenType::NotEqual,
            TokenType::GTEqual,
            TokenType::LTEqual,
            TokenType::CompoundAdd,
            TokenType::CompoundSub,
            TokenType::CompoundMul,
            TokenType::CompoundDiv,
            TokenType::Equal,
            TokenType::Not,
            TokenType::GT,
            TokenType::LT,
            TokenType::Plus,
            TokenType::Minus,
            TokenType::Times,
            TokenType::Slash,
            TokenType::EndOfFile
        ]
    );
}

#[test]
fn operators_need_no_space_around_them() {
    assert_eq!(
        kinds("x=5>3"),
        vec![
            TokenType::Identifier,
            TokenType::Equal,
            TokenType::Number,
            TokenType::GT,
            TokenType::Number,
            TokenType::EndOfFile
        ]
    );
}

#[test]
fn punctuation_and_keywords() {
    assert_eq!(
        kinds("if while for foo ( ) { } ,"),
        vec![
            TokenType::Keyword,
            TokenType::Keyword,
            TokenType::Keyword,
            TokenType::Identifier,
            TokenType::LParen,
            TokenType::RParen,
            TokenType::LBrace,
            TokenType::RBrace,
            TokenType::Separator,
            TokenType::EndOfFile
        ]
    );
}

#[test]
fn token_payloads() {
    let mut t = Tokenizer::new(b"abc_1 42 'q' \"hi there\" >=");
    let id = t.next().unwrap();
    assert_eq!((id.kind, id.string.as_str()), (TokenType::Identifier, "abc_1"));
    let n = t.next().unwrap();
    assert_eq!((n.kind, n.number), (TokenType::Number, 42));
    let c = t.next().unwrap();
    assert_eq!((c.kind, c.char), (TokenType::Char, 'q'));
    let s = t.next().unwrap();
    assert_eq!((s.kind, s.string.as_str()), (TokenType::String, "hi there"));
    let op = t.next().unwrap();
    assert_eq!((op.kind, op.string.as_str()), (TokenType::GTEqual, ">="));
    assert!(t.eof());
    assert_eq!(t.next().unwrap().kind, TokenType::EndOfFile);
}

#[test]
fn lines_and_columns_are_counted() {
    let mut t = Tokenizer::new(b"ab\n  cd");
    let first = t.next().unwrap();
    assert_eq!((first.line, first.column), (1, 3));
    let second = t.next().unwrap();
    assert_eq!((second.line, second.column), (2, 5));
    assert_eq!(t.position, 7);
}

#[test]
fn largest_number_fits() {
    let mut t = Tokenizer::new(b"9223372036854775807 9223372036854775808");
    assert_eq!(t.next().unwrap().number, 9223372036854775807);
    assert_eq!(t.next().err(), Some(CompileError::NumberTooLarge));
}

#[test]
fn peeking_does_not_move() {
    let mut t = Tokenizer::new(b"a b c");
    assert_eq!(t.peek(), Some('a'));
    assert_eq!(t.peek_token().unwrap().string, "a");
    let three = t.peek_many(3).unwrap();
    assert_eq!(three.len(), 3);
    assert_eq!(three[2].string, "c");
    assert_eq!(t.peek_many(5).unwrap()[4].kind, TokenType::EndOfFile);
    assert_eq!(t.position, 0);
    assert_eq!(t.get(), Some('a'));
    assert_eq!((t.position, t.column), (1, 2));
    assert_eq!(t.expect(TokenType::Identifier).unwrap().string, "b");
    assert_eq!(t.expect(TokenType::Number).err(), Some(CompileError::UnexpectedToken));
    let mut broken = Tokenizer::new(b"a $");
    assert_eq!(broken.peek_many(3).err(), Some(CompileError::UnexpectedCharacter));
    assert_eq!(broken.position, 0);
    let mut empty = Tokenizer::new(b"");
    assert_eq!(empty.get(), None);
    assert_eq!(empty.peek(), None);
}

#[test]
fn a_refused_token_leaves_the_tokenizer_in_place() {
    let mut t = Tokenizer::new(b"ab\n \"cd");
    assert_eq!(t.next().unwrap().string, "ab");
    let at = (t.position, t.line, t.column);
    assert!(t.next().is_err());
    assert_eq!((t.position, t.line, t.column), at);
    assert!(t.expect(TokenType::String).is_err());
    assert_eq!((t.position, t.line, t.column), at);
    let mut wrong = Tokenizer::new(b"ab 12");
    assert_eq!(wrong.expect(TokenType::Number).err(), Some(CompileError::UnexpectedToken));
    assert_eq!((wrong.position, wrong.line, wrong.column), (0, 1, 1));
    assert_eq!(wrong.expect(TokenType::Identifier).unwrap().string, "ab");
    assert_eq!(wrong.expect(TokenType::Number).unwrap().number, 12);
    assert_eq!((wrong.position, wrong.line, wrong.column), (5, 1, 6));
    let mut big = Tokenizer::new(b"  9223372036854775808");
    assert_eq!(big.next().err(), Some(CompileError::NumberTooLarge));
    assert_eq!((big.position, big.line, big.column), (0, 1, 1));
}

#[test]
fn a_refused_parse_leaves_the_parser_in_place() {
    let mut p = Parser::new(Tokenizer::new(b"x = f(1 2)\ny = 3"));
    assert_eq!(p.statement().err(), Some(CompileError::UnexpectedToken));
    assert_eq!((p.tokenizer.position, p.tokenizer.line, p.tokenizer.column), (0, 1, 1));
    let mut q = Parser::new(Tokenizer::new(b"y = 3\nx = f(1"));
    assert!(q.statement().is_ok());
    let at = (q.tokenizer.position, q.tokenizer.line, q.tokenizer.column);
    assert_eq!(at.0, 5);
    assert!(q.statement().is_err());
    assert_eq!((q.tokenizer.position, q.tokenizer.line, q.tokenizer.column), at);
    assert!(q.program().is_err());
    assert_eq!((q.tokenizer.position, q.tokenizer.line, q.tokenizer.column), at);
    let mut e = Parser::new(Tokenizer::new(b"a + f(1"));
    assert!(e.expression().is_err());
    assert!(e.logic().is_err());
    assert!(e.comparison().is_err());
    assert!(e.addsub().is_err());
    assert_eq!(e.tokenizer.position, 0);
    assert_eq!(e.mul().unwrap().stringify(), "a");
    assert_eq!(e.tokenizer.position, 1);
    assert!(e.tokenizer.next().is_ok());
    let at = e.tokenizer.position;
    assert!(e.div().is_err());
    assert!(e.primary().is_err());
    assert_eq!(e.tokenizer.position, at);
}

#[test]
fn a_parse_ends_behind_its_last_statement() {
    let mut p = Parser::new(Tokenizer::new(b"x = 1\ny = 2  \n"));
    assert_eq!(p.program().unwrap().len(), 2);
    assert_eq!((p.tokenizer.position, p.tokenizer.line, p.tokenizer.column), (11, 2, 6));
    let mut one = Parser::new(Tokenizer::new(b"\n x = 1 + 2\ny"));
    assert!(one.statement().is_ok());
    assert_eq!((one.tokenizer.position, one.tokenizer.line, one.tokenizer.column), (11, 2, 11));
    let mut a = Analyzer::new(b"int x = 1\nx = 2\n\n");
    assert_eq!(a.analyze(), Ok(()));
    assert_eq!((a.parser.tokenizer.position, a.parser.tokenizer.line, a.parser.tokenizer.column), (15, 2, 6));
}

#[test]
fn token_builders() {
    let t = Token::new(TokenType::Plus, 3, 4);
    assert_eq!((t.kind, t.char, t.string.as_str(), t.number, t.line, t.column), (TokenType::Plus, '\0', "", 0, 3, 4));
    assert_eq!(Token::keyword_literal(String::from("if"), 1, 1).kind, TokenType::Keyword);
    assert_eq!(Token::identifier_literal(String::from("x"), 1, 1).string, "x");
    assert_eq!(Token::char_literal('c', 1, 1).char, 'c');
    assert_eq!(Token::string_literal(String::from("s"), 1, 1).kind, TokenType::String);
    assert_eq!(Token::number_literal(7, 1, 1).number, 7);
    let op = Token::operator(TokenType::Slash, "/", 2, 9);
    assert_eq!((op.kind, op.string.as_str(), op.column), (TokenType::Slash, "/", 9));
    let copy = op.duplicate();
    assert_eq!((copy.kind, copy.string.as_str(), copy.line), (TokenType::Slash, "/", 2));
    assert!(bfscript::tokenizer::is_whitespace('\t'));
    assert!(!bfscript::tokenizer::is_whitespace('x'));
    assert!(bfscript::tokenizer::is_digit('7'));
    assert!(!bfscript::tokenizer::is_digit('a'));
    assert!(bfscript::tokenizer::is_alpha('_'));
    assert!(!bfscript::tokenizer::is_alpha('1'));
}

fn parse(source: &str) -> Result<String, CompileError> {
    let mut parser = Parser::new(Tokenizer::new(source.as_bytes()));
    Ok(parser.expression()?.stringify())
}

#[test]
fn expressions_group_by_level() {
    assert_eq!(parse("1 + 2 * 3").unwrap(), "(1+(2*3))");
    assert_eq!(parse("1 * 2 + 3").unwrap(), "((1*2)+3)");
    assert_eq!(parse("8 - 2 - 1").unwrap(), "((8-2)-1)");
    assert_eq!(parse("a * b / c").unwrap(), "(a*(b/c))");
    assert_eq!(parse("a / b * c").unwrap(), "((a/b)*c)");
    assert_eq!(parse("1 + 2 > 3 - 4").unwrap(), "((1+2)>(3-4))");
    assert_eq!(parse("x == 1 != 2").unwrap(), "((x==1)!=2)");
}

#[test]
fn calls_take_arguments() {
    assert_eq!(parse("f()").unwrap(), "f()");
    assert_eq!(parse("write(h, \"ab\")").unwrap(), "write(h,ab,)");
    assert_eq!(parse("print(1 + 2)").unwrap(), "print((1+2),)");
    assert_eq!(parse("f(g(1), 2,)").unwrap(), "f(g(1,),2,)");
    assert_eq!(parse("f(1 2)"), Err(CompileError::UnexpectedToken));
    assert_eq!(parse("f(1"), Err(CompileError::UnexpectedToken));
}

#[test]
fn each_level_parses_its_own_operators() {
    let mut p = Parser::new(Tokenizer::new(b"1 / 2 * 3"));
    assert_eq!(p.div().unwrap().stringify(), "(1/2)");
    let mut p = Parser::new(Tokenizer::new(b"1 * 2 + 3"));
    assert_eq!(p.mul().unwrap().stringify(), "(1*2)");
    let mut p = Parser::new(Tokenizer::new(b"1 + 2 > 3"));
    assert_eq!(p.addsub().unwrap().stringify(), "(1+2)");
    let mut p = Parser::new(Tokenizer::new(b"1 > 2 }"));
    assert_eq!(p.comparison().unwrap().stringify(), "(1>2)");
    let mut p = Parser::new(Tokenizer::new(b"1 > 2"));
    assert_eq!(p.logic().unwrap().stringify(), "(1>2)");
    let mut p = Parser::new(Tokenizer::new(b"x(1) + 2"));
    assert_eq!(p.primary().unwrap().stringify(), "x(1,)");
}

#[test]
fn statements_by_their_shape() {
    let mut p = Parser::new(Tokenizer::new(
        b"int x = 1\nx = x + 1\nif x { print(x) }\nwhile x > 0 { x = x - 1 print(x) }\nreturn x\nprint(x)",
    ));
    let decl = p.statement().unwrap();
    assert_eq!(decl.kind, StatementType::VarDecl);
    assert_eq!(decl.typename.unwrap().string, "int");
    assert_eq!(decl.name.unwrap().string, "x");
    assert_eq!(decl.expression.unwrap().stringify(), "1");
    let assign = p.statement().unwrap();
    assert_eq!(assign.kind, StatementType::Assignment);
    assert_eq!(assign.expression.unwrap().stringify(), "(x+1)");
    let check = p.statement().unwrap();
    assert_eq!(check.kind, StatementType::If);
    assert_eq!(check.condition.unwrap().stringify(), "x");
    assert_eq!(check.block.unwrap().len(), 1);
    let lp = p.statement().unwrap();
    assert_eq!(lp.kind, StatementType::While);
    assert_eq!(lp.block.unwrap().len(), 2);
    assert_eq!(p.statement().unwrap().kind, StatementType::Return);
    assert_eq!(p.statement().unwrap().kind, StatementType::Expression);
    let mut q = Parser::new(Tokenizer::new(b"int x = 1\nprint(x)"));
    assert_eq!(q.program().unwrap().len(), 2);
    let mut open = Parser::new(Tokenizer::new(b"if x { print(x)"));
    assert_eq!(open.statement().err(), Some(CompileError::UnexpectedToken));
}

#[test]
fn expression_builders_and_text() {
    let one = Expression::new_literal(Token::number_literal(-12, 1, 1));
    assert_eq!(one.kind, ExpressionType::Literal);
    assert_eq!(one.stringify(), "-12");
    assert_eq!(Expression::new_literal(Token::number_literal(0, 1, 1)).stringify(), "0");
    assert_eq!(
        Expression::new_literal(Token::number_literal(i64::MIN, 1, 1)).stringify(),
        "-9223372036854775808"
    );
    assert_eq!(bfscript::parser::number_string(1000), "1000");
    let x = Expression::new_literal(Token::identifier_literal(String::from("x"), 1, 1));
    let sum = Expression::new_binary(one, Token::operator(TokenType::Plus, "+", 1, 1), x);
    assert_eq!(sum.stringify(), "(-12+x)");
    let call = Expression::new_call(Token::identifier_literal(String::from("f"), 1, 1), vec![sum.duplicate()]);
    assert_eq!(call.stringify(), "f((-12+x),)");
    assert_eq!(Expression::new(ExpressionType::Unary).stringify(), "");
    assert_eq!(Expression::new(ExpressionType::Binary).stringify(), "()");
    assert_eq!(Expression::new_literal(Token::char_literal('c', 1, 1)).stringify(), "");
    let s = Statement::new(StatementType::Return);
    assert!(s.name.is_none() && s.expression.is_none() && s.block.is_none());
}

fn info_of(source: &str) -> Result<(String, usize), CompileError> {
    let mut analyzer = Analyzer::new(b"");
    analyzer.scope.set(String::from("n"), ValueInfo::new(String::from("int"), 1));
    analyzer.scope.set(String::from("s"), ValueInfo::new(String::from("string"), 5));
    let mut parser = Parser::new(Tokenizer::new(source.as_bytes()));
    let expr = parser.expression()?;
    let info = analyzer.analyze_expr(expr)?;
    Ok((info.typename, info.size))
}

#[test]
fn types_and_sizes_of_expressions() {
    assert_eq!(info_of("12").unwrap(), (String::from("int"), 1));
    assert_eq!(info_of("'c'").unwrap(), (String::from("char"), 1));
    assert_eq!(info_of("\"hello\"").unwrap(), (String::from("string"), 5));
    assert_eq!(info_of("\"\"").unwrap(), (String::from("string"), 0));
    assert_eq!(info_of("s").unwrap(), (String::from("string"), 5));
    assert_eq!(info_of("s + n").unwrap(), (String::from("string"), 5));
    assert_eq!(info_of("n + s").unwrap(), (String::from("int"), 1));
    assert_eq!(info_of("open(s)").unwrap(), (String::from("int"), 1));
    assert_eq!(info_of("write(n, s)").unwrap(), (String::from("int"), 1));
    assert_eq!(info_of("read(7)").unwrap(), (String::from("string"), 7));
    assert_eq!(info_of("print(n)").unwrap(), (String::from("void"), 0));
    assert_eq!(info_of("other(n)").unwrap(), (String::from("Unknown"), 0));
    assert_eq!(info_of("read(n)"), Err(CompileError::ReadNeedsLiteral));
    assert_eq!(info_of("read()"), Err(CompileError::ReadNeedsLiteral));
    assert_eq!(info_of("missing"), Err(CompileError::UnknownVariable));
    assert_eq!(info_of("n + missing"), Err(CompileError::UnknownVariable));
    assert_eq!(info_of("if"), Err(CompileError::Malformed));
}

#[test]
fn analysis_of_a_program() {
    let mut analyzer = Analyzer::new(b"int x = 1\nstring s = \"abc\"\nx = x + 2\nstring t = read(4)\ns = t\nif x { int y = 1 }");
    assert_eq!(analyzer.analyze(), Ok(()));
    assert_eq!(analyzer.scope.get("x").unwrap().value.size, 1);
    assert_eq!(analyzer.scope.get("s").unwrap().value.size, 4);
    assert_eq!(analyzer.scope.get("t").unwrap().value.typename, "string");
    assert!(analyzer.scope.get("y").is_none());
    let mut bad = Analyzer::new(b"int x = 1\nx = 'c'");
    assert_eq!(bad.analyze(), Err(CompileError::TypeMismatch));
    assert_eq!(bad.scope.variables.len(), 0);
    assert_eq!((bad.parser.tokenizer.position, bad.parser.tokenizer.line, bad.parser.tokenizer.column), (0, 1, 1));
    let mut undefined = Analyzer::new(b"x = 1");
    assert_eq!(undefined.analyze(), Err(CompileError::UnknownVariable));
    let mut malformed = Analyzer::new(b"");
    assert_eq!(
        malformed.analyze_stmt(Statement::new(StatementType::VarDecl)),
        Err(CompileError::Malformed)
    );
    assert_eq!(malformed.analyze_stmt(Statement::new(StatementType::Return)), Ok(()));
}

#[test]
fn analyzer_scope_rebinds_in_place() {
    let mut scope = Scope::new(None);
    scope.set(String::from("a"), ValueInfo::new(String::from("int"), 1));
    scope.set(String::from("b"), ValueInfo::new(String::from("int"), 1));
    scope.set(String::from("a"), ValueInfo::new(String::from("string"), 9));
    assert_eq!(scope.variables.len(), 2);
    assert_eq!(scope.variables[0].name, "a");
    assert_eq!(scope.get("a").unwrap().value.size, 9);
    assert!(scope.get("c").is_none());
    let child = Scope::new(Some(scope));
    assert!(child.parent.is_some());
    assert!(child.get("a").is_none());
    assert!(Scope::new_child().parent.is_none());
    let d = ValueInfo::default();
    assert_eq!((d.typename.as_str(), d.size), ("Unknown", 0));
    let v = bfscript::analyzer::Variable::new(String::from("v"), d.duplicate());
    assert_eq!(v.name, "v");
}

#[test]
fn builder_pieces() {
    let mut b = BFBuilder::new(2);
    b.indent().string("+").nl();
    assert_eq!(b.data, "\t\t+\n");
    let mut inner = b.bfloop(true);
    assert_eq!((inner.data.as_str(), inner.indent), ("\t\t[", 2));
    inner.end();
    assert_eq!(inner.data, "\t\t[\t]");
    let mut flat = b.bfloop(false);
    assert_eq!(flat.indent, 0);
    flat.string("-").end();
    assert_eq!(flat.data, "\t\t[-]");
    let mut gen = bfscript::Generator::new();
    let mut go = bfscript::Goto::new(2);
    assert_eq!(b.instruction(&mut gen, &mut go).cell, 2);
    assert_eq!(b.data, "\t\t+\n\t\t>>");
    assert_eq!(gen.cell, 2);
    assert_eq!(bfscript::builder::repeated('x', 3), "xxx");
}
