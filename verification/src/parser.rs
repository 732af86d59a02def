//! The syntax tree and the recursive-descent parser that builds it.

use crate::error::CompileError;
use crate::tokenizer::{ahead, first_error, lemma_lex_advances, lex, looked, Lexeme, Token, TokenType, Tokenizer};
use vstd::prelude::*;
use vstd::string::StringExecFns;

verus! {

/// The payload of a token, without its place in the source.
pub struct Word {
    pub kind: TokenType,
    pub char: char,
    pub string: Seq<char>,
    pub number: i64,
}

impl Lexeme {
    /// The payload of the lexeme.
    pub open spec fn word(self) -> Word {
        Word { kind: self.kind, char: self.char, string: self.string, number: self.number }
    }
}

impl Token {
    /// The payload of the token.
    pub open spec fn word(self) -> Word {
        Word { kind: self.kind, char: self.char, string: self.string@, number: self.number }
    }
}

/// The shape of an expression.
#[derive(Debug, PartialEq, Eq, Clone, Copy, Structural)]
pub enum ExpressionType {
    Binary,
    Unary,
    Literal,
    Call,
}

/// An expression: a binary operation, a literal, or a call.
#[derive(Debug)]
pub struct Expression {
    pub kind: ExpressionType,
    pub left: Option<Box<Expression>>,
    pub operator: Option<Token>,
    pub right: Option<Box<Expression>>,
    pub value: Option<Token>,
    pub target: Option<Token>,
    pub args: Option<Vec<Expression>>,
}

/// Mathematical value of an [`Expression`].
pub struct ExprModel {
    pub kind: ExpressionType,
    pub left: Option<Box<ExprModel>>,
    pub operator: Option<Word>,
    pub right: Option<Box<ExprModel>>,
    pub value: Option<Word>,
    pub target: Option<Word>,
    pub args: Option<Seq<ExprModel>>,
}

/// The payload of an optional token.
pub open spec fn word_of(t: Option<Token>) -> Option<Word> {
    match t {
        Some(t) => Some(t.word()),
        None => None,
    }
}

/// The value of an expression.
pub open spec fn expr_model(e: Expression) -> ExprModel
    decreases e,
{
    ExprModel {
        kind: e.kind,
        left: match e.left {
            Some(b) => Some(Box::new(expr_model(*b))),
            None => None,
        },
        operator: word_of(e.operator),
        right: match e.right {
            Some(b) => Some(Box::new(expr_model(*b))),
            None => None,
        },
        value: word_of(e.value),
        target: word_of(e.target),
        args: match e.args {
            Some(v) => Some(
                Seq::new(
                    v@.len(),
                    |i: int|
                        if 0 <= i < v@.len() {
                            expr_model(v@[i])
                        } else {
                            arbitrary()
                        },
                ),
            ),
            None => None,
        },
    }
}

/// The values of a sequence of expressions.
pub open spec fn expr_models(v: Seq<Expression>) -> Seq<ExprModel> {
    Seq::new(
        v.len(),
        |i: int|
            if 0 <= i < v.len() {
                expr_model(v[i])
            } else {
                arbitrary()
            },
    )
}

/// The value of an expression, part by part.
pub proof fn lemma_expr_parts(e: Expression)
    ensures
        e@.kind == e.kind,
        e@.operator == word_of(e.operator),
        e@.value == word_of(e.value),
        e@.target == word_of(e.target),
        e@.left == (match e.left {
            Some(l) => Some(Box::new(l@)),
            None => None,
        }),
        e@.right == (match e.right {
            Some(r) => Some(Box::new(r@)),
            None => None,
        }),
        e@.args == (match e.args {
            Some(args) => Some(expr_models(args@)),
            None => None,
        }),
{
    if e.args is Some {
        assert(e@.args->0 =~= expr_models(e.args->0@));
    }
}

impl View for Expression {
    type V = ExprModel;

    open spec fn view(&self) -> ExprModel {
        expr_model(*self)
    }
}

/// The literal expression that consists of `value`.
pub open spec fn literal_model(value: Word) -> ExprModel {
    ExprModel {
        kind: ExpressionType::Literal,
        left: None,
        operator: None,
        right: None,
        value: Some(value),
        target: None,
        args: None,
    }
}

/// The call of `target` on `args`.
pub open spec fn call_model(target: Word, args: Seq<ExprModel>) -> ExprModel {
    ExprModel {
        kind: ExpressionType::Call,
        left: None,
        operator: None,
        right: None,
        value: None,
        target: Some(target),
        args: Some(args),
    }
}

/// The binary operation `left operator right`.
pub open spec fn binary_model(left: ExprModel, operator: Word, right: ExprModel) -> ExprModel {
    ExprModel {
        kind: ExpressionType::Binary,
        left: Some(Box::new(left)),
        operator: Some(operator),
        right: Some(Box::new(right)),
        value: None,
        target: None,
        args: None,
    }
}

/// The decimal digits of `n`.
pub open spec fn digits(n: nat) -> Seq<char>
    decreases n,
{
    if n < 10 {
        seq![(n + 48) as char]
    } else {
        digits(n / 10).push((n % 10 + 48) as char)
    }
}

/// The decimal text of `n`.
pub open spec fn number_text(n: int) -> Seq<char> {
    if n < 0 {
        seq!['-'] + digits((-n) as nat)
    } else {
        digits(n as nat)
    }
}

/// The text of an optional word.
pub open spec fn spelled(w: Option<Word>) -> Seq<char> {
    match w {
        Some(w) => w.string,
        None => Seq::empty(),
    }
}

/// The text of an expression: a binary operation in parentheses, a call
/// with a comma behind each argument, a literal by its text or its digits.
pub open spec fn rendered(e: ExprModel) -> Seq<char>
    decreases e, 0int,
{
    match e.kind {
        ExpressionType::Binary => "("@ + (match e.left {
            Some(l) => rendered(*l),
            None => Seq::empty(),
        }) + spelled(e.operator) + (match e.right {
            Some(r) => rendered(*r),
            None => Seq::empty(),
        }) + ")"@,
        ExpressionType::Literal => match e.value {
            Some(value) => if value.kind == TokenType::Keyword || value.kind == TokenType::String
                || value.kind == TokenType::Identifier {
                value.string
            } else if value.kind == TokenType::Number {
                number_text(value.number as int)
            } else {
                Seq::empty()
            },
            None => Seq::empty(),
        },
        ExpressionType::Call => spelled(e.target) + "("@ + (match e.args {
            Some(args) => rendered_list(args, args.len() as int),
            None => Seq::empty(),
        }) + ")"@,
        ExpressionType::Unary => Seq::empty(),
    }
}

/// The texts of the first `k` expressions, a comma behind each.
pub open spec fn rendered_list(args: Seq<ExprModel>, k: int) -> Seq<char>
    decreases args, k,
{
    if 0 < k <= args.len() {
        rendered_list(args, k - 1) + rendered(args[k - 1]) + ","@
    } else {
        Seq::empty()
    }
}

/// The decimal digits of a number that is not negative.
pub fn natural_string(n: u64) -> (s: String)
    ensures
        s@ == digits(n as nat),
{
    let mut magnitude: u64 = n;
    let ghost whole = magnitude as nat;
    let mut reversed: Vec<char> = Vec::new();
    let ghost mut tail: Seq<char> = Seq::empty();
    while magnitude >= 10
        invariant
            reversed@.len() == tail.len(),
            forall|i: int| 0 <= i < tail.len() ==> reversed@[i] == tail[tail.len() - 1 - i],
            digits(whole) == digits(magnitude as nat) + tail,
        decreases magnitude,
    {
        let d = (magnitude % 10) as u8;
        let c = (d + 48) as char;
        reversed.push(c);
        proof {
            assert(digits(magnitude as nat) == digits((magnitude / 10) as nat).push(c));
            assert(digits(magnitude as nat) + tail =~= digits((magnitude / 10) as nat) + (seq![c] + tail));
            tail = seq![c] + tail;
        }
        magnitude = magnitude / 10;
    }
    let mut s = String::new();
    let first = ((magnitude as u8) + 48) as char;
    s.push(first);
    let ghost head = s@;
    assert(digits(magnitude as nat) =~= seq![first]);
    let mut k = reversed.len();
    while k > 0
        invariant
            k <= reversed@.len(),
            reversed@.len() == tail.len(),
            forall|i: int| 0 <= i < tail.len() ==> reversed@[i] == tail[tail.len() - 1 - i],
            s@ == head + tail.take(tail.len() - k),
        decreases k,
    {
        k = k - 1;
        s.push(reversed[k]);
        assert(s@ =~= head + tail.take(tail.len() - k));
    }
    assert(tail.take(tail.len() as int) =~= tail);
    s
}

/// The decimal text of a number.
pub fn number_string(n: i64) -> (s: String)
    ensures
        s@ == number_text(n as int),
{
    if n < 0 {
        let magnitude: u64 = (-(n + 1)) as u64 + 1;
        let mut s = String::new();
        s.push('-');
        let rest = natural_string(magnitude);
        s.append(rest.as_str());
        assert(s@ =~= number_text(n as int));
        s
    } else {
        natural_string(n as u64)
    }
}

impl Expression {
    pub fn new(kind: ExpressionType) -> (e: Expression)
        ensures
            e@ == (ExprModel {
                kind,
                left: None,
                operator: None,
                right: None,
                value: None,
                target: None,
                args: None,
            }),
    {
        Expression { kind, left: None, operator: None, right: None, value: None, target: None, args: None }
    }

    pub fn new_binary(left: Expression, operator: Token, right: Expression) -> (e: Expression)
        ensures
            e@ == binary_model(left@, operator.word(), right@),
            e.kind == ExpressionType::Binary,
            e.left == Some(Box::new(left)),
            e.right == Some(Box::new(right)),
            e.operator == Some(operator),
    {
        Expression {
            kind: ExpressionType::Binary,
            left: Some(Box::new(left)),
            operator: Some(operator),
            right: Some(Box::new(right)),
            value: None,
            target: None,
            args: None,
        }
    }

    pub fn new_literal(value: Token) -> (e: Expression)
        ensures
            e@ == literal_model(value.word()),
            e.kind == ExpressionType::Literal,
            e.value == Some(value),
    {
        Expression {
            kind: ExpressionType::Literal,
            left: None,
            operator: None,
            right: None,
            value: Some(value),
            target: None,
            args: None,
        }
    }

    pub fn new_call(target: Token, args: Vec<Expression>) -> (e: Expression)
        ensures
            e@ == call_model(target.word(), expr_models(args@)),
            e.kind == ExpressionType::Call,
            e.target == Some(target),
            e.args == Some(args),
    {
        let e = Expression {
            kind: ExpressionType::Call,
            left: None,
            operator: None,
            right: None,
            value: None,
            target: Some(target),
            args: Some(args),
        };
        assert(e@.args->0 =~= expr_models(args@));
        e
    }

    /// An expression of the same value.
    pub fn duplicate(&self) -> (e: Expression)
        ensures
            e@ == self@,
        decreases *self,
    {
        let left = match &self.left {
            Some(l) => Some(Box::new(l.duplicate())),
            None => None,
        };
        let right = match &self.right {
            Some(r) => Some(Box::new(r.duplicate())),
            None => None,
        };
        let args = match &self.args {
            Some(args) => Some(duplicate_all(args)),
            None => None,
        };
        let e = Expression {
            kind: self.kind,
            left,
            operator: duplicate_token(&self.operator),
            right,
            value: duplicate_token(&self.value),
            target: duplicate_token(&self.target),
            args,
        };
        proof {
            lemma_expr_parts(e);
            lemma_expr_parts(*self);
        }
        e
    }

    /// The text of the expression.
    pub fn stringify(&self) -> (s: String)
        ensures
            s@ == rendered(self@),
        decreases *self,
    {
        let mut s = String::new();
        match self.kind {
            ExpressionType::Binary => {
                s.append("(");
                match &self.left {
                    Some(l) => {
                        let part = l.stringify();
                        s.append(part.as_str());
                    },
                    None => {},
                }
                match &self.operator {
                    Some(op) => {
                        s.append(op.string.as_str());
                    },
                    None => {},
                }
                match &self.right {
                    Some(r) => {
                        let part = r.stringify();
                        s.append(part.as_str());
                    },
                    None => {},
                }
                s.append(")");
                assert(s@ =~= rendered(self@));
                s
            },
            ExpressionType::Literal => {
                match &self.value {
                    Some(value) => {
                        if value.kind == TokenType::Keyword || value.kind == TokenType::String || value.kind
                            == TokenType::Identifier {
                            s.append(value.string.as_str());
                        } else if value.kind == TokenType::Number {
                            let text = number_string(value.number);
                            s.append(text.as_str());
                        }
                    },
                    None => {},
                }
                assert(s@ =~= rendered(self@));
                s
            },
            ExpressionType::Call => {
                match &self.target {
                    Some(t) => {
                        s.append(t.string.as_str());
                    },
                    None => {},
                }
                s.append("(");
                match &self.args {
                    Some(args) => {
                        let list = stringify_all(args);
                        s.append(list.as_str());
                        assert(self@.args->0 =~= expr_models(args@));
                    },
                    None => {},
                }
                s.append(")");
                assert(s@ =~= rendered(self@));
                s
            },
            ExpressionType::Unary => s,
        }
    }
}

/// An optional token equal to the given one.
fn duplicate_token(t: &Option<Token>) -> (r: Option<Token>)
    ensures
        r == *t,
{
    match t {
        Some(t) => Some(t.duplicate()),
        None => None,
    }
}

/// Expressions of the same values.
fn duplicate_all(args: &Vec<Expression>) -> (r: Vec<Expression>)
    ensures
        expr_models(r@) == expr_models(args@),
    decreases args,
{
    let mut r: Vec<Expression> = Vec::new();
    let mut k: usize = 0;
    while k < args.len()
        invariant
            k <= args.len(),
            r@.len() == k,
            forall|i: int| 0 <= i < k ==> (#[trigger] r@[i])@ == args@[i]@,
        decreases args.len() - k,
    {
        let e = args[k].duplicate();
        r.push(e);
        k = k + 1;
    }
    assert(expr_models(r@) =~= expr_models(args@));
    r
}

/// The texts of the expressions, a comma behind each.
fn stringify_all(args: &Vec<Expression>) -> (s: String)
    ensures
        s@ == rendered_list(expr_models(args@), args@.len() as int),
    decreases args,
{
    let mut s = String::new();
    let mut k: usize = 0;
    while k < args.len()
        invariant
            k <= args.len(),
            s@ == rendered_list(expr_models(args@), k as int),
        decreases args.len() - k,
    {
        let part = args[k].stringify();
        s.append(part.as_str());
        s.append(",");
        k = k + 1;
        assert(s@ =~= rendered_list(expr_models(args@), k as int));
    }
    s
}

/// The shape of a statement.
#[derive(Debug, Clone, Copy, PartialEq, Eq, Structural)]
pub enum StatementType {
    If,
    While,
    VarDecl,
    Assignment,
    Return,
    Expression,
}

/// A statement.
#[derive(Debug)]
pub struct Statement {
    pub kind: StatementType,
    pub name: Option<Token>,
    pub typename: Option<Token>,
    pub condition: Option<Expression>,
    pub block: Option<Vec<Statement>>,
    pub expression: Option<Expression>,
}

/// Mathematical value of a [`Statement`].
pub struct StmtModel {
    pub kind: StatementType,
    pub name: Option<Word>,
    pub typename: Option<Word>,
    pub condition: Option<ExprModel>,
    pub block: Option<Seq<StmtModel>>,
    pub expression: Option<ExprModel>,
}

/// The value of an optional expression.
pub open spec fn model_of(e: Option<Expression>) -> Option<ExprModel> {
    match e {
        Some(e) => Some(expr_model(e)),
        None => None,
    }
}

/// The value of a statement.
pub open spec fn stmt_model(s: Statement) -> StmtModel
    decreases s,
{
    StmtModel {
        kind: s.kind,
        name: word_of(s.name),
        typename: word_of(s.typename),
        condition: model_of(s.condition),
        block: match s.block {
            Some(v) => Some(
                Seq::new(
                    v@.len(),
                    |i: int|
                        if 0 <= i < v@.len() {
                            stmt_model(v@[i])
                        } else {
                            arbitrary()
                        },
                ),
            ),
            None => None,
        },
        expression: model_of(s.expression),
    }
}

/// The values of a sequence of statements.
pub open spec fn stmt_models(v: Seq<Statement>) -> Seq<StmtModel> {
    Seq::new(
        v.len(),
        |i: int|
            if 0 <= i < v.len() {
                stmt_model(v[i])
            } else {
                arbitrary()
            },
    )
}

/// The value of a statement, part by part.
pub proof fn lemma_stmt_parts(s: Statement)
    ensures
        s@.kind == s.kind,
        s@.name == word_of(s.name),
        s@.typename == word_of(s.typename),
        s@.condition == model_of(s.condition),
        s@.expression == model_of(s.expression),
        s@.block == (match s.block {
            Some(block) => Some(stmt_models(block@)),
            None => None,
        }),
{
    if s.block is Some {
        assert(s@.block->0 =~= stmt_models(s.block->0@));
    }
}

impl View for Statement {
    type V = StmtModel;

    open spec fn view(&self) -> StmtModel {
        stmt_model(*self)
    }
}

impl Statement {
    pub fn new(kind: StatementType) -> (s: Statement)
        ensures
            s@ == bare(kind),
            s.kind == kind,
            s.name is None,
            s.typename is None,
            s.condition is None,
            s.block is None,
            s.expression is None,
    {
        Statement { kind, condition: None, block: None, expression: None, name: None, typename: None }
    }
}

/// A statement of the given kind with no parts.
pub open spec fn bare(kind: StatementType) -> StmtModel {
    StmtModel { kind, name: None, typename: None, condition: None, block: None, expression: None }
}

/// What a grammar rule yields: the tree and the position behind it.
pub struct Parsed<T> {
    pub value: T,
    pub end: int,
}

/// The binary levels of the grammar, from the loosest to the tightest.
#[derive(Clone, Copy, PartialEq, Eq, Structural)]
pub enum Level {
    Comparison,
    AddSub,
    Mul,
    Div,
}

/// Whether a token of kind `kind` is an operator of `level`.
pub open spec fn operates(level: Level, kind: TokenType) -> bool {
    match level {
        Level::Comparison => kind == TokenType::EqualEqual || kind == TokenType::NotEqual || kind
            == TokenType::GT || kind == TokenType::LT || kind == TokenType::GTEqual || kind
            == TokenType::LTEqual,
        Level::AddSub => kind == TokenType::Plus || kind == TokenType::Minus,
        Level::Mul => kind == TokenType::Times,
        Level::Div => kind == TokenType::Slash,
    }
}

/// The position of a level in the order of the grammar's rules.
pub open spec fn rank(level: Level) -> int {
    match level {
        Level::Comparison => 12,
        Level::AddSub => 9,
        Level::Mul => 6,
        Level::Div => 3,
    }
}

/// The call of `target` on parsed arguments.
pub open spec fn called(target: Word, args: Result<Parsed<Seq<ExprModel>>, CompileError>) -> Result<
    Parsed<ExprModel>,
    CompileError,
> {
    match args {
        Err(e) => Err(e),
        Ok(args) => Ok(Parsed { value: call_model(target, args.value), end: args.end }),
    }
}

/// The `if` or `while` on `condition` over a parsed block.
pub open spec fn enclosing(
    kind: StatementType,
    condition: ExprModel,
    block: Result<Parsed<Seq<StmtModel>>, CompileError>,
) -> Result<Parsed<StmtModel>, CompileError> {
    match block {
        Err(e) => Err(e),
        Ok(block) => Ok(Parsed { value: guarded(kind, condition, block.value), end: block.end }),
    }
}

/// A primary expression: a token, taken as a literal, or, if `(` follows
/// it, as the target of a call whose arguments run to the matching `)`.
pub open spec fn g_primary(src: Seq<u8>, pos: int) -> Result<Parsed<ExprModel>, CompileError>
    decreases src.len() - pos, 0int,
{
    match lex(src, pos) {
        Err(e) => Err(e),
        Ok(tok) => match lex(src, tok.end) {
            Err(e) => Err(e),
            Ok(paren) => if paren.kind != TokenType::LParen {
                Ok(Parsed { value: literal_model(tok.word()), end: tok.end })
            } else {
                match lex(src, paren.end) {
                    Err(e) => Err(e),
                    Ok(first) => if first.kind == TokenType::RParen {
                        Ok(Parsed { value: call_model(tok.word(), Seq::empty()), end: first.end })
                    } else if pos < paren.end <= src.len() {
                        called(tok.word(), g_arguments(src, paren.end, Seq::empty()))
                    } else {
                        Err(CompileError::UnexpectedToken)
                    },
                }
            },
        },
    }
}

/// The arguments of a call from `pos` to the closing `)`: expressions, each
/// followed by `,` or by the `)`.
pub open spec fn g_arguments(src: Seq<u8>, pos: int, acc: Seq<ExprModel>) -> Result<
    Parsed<Seq<ExprModel>>,
    CompileError,
>
    decreases src.len() - pos, 16int,
{
    match lex(src, pos) {
        Err(e) => Err(e),
        Ok(t) => if t.kind == TokenType::RParen {
            Ok(Parsed { value: acc, end: t.end })
        } else {
            match g_expression(src, pos) {
                Err(e) => Err(e),
                Ok(arg) => match lex(src, arg.end) {
                    Err(e) => Err(e),
                    Ok(sep) => if sep.kind == TokenType::Separator {
                        if pos < sep.end <= src.len() {
                            g_arguments(src, sep.end, acc.push(arg.value))
                        } else {
                            Err(CompileError::UnexpectedToken)
                        }
                    } else if sep.kind == TokenType::RParen {
                        Ok(Parsed { value: acc.push(arg.value), end: sep.end })
                    } else {
                        Err(CompileError::UnexpectedToken)
                    },
                },
            }
        },
    }
}

/// The operand of `level`: an expression of the next tighter level.
pub open spec fn g_operand(level: Level, src: Seq<u8>, pos: int) -> Result<Parsed<ExprModel>, CompileError>
    decreases src.len() - pos, rank(level) - 1,
{
    match level {
        Level::Comparison => g_level(Level::AddSub, src, pos),
        Level::AddSub => g_level(Level::Mul, src, pos),
        Level::Mul => g_level(Level::Div, src, pos),
        Level::Div => g_primary(src, pos),
    }
}

/// An expression of `level`: operands joined by operators of that level,
/// grouped from the left.
pub open spec fn g_level(level: Level, src: Seq<u8>, pos: int) -> Result<Parsed<ExprModel>, CompileError>
    decreases src.len() - pos, rank(level) + 1,
{
    match g_operand(level, src, pos) {
        Err(e) => Err(e),
        Ok(left) => if pos <= left.end <= src.len() {
            g_rest(level, src, left.end, left.value)
        } else {
            Err(CompileError::UnexpectedToken)
        },
    }
}

/// What follows the operand `left` of `level`: nothing, or an operator of
/// the level and a further operand, and so on.
pub open spec fn g_rest(level: Level, src: Seq<u8>, pos: int, left: ExprModel) -> Result<
    Parsed<ExprModel>,
    CompileError,
>
    decreases src.len() - pos, rank(level),
{
    match lex(src, pos) {
        Err(e) => Err(e),
        Ok(op) => if !operates(level, op.kind) {
            Ok(Parsed { value: left, end: pos })
        } else if pos <= op.end <= src.len() {
            match g_operand(level, src, op.end) {
                Err(e) => Err(e),
                Ok(right) => if pos < right.end <= src.len() {
                    g_rest(level, src, right.end, binary_model(left, op.word(), right.value))
                } else {
                    Err(CompileError::UnexpectedToken)
                },
            }
        } else {
            Err(CompileError::UnexpectedToken)
        },
    }
}

/// An expression.
pub open spec fn g_expression(src: Seq<u8>, pos: int) -> Result<Parsed<ExprModel>, CompileError>
    decreases src.len() - pos, 15int,
{
    g_level(Level::Comparison, src, pos)
}

/// The statement that declares `name` of type `typename` as `value`.
pub open spec fn declaration(typename: Word, name: Word, value: ExprModel) -> StmtModel {
    StmtModel {
        kind: StatementType::VarDecl,
        name: Some(name),
        typename: Some(typename),
        condition: None,
        block: None,
        expression: Some(value),
    }
}

/// The statement that assigns `value` to `name`.
pub open spec fn assignment(name: Word, value: ExprModel) -> StmtModel {
    StmtModel {
        kind: StatementType::Assignment,
        name: Some(name),
        typename: None,
        condition: None,
        block: None,
        expression: Some(value),
    }
}

/// The `if` or `while` statement on `condition` over `block`.
pub open spec fn guarded(kind: StatementType, condition: ExprModel, block: Seq<StmtModel>) -> StmtModel {
    StmtModel {
        kind,
        name: None,
        typename: None,
        condition: Some(condition),
        block: Some(block),
        expression: None,
    }
}

/// The statement of `kind` that consists of `value`.
pub open spec fn valued(kind: StatementType, value: ExprModel) -> StmtModel {
    StmtModel { kind, name: None, typename: None, condition: None, block: None, expression: Some(value) }
}

/// A statement.
///
/// With `=` as the third token it is a declaration `type name = value`,
/// with `=` as the second an assignment `name = value`. Otherwise the
/// first token decides: `if` and `while` take a condition and a braced
/// block, `return` takes an expression, and anything else is an expression
/// by itself.
pub open spec fn g_statement(src: Seq<u8>, pos: int) -> Result<Parsed<StmtModel>, CompileError>
    decreases src.len() - pos, 20int,
{
    match first_error(src, pos, 3) {
        Some(e) => Err(e),
        None => {
            let t0 = lex(src, pos)->Ok_0;
            let t1 = lex(src, ahead(src, pos, 1))->Ok_0;
            let t2 = lex(src, ahead(src, pos, 2))->Ok_0;
            if t2.kind == TokenType::Equal {
                if t0.kind != TokenType::Identifier || t1.kind != TokenType::Identifier {
                    Err(CompileError::UnexpectedToken)
                } else if pos <= t2.end <= src.len() {
                    match g_expression(src, t2.end) {
                        Err(e) => Err(e),
                        Ok(v) => Ok(
                            Parsed { value: declaration(t0.word(), t1.word(), v.value), end: v.end },
                        ),
                    }
                } else {
                    Err(CompileError::UnexpectedToken)
                }
            } else if t1.kind == TokenType::Equal {
                if t0.kind != TokenType::Identifier {
                    Err(CompileError::UnexpectedToken)
                } else if pos <= t1.end <= src.len() {
                    match g_expression(src, t1.end) {
                        Err(e) => Err(e),
                        Ok(v) => Ok(Parsed { value: assignment(t0.word(), v.value), end: v.end }),
                    }
                } else {
                    Err(CompileError::UnexpectedToken)
                }
            } else if t0.string == "if"@ {
                g_guarded(StatementType::If, src, pos, t0.end)
            } else if t0.string == "while"@ {
                g_guarded(StatementType::While, src, pos, t0.end)
            } else if t0.string == "return"@ {
                if pos <= t0.end <= src.len() {
                    match g_expression(src, t0.end) {
                        Err(e) => Err(e),
                        Ok(v) => Ok(Parsed { value: valued(StatementType::Return, v.value), end: v.end }),
                    }
                } else {
                    Err(CompileError::UnexpectedToken)
                }
            } else {
                match g_expression(src, pos) {
                    Err(e) => Err(e),
                    Ok(v) => Ok(Parsed { value: valued(StatementType::Expression, v.value), end: v.end }),
                }
            }
        },
    }
}

/// The rest of an `if` or `while` that began at `start`, from behind the
/// keyword: the condition, `{`, the block and `}`.
pub open spec fn g_guarded(kind: StatementType, src: Seq<u8>, start: int, pos: int) -> Result<
    Parsed<StmtModel>,
    CompileError,
>
    decreases src.len() - start, 19int,
{
    if start < pos <= src.len() {
        match g_expression(src, pos) {
            Err(e) => Err(e),
            Ok(condition) => match lex(src, condition.end) {
                Err(e) => Err(e),
                Ok(brace) => if brace.kind != TokenType::LBrace {
                    Err(CompileError::UnexpectedToken)
                } else if start < brace.end <= src.len() {
                    enclosing(kind, condition.value, g_block(src, brace.end, Seq::empty()))
                } else {
                    Err(CompileError::UnexpectedToken)
                },
            },
        }
    } else {
        Err(CompileError::UnexpectedToken)
    }
}

/// The statements of a block from `pos` to the closing `}`.
pub open spec fn g_block(src: Seq<u8>, pos: int, acc: Seq<StmtModel>) -> Result<
    Parsed<Seq<StmtModel>>,
    CompileError,
>
    decreases src.len() - pos, 21int,
{
    match lex(src, pos) {
        Err(e) => Err(e),
        Ok(t) => if pos >= src.len() || t.kind == TokenType::RBrace {
            if t.kind == TokenType::RBrace {
                Ok(Parsed { value: acc, end: t.end })
            } else {
                Err(CompileError::UnexpectedToken)
            }
        } else {
            match g_statement(src, pos) {
                Err(e) => Err(e),
                Ok(s) => if pos < s.end <= src.len() {
                    g_block(src, s.end, acc.push(s.value))
                } else {
                    Err(CompileError::UnexpectedToken)
                },
            }
        },
    }
}

/// The statements of a program from `pos` to the end of the source.
pub open spec fn g_program(src: Seq<u8>, pos: int, acc: Seq<StmtModel>) -> Result<Seq<StmtModel>, CompileError>
    decreases src.len() - pos, 22int,
{
    match lex(src, pos) {
        Err(e) => Err(e),
        Ok(t) => if t.kind == TokenType::EndOfFile {
            Ok(acc)
        } else {
            match g_statement(src, pos) {
                Err(e) => Err(e),
                Ok(s) => if pos < s.end <= src.len() {
                    g_program(src, s.end, acc.push(s.value))
                } else {
                    Err(CompileError::UnexpectedToken)
                },
            }
        },
    }
}

/// The position behind the last statement of the source from `pos` on,
/// where only the end of the source is left to read; or the position of
/// the first statement that cannot be read.
pub open spec fn program_end(src: Seq<u8>, pos: int) -> int
    decreases src.len() - pos,
{
    match lex(src, pos) {
        Err(e) => pos,
        Ok(t) => if t.kind == TokenType::EndOfFile {
            pos
        } else {
            match g_statement(src, pos) {
                Err(e) => pos,
                Ok(s) => if pos < s.end <= src.len() {
                    program_end(src, s.end)
                } else {
                    pos
                },
            }
        },
    }
}

/// The outcome of parsing an expression is the one that the grammar
/// determines: the same error, or the same tree with the parser right
/// behind it.
pub open spec fn parsed_expr(
    r: Result<Expression, CompileError>,
    want: Result<Parsed<ExprModel>, CompileError>,
    position: int,
) -> bool {
    match want {
        Ok(p) => r is Ok && r->Ok_0@ == p.value && position == p.end,
        Err(e) => r == Err::<Expression, CompileError>(e),
    }
}

/// The outcome of parsing a statement is the one that the grammar determines.
pub open spec fn parsed_stmt(
    r: Result<Statement, CompileError>,
    want: Result<Parsed<StmtModel>, CompileError>,
    position: int,
) -> bool {
    match want {
        Ok(p) => r is Ok && r->Ok_0@ == p.value && position == p.end,
        Err(e) => r == Err::<Statement, CompileError>(e),
    }
}

/// Builds syntax trees from the tokens of a source.
pub struct Parser<'a> {
    pub tokenizer: Tokenizer<'a>,
}

impl<'a> Parser<'a> {
    /// The parser stands inside its source.
    pub open spec fn wf(&self) -> bool {
        self.tokenizer.position <= self.tokenizer.source@.len()
    }

    /// The source that is parsed.
    pub open spec fn source(&self) -> Seq<u8> {
        self.tokenizer.source@
    }

    /// The position up to which the source has been read.
    pub open spec fn position(&self) -> int {
        self.tokenizer.position as int
    }

    /// The number of bytes not yet read.
    pub open spec fn remaining(&self) -> int {
        self.tokenizer.source@.len() - self.tokenizer.position
    }

    /// The parser moved forward inside the same source, and its line and
    /// column are those of its position if they were before.
    pub open spec fn follows(&self, before: &Parser<'a>) -> bool {
        &&& self.wf()
        &&& self.tokenizer.source == before.tokenizer.source
        &&& before.tokenizer.position <= self.tokenizer.position
        &&& before.tokenizer.placed() ==> self.tokenizer.placed()
    }

    pub fn new(tokenizer: Tokenizer<'a>) -> (p: Parser<'a>)
        ensures
            p.tokenizer == tokenizer,
    {
        Parser { tokenizer }
    }

    /// Whether the next token has the given kind.
    fn sees(&mut self, kind: TokenType) -> (r: Result<bool, CompileError>)
        requires
            old(self).wf(),
        ensures
            *final(self) == *old(self),
            match lex(old(self).source(), old(self).position()) {
                Ok(t) => r == Ok::<bool, CompileError>(t.kind == kind),
                Err(e) => r == Err::<bool, CompileError>(e),
            },
    {
        let token = self.tokenizer.peek_token()?;
        Ok(token.kind == kind)
    }

    /// Parses one statement, leaving the tokenizer where an error stopped
    /// it.
    fn parse_statement(&mut self) -> (r: Result<Statement, CompileError>)
        requires
            old(self).wf(),
        ensures
            final(self).follows(old(self)),
            parsed_stmt(r, g_statement(old(self).source(), old(self).position()), final(self).position()),
        decreases old(self).remaining(), 20int,
    {
        let ghost src = self.source();
        let ghost pos = self.position();
        let tokens = self.tokenizer.peek_many(3)?;
        proof {
            reveal_with_fuel(first_error, 4);
            reveal_with_fuel(ahead, 4);
            assert(looked(tokens@, src, pos, 0));
            assert(looked(tokens@, src, pos, 1));
            assert(looked(tokens@, src, pos, 2));
            lemma_lex_advances(src, pos);
            lemma_lex_advances(src, ahead(src, pos, 1));
            lemma_lex_advances(src, ahead(src, pos, 2));
            reveal_strlit("if");
            reveal_strlit("while");
        }
        if tokens[2].kind == TokenType::Equal {
            let vartype = self.tokenizer.expect(TokenType::Identifier)?;
            let varname = self.tokenizer.expect(TokenType::Identifier)?;
            self.tokenizer.next()?;
            let varvalue = self.parse_expression()?;
            let mut stmt = Statement::new(StatementType::VarDecl);
            stmt.typename = Some(vartype);
            stmt.name = Some(varname);
            stmt.expression = Some(varvalue);
            return Ok(stmt);
        }
        if tokens[1].kind == TokenType::Equal {
            let varname = self.tokenizer.expect(TokenType::Identifier)?;
            self.tokenizer.next()?;
            let varvalue = self.parse_expression()?;
            let mut stmt = Statement::new(StatementType::Assignment);
            stmt.name = Some(varname);
            stmt.expression = Some(varvalue);
            return Ok(stmt);
        }
        if tokens[0].string == String::from_str("if") {
            return self.guarded(StatementType::If, Ghost(pos));
        }
        if tokens[0].string == String::from_str("while") {
            return self.guarded(StatementType::While, Ghost(pos));
        }
        if tokens[0].string == String::from_str("return") {
            self.tokenizer.next()?;
            let expression = self.parse_expression()?;
            let mut stmt = Statement::new(StatementType::Return);
            stmt.expression = Some(expression);
            return Ok(stmt);
        }
        let expression = self.parse_expression()?;
        let mut stmt = Statement::new(StatementType::Expression);
        stmt.expression = Some(expression);
        Ok(stmt)
    }

    /// Parses an `if` or a `while` that begins with the next token.
    fn guarded(&mut self, kind: StatementType, Ghost(start): Ghost<int>) -> (r: Result<Statement, CompileError>)
        requires
            old(self).wf(),
            start == old(self).position(),
            lex(old(self).source(), start) is Ok,
            lex(old(self).source(), start)->Ok_0.string.len() > 0,
        ensures
            final(self).follows(old(self)),
            parsed_stmt(
                r,
                g_guarded(kind, old(self).source(), start, lex(old(self).source(), start)->Ok_0.end),
                final(self).position(),
            ),
        decreases old(self).remaining(), 19int,
    {
        let ghost src = self.source();
        proof {
            lemma_lex_advances(src, start);
        }
        self.tokenizer.next()?;
        let condition = self.parse_expression()?;
        let ghost after = self.position();
        proof {
            lemma_lex_advances(src, after);
        }
        self.tokenizer.expect(TokenType::LBrace)?;
        let ghost inside = self.position();
        let ghost goal = g_guarded(kind, src, start, lex(src, start)->Ok_0.end);
        let mut block: Vec<Statement> = Vec::new();
        assert(stmt_models(block@) =~= Seq::<StmtModel>::empty());
        loop
            invariant
                self.wf(),
                self.tokenizer.source == old(self).tokenizer.source,
                old(self).tokenizer.placed() ==> self.tokenizer.placed(),
                src == self.source(),
                start < inside <= self.position(),
                start == old(self).position(),
                goal == g_guarded(kind, src, start, lex(src, start)->Ok_0.end),
                goal == enclosing(kind, condition@, g_block(src, self.position(), stmt_models(block@))),
            ensures
                self.wf(),
                self.tokenizer.source == old(self).tokenizer.source,
                old(self).tokenizer.placed() ==> self.tokenizer.placed(),
                src == self.source(),
                start < inside <= self.position(),
                goal == enclosing(kind, condition@, g_block(src, self.position(), stmt_models(block@))),
                lex(src, self.position()) is Ok,
                self.position() >= src.len() || lex(src, self.position())->Ok_0.kind == TokenType::RBrace,
            decreases self.remaining(),
        {
            let ghost here = self.position();
            proof {
                lemma_lex_advances(src, here);
            }
            let closing = self.sees(TokenType::RBrace)?;
            if self.tokenizer.eof() || closing {
                break ;
            }
            let stmt = self.parse_statement()?;
            proof {
                lemma_statement_advances(src, here);
                assert(stmt_models(block@.push(stmt)) =~= stmt_models(block@).push(stmt@));
            }
            block.push(stmt);
        }
        self.tokenizer.expect(TokenType::RBrace)?;
        let mut stmt = Statement::new(kind);
        stmt.condition = Some(condition);
        let ghost models = stmt_models(block@);
        stmt.block = Some(block);
        assert(stmt@.block->0 =~= models);
        Ok(stmt)
    }

    /// Parses an expression, leaving the tokenizer where an error stopped
    /// it.
    fn parse_expression(&mut self) -> (r: Result<Expression, CompileError>)
        requires
            old(self).wf(),
        ensures
            final(self).follows(old(self)),
            parsed_expr(r, g_expression(old(self).source(), old(self).position()), final(self).position()),
        decreases old(self).remaining(), 15int,
    {
        self.level(Level::Comparison)
    }

    /// Puts the tokenizer back to a place where it stood.
    fn rewind(&mut self, position: usize, line: u32, column: u32)
        ensures
            final(self).tokenizer.source == old(self).tokenizer.source,
            final(self).tokenizer.position == position,
            final(self).tokenizer.line == line,
            final(self).tokenizer.column == column,
    {
        self.tokenizer.position = position;
        self.tokenizer.line = line;
        self.tokenizer.column = column;
    }

    /// Gives the outcome on, with the tokenizer back in its place if the
    /// outcome is an error.
    fn settle(&mut self, r: Result<Expression, CompileError>, position: usize, line: u32, column: u32) -> (out:
        Result<Expression, CompileError>)
        ensures
            out == r,
            r is Ok ==> *final(self) == *old(self),
            r is Err ==> {
                &&& final(self).tokenizer.source == old(self).tokenizer.source
                &&& final(self).tokenizer.position == position
                &&& final(self).tokenizer.line == line
                &&& final(self).tokenizer.column == column
            },
    {
        match r {
            Ok(e) => Ok(e),
            Err(e) => {
                self.rewind(position, line, column);
                Err(e)
            },
        }
    }

    /// Parses one statement. If that fails, the tokenizer is left where it
    /// stood.
    pub fn statement(&mut self) -> (r: Result<Statement, CompileError>)
        requires
            old(self).wf(),
        ensures
            final(self).follows(old(self)),
            parsed_stmt(r, g_statement(old(self).source(), old(self).position()), final(self).position()),
            r is Err ==> *final(self) == *old(self),
    {
        let position = self.tokenizer.position;
        let line = self.tokenizer.line;
        let column = self.tokenizer.column;
        match self.parse_statement() {
            Ok(stmt) => Ok(stmt),
            Err(e) => {
                self.rewind(position, line, column);
                Err(e)
            },
        }
    }

    /// Parses an expression. If that fails, the tokenizer is left where it
    /// stood.
    pub fn expression(&mut self) -> (r: Result<Expression, CompileError>)
        requires
            old(self).wf(),
        ensures
            final(self).follows(old(self)),
            parsed_expr(r, g_expression(old(self).source(), old(self).position()), final(self).position()),
            r is Err ==> *final(self) == *old(self),
    {
        let position = self.tokenizer.position;
        let line = self.tokenizer.line;
        let column = self.tokenizer.column;
        let r = self.parse_expression();
        self.settle(r, position, line, column)
    }

    /// Parses an expression of the loosest level. If that fails, the
    /// tokenizer is left where it stood.
    pub fn logic(&mut self) -> (r: Result<Expression, CompileError>)
        requires
            old(self).wf(),
        ensures
            final(self).follows(old(self)),
            parsed_expr(r, g_expression(old(self).source(), old(self).position()), final(self).position()),
            r is Err ==> *final(self) == *old(self),
    {
        let position = self.tokenizer.position;
        let line = self.tokenizer.line;
        let column = self.tokenizer.column;
        let r = self.level(Level::Comparison);
        self.settle(r, position, line, column)
    }

    /// Parses a comparison: sums joined by `==`, `!=`, `<`, `<=`, `>`, `>=`.
    /// If that fails, the tokenizer is left where it stood.
    pub fn comparison(&mut self) -> (r: Result<Expression, CompileError>)
        requires
            old(self).wf(),
        ensures
            final(self).follows(old(self)),
            parsed_expr(
                r,
                g_level(Level::Comparison, old(self).source(), old(self).position()),
                final(self).position(),
            ),
            r is Err ==> *final(self) == *old(self),
    {
        let position = self.tokenizer.position;
        let line = self.tokenizer.line;
        let column = self.tokenizer.column;
        let r = self.level(Level::Comparison);
        self.settle(r, position, line, column)
    }

    /// Parses a sum: products joined by `+` and `-`.
    /// If that fails, the tokenizer is left where it stood.
    pub fn addsub(&mut self) -> (r: Result<Expression, CompileError>)
        requires
            old(self).wf(),
        ensures
            final(self).follows(old(self)),
            parsed_expr(
                r,
                g_level(Level::AddSub, old(self).source(), old(self).position()),
                final(self).position(),
            ),
            r is Err ==> *final(self) == *old(self),
    {
        let position = self.tokenizer.position;
        let line = self.tokenizer.line;
        let column = self.tokenizer.column;
        let r = self.level(Level::AddSub);
        self.settle(r, position, line, column)
    }

    /// Parses a product: quotients joined by `*`.
    /// If that fails, the tokenizer is left where it stood.
    pub fn mul(&mut self) -> (r: Result<Expression, CompileError>)
        requires
            old(self).wf(),
        ensures
            final(self).follows(old(self)),
            parsed_expr(r, g_level(Level::Mul, old(self).source(), old(self).position()), final(self).position()),
            r is Err ==> *final(self) == *old(self),
    {
        let position = self.tokenizer.position;
        let line = self.tokenizer.line;
        let column = self.tokenizer.column;
        let r = self.level(Level::Mul);
        self.settle(r, position, line, column)
    }

    /// Parses a quotient: primaries joined by `/`.
    /// If that fails, the tokenizer is left where it stood.
    pub fn div(&mut self) -> (r: Result<Expression, CompileError>)
        requires
            old(self).wf(),
        ensures
            final(self).follows(old(self)),
            parsed_expr(r, g_level(Level::Div, old(self).source(), old(self).position()), final(self).position()),
            r is Err ==> *final(self) == *old(self),
    {
        let position = self.tokenizer.position;
        let line = self.tokenizer.line;
        let column = self.tokenizer.column;
        let r = self.level(Level::Div);
        self.settle(r, position, line, column)
    }

    /// Parses an operand of `level`.
    fn operand(&mut self, level: Level) -> (r: Result<Expression, CompileError>)
        requires
            old(self).wf(),
        ensures
            final(self).follows(old(self)),
            parsed_expr(r, g_operand(level, old(self).source(), old(self).position()), final(self).position()),
        decreases old(self).remaining(), rank(level) - 1,
    {
        match level {
            Level::Comparison => self.level(Level::AddSub),
            Level::AddSub => self.level(Level::Mul),
            Level::Mul => self.level(Level::Div),
            Level::Div => self.parse_primary(),
        }
    }

    /// Parses an expression of `level`.
    fn level(&mut self, level: Level) -> (r: Result<Expression, CompileError>)
        requires
            old(self).wf(),
        ensures
            final(self).follows(old(self)),
            parsed_expr(r, g_level(level, old(self).source(), old(self).position()), final(self).position()),
        decreases old(self).remaining(), rank(level) + 1,
    {
        let ghost src = self.source();
        let ghost start = self.position();
        let mut left = self.operand(level)?;
        loop
            invariant
                self.wf(),
                self.tokenizer.source == old(self).tokenizer.source,
                old(self).tokenizer.placed() ==> self.tokenizer.placed(),
                src == self.source(),
                start == old(self).position(),
                start <= self.position(),
                g_level(level, src, start) == g_rest(level, src, self.position(), left@),
            decreases self.remaining(),
        {
            let ghost here = self.position();
            proof {
                lemma_lex_advances(src, here);
            }
            let token = self.tokenizer.peek_token()?;
            let wanted = match level {
                Level::Comparison => token.kind == TokenType::EqualEqual || token.kind == TokenType::NotEqual
                    || token.kind == TokenType::GT || token.kind == TokenType::LT || token.kind
                    == TokenType::GTEqual || token.kind == TokenType::LTEqual,
                Level::AddSub => token.kind == TokenType::Plus || token.kind == TokenType::Minus,
                Level::Mul => token.kind == TokenType::Times,
                Level::Div => token.kind == TokenType::Slash,
            };
            if !wanted {
                return Ok(left);
            }
            let operator = self.tokenizer.next()?;
            let right = self.operand(level)?;
            left = Expression::new_binary(left, operator, right);
        }
    }

    /// Parses a primary expression. If that fails, the tokenizer is left
    /// where it stood.
    pub fn primary(&mut self) -> (r: Result<Expression, CompileError>)
        requires
            old(self).wf(),
        ensures
            final(self).follows(old(self)),
            parsed_expr(r, g_primary(old(self).source(), old(self).position()), final(self).position()),
            r is Err ==> *final(self) == *old(self),
    {
        let position = self.tokenizer.position;
        let line = self.tokenizer.line;
        let column = self.tokenizer.column;
        let r = self.parse_primary();
        self.settle(r, position, line, column)
    }

    /// Parses a primary expression, leaving the tokenizer where an error
    /// stopped it.
    fn parse_primary(&mut self) -> (r: Result<Expression, CompileError>)
        requires
            old(self).wf(),
        ensures
            final(self).follows(old(self)),
            parsed_expr(r, g_primary(old(self).source(), old(self).position()), final(self).position()),
        decreases old(self).remaining(), 0int,
    {
        let ghost src = self.source();
        let ghost start = self.position();
        proof {
            lemma_lex_advances(src, start);
        }
        let token = self.tokenizer.next()?;
        let ghost behind = self.position();
        proof {
            lemma_lex_advances(src, behind);
        }
        if !self.sees(TokenType::LParen)? {
            return Ok(Expression::new_literal(token));
        }
        self.tokenizer.next()?;
        let ghost inside = self.position();
        proof {
            lemma_lex_advances(src, inside);
        }
        if self.sees(TokenType::RParen)? {
            self.tokenizer.next()?;
            let e = Expression::new_call(token, Vec::new());
            assert(expr_models(Seq::<Expression>::empty()) =~= Seq::<ExprModel>::empty());
            return Ok(e);
        }
        let mut args: Vec<Expression> = Vec::new();
        assert(expr_models(args@) =~= Seq::<ExprModel>::empty());
        let ghost goal = g_primary(src, start);
        loop
            invariant
                self.wf(),
                self.tokenizer.source == old(self).tokenizer.source,
                old(self).tokenizer.placed() ==> self.tokenizer.placed(),
                src == self.source(),
                start == old(self).position(),
                start < inside <= self.position(),
                goal == g_primary(src, start),
                goal == called(token.word(), g_arguments(src, self.position(), expr_models(args@))),
            decreases self.remaining(),
        {
            let ghost here = self.position();
            proof {
                lemma_lex_advances(src, here);
            }
            if self.sees(TokenType::RParen)? {
                self.tokenizer.next()?;
                return Ok(Expression::new_call(token, args));
            }
            let arg = self.parse_expression()?;
            let ghost after = self.position();
            proof {
                lemma_lex_advances(src, after);
                assert(expr_models(args@.push(arg)) =~= expr_models(args@).push(arg@));
            }
            args.push(arg);
            if self.sees(TokenType::Separator)? {
                self.tokenizer.next()?;
            } else if self.sees(TokenType::RParen)? {
                self.tokenizer.next()?;
                return Ok(Expression::new_call(token, args));
            } else {
                return Err(CompileError::UnexpectedToken);
            }
        }
    }

    /// Parses statements up to the end of the source. If that fails, the
    /// tokenizer is left where it stood.
    pub fn program(&mut self) -> (r: Result<Vec<Statement>, CompileError>)
        requires
            old(self).wf(),
        ensures
            final(self).follows(old(self)),
            match g_program(old(self).source(), old(self).position(), Seq::empty()) {
                Ok(stmts) => r is Ok && stmt_models(r->Ok_0@) == stmts,
                Err(e) => r == Err::<Vec<Statement>, CompileError>(e),
            },
            r is Ok ==> final(self).position() == program_end(old(self).source(), old(self).position()),
            r is Err ==> *final(self) == *old(self),
    {
        let position = self.tokenizer.position;
        let line = self.tokenizer.line;
        let column = self.tokenizer.column;
        match self.parse_program() {
            Ok(stmts) => Ok(stmts),
            Err(e) => {
                self.rewind(position, line, column);
                Err(e)
            },
        }
    }

    /// Parses statements up to the end of the source, leaving the
    /// tokenizer where an error stopped it.
    fn parse_program(&mut self) -> (r: Result<Vec<Statement>, CompileError>)
        requires
            old(self).wf(),
        ensures
            final(self).follows(old(self)),
            match g_program(old(self).source(), old(self).position(), Seq::empty()) {
                Ok(stmts) => r is Ok && stmt_models(r->Ok_0@) == stmts,
                Err(e) => r == Err::<Vec<Statement>, CompileError>(e),
            },
            r is Ok ==> final(self).position() == program_end(old(self).source(), old(self).position()),
    {
        let ghost src = self.source();
        let ghost start = self.position();
        let mut stmts: Vec<Statement> = Vec::new();
        assert(stmt_models(stmts@) =~= Seq::<StmtModel>::empty());
        loop
            invariant
                self.wf(),
                self.tokenizer.source == old(self).tokenizer.source,
                old(self).tokenizer.placed() ==> self.tokenizer.placed(),
                src == self.source(),
                start == old(self).position(),
                start <= self.position(),
                g_program(src, start, Seq::empty()) == g_program(src, self.position(), stmt_models(stmts@)),
                program_end(src, start) == program_end(src, self.position()),
            decreases self.remaining(),
        {
            let ghost here = self.position();
            proof {
                lemma_lex_advances(src, here);
            }
            if self.sees(TokenType::EndOfFile)? {
                return Ok(stmts);
            }
            let stmt = self.parse_statement()?;
            proof {
                lemma_statement_advances(src, here);
                assert(stmt_models(stmts@.push(stmt)) =~= stmt_models(stmts@).push(stmt@));
            }
            stmts.push(stmt);
        }
    }
}

/// A primary expression ends behind its first token and inside the source.
pub proof fn lemma_primary_advances(src: Seq<u8>, pos: int)
    requires
        0 <= pos <= src.len(),
        g_primary(src, pos) is Ok,
    ensures
        lex(src, pos) is Ok,
        pos <= lex(src, pos)->Ok_0.end <= g_primary(src, pos)->Ok_0.end <= src.len(),
    decreases src.len() - pos, 0int,
{
    lemma_lex_advances(src, pos);
    let tok = lex(src, pos)->Ok_0;
    lemma_lex_advances(src, tok.end);
    let paren = lex(src, tok.end)->Ok_0;
    if paren.kind == TokenType::LParen {
        lemma_lex_advances(src, paren.end);
        let first = lex(src, paren.end)->Ok_0;
        if first.kind != TokenType::RParen {
            lemma_arguments_advance(src, paren.end, Seq::empty());
        }
    }
}

/// The arguments of a call end at or behind the position where they start,
/// and inside the source.
pub proof fn lemma_arguments_advance(src: Seq<u8>, pos: int, acc: Seq<ExprModel>)
    requires
        0 <= pos <= src.len(),
        g_arguments(src, pos, acc) is Ok,
    ensures
        pos <= g_arguments(src, pos, acc)->Ok_0.end <= src.len(),
    decreases src.len() - pos, 16int,
{
    lemma_lex_advances(src, pos);
    let t = lex(src, pos)->Ok_0;
    if t.kind != TokenType::RParen {
        let arg = g_expression(src, pos)->Ok_0;
        lemma_level_advances(Level::Comparison, src, pos);
        lemma_lex_advances(src, arg.end);
        let sep = lex(src, arg.end)->Ok_0;
        if sep.kind == TokenType::Separator {
            lemma_arguments_advance(src, sep.end, acc.push(arg.value));
        }
    }
}

/// An operand ends behind the first token at its start and inside the
/// source.
pub proof fn lemma_operand_advances(level: Level, src: Seq<u8>, pos: int)
    requires
        0 <= pos <= src.len(),
        g_operand(level, src, pos) is Ok,
    ensures
        lex(src, pos) is Ok,
        pos <= lex(src, pos)->Ok_0.end <= g_operand(level, src, pos)->Ok_0.end <= src.len(),
    decreases src.len() - pos, rank(level) - 1,
{
    match level {
        Level::Comparison => lemma_level_advances(Level::AddSub, src, pos),
        Level::AddSub => lemma_level_advances(Level::Mul, src, pos),
        Level::Mul => lemma_level_advances(Level::Div, src, pos),
        Level::Div => lemma_primary_advances(src, pos),
    }
}

/// An expression of a level ends behind the first token at its start and
/// inside the source.
pub proof fn lemma_level_advances(level: Level, src: Seq<u8>, pos: int)
    requires
        0 <= pos <= src.len(),
        g_level(level, src, pos) is Ok,
    ensures
        lex(src, pos) is Ok,
        pos <= lex(src, pos)->Ok_0.end <= g_level(level, src, pos)->Ok_0.end <= src.len(),
    decreases src.len() - pos, rank(level) + 1,
{
    lemma_operand_advances(level, src, pos);
    let left = g_operand(level, src, pos)->Ok_0;
    lemma_rest_advances(level, src, left.end, left.value);
}

/// What follows an operand ends at or behind the position where it starts,
/// and inside the source.
pub proof fn lemma_rest_advances(level: Level, src: Seq<u8>, pos: int, left: ExprModel)
    requires
        0 <= pos <= src.len(),
        g_rest(level, src, pos, left) is Ok,
    ensures
        pos <= g_rest(level, src, pos, left)->Ok_0.end <= src.len(),
    decreases src.len() - pos, rank(level),
{
    let op = lex(src, pos)->Ok_0;
    if operates(level, op.kind) {
        let right = g_operand(level, src, op.end)->Ok_0;
        lemma_rest_advances(level, src, right.end, binary_model(left, op.word(), right.value));
    }
}

/// A statement that does not start at the end of the source ends behind
/// the position where it starts.
pub proof fn lemma_statement_advances(src: Seq<u8>, pos: int)
    requires
        0 <= pos < src.len(),
        g_statement(src, pos) is Ok,
    ensures
        pos < g_statement(src, pos)->Ok_0.end,
{
    reveal_with_fuel(first_error, 4);
    reveal_with_fuel(ahead, 4);
    lemma_lex_advances(src, pos);
    let t0 = lex(src, pos)->Ok_0;
    lemma_lex_advances(src, ahead(src, pos, 1));
    let t1 = lex(src, ahead(src, pos, 1))->Ok_0;
    lemma_lex_advances(src, ahead(src, pos, 2));
    let t2 = lex(src, ahead(src, pos, 2))->Ok_0;
    if t2.kind == TokenType::Equal {
        lemma_level_advances(Level::Comparison, src, t2.end);
    } else if t1.kind == TokenType::Equal {
        lemma_level_advances(Level::Comparison, src, t1.end);
    } else if t0.string == "if"@ || t0.string == "while"@ {
        let kind = if t0.string == "if"@ {
            StatementType::If
        } else {
            StatementType::While
        };
        assert(g_statement(src, pos) == g_guarded(kind, src, pos, t0.end));
        let condition = g_expression(src, t0.end)->Ok_0;
        let brace = lex(src, condition.end)->Ok_0;
        lemma_block_advances(src, brace.end, Seq::empty());
    } else if t0.string == "return"@ {
        lemma_level_advances(Level::Comparison, src, t0.end);
    } else {
        lemma_level_advances(Level::Comparison, src, pos);
    }
}

/// A block ends at or behind the position where it starts.
pub proof fn lemma_block_advances(src: Seq<u8>, pos: int, acc: Seq<StmtModel>)
    requires
        0 <= pos <= src.len(),
        g_block(src, pos, acc) is Ok,
    ensures
        pos <= g_block(src, pos, acc)->Ok_0.end,
    decreases src.len() - pos,
{
    lemma_lex_advances(src, pos);
    let t = lex(src, pos)->Ok_0;
    if !(pos >= src.len() || t.kind == TokenType::RBrace) {
        let s = g_statement(src, pos)->Ok_0;
        lemma_block_advances(src, s.end, acc.push(s.value));
    }
}

} // verus!
