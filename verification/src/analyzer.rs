//! A single pass over the syntax tree that finds, for each variable, its
//! type and the number of cells it occupies.

use crate::error::CompileError;
use crate::parser::{
    g_statement, lemma_statement_advances, program_end, ExprModel, Expression, ExpressionType, Parser, Statement,
    StatementType, StmtModel,
};
use crate::tokenizer::{lemma_lex_advances, lex, TokenType, Tokenizer};
use vstd::prelude::*;
use vstd::string::{StrSliceExecFns, StringExecFns};

verus! {

/// Type and size of a value.
#[derive(Debug)]
pub struct ValueInfo {
    pub typename: String,
    pub size: usize,
}

/// Mathematical value of a [`ValueInfo`].
pub struct InfoModel {
    pub typename: Seq<char>,
    pub size: usize,
}

impl View for ValueInfo {
    type V = InfoModel;

    open spec fn view(&self) -> InfoModel {
        InfoModel { typename: self.typename@, size: self.size }
    }
}

/// What is known of a value of which nothing is known.
pub open spec fn unknown_info() -> InfoModel {
    InfoModel { typename: "Unknown"@, size: 0 }
}

impl ValueInfo {
    pub fn new(typename: String, size: usize) -> (v: ValueInfo)
        ensures
            v@ == (InfoModel { typename: typename@, size }),
    {
        ValueInfo { typename, size }
    }

    pub fn default() -> (v: ValueInfo)
        ensures
            v@ == unknown_info(),
    {
        ValueInfo { typename: String::from_str("Unknown"), size: 0 }
    }

    /// An equal record.
    pub fn duplicate(&self) -> (v: ValueInfo)
        ensures
            v@ == self@,
    {
        ValueInfo { typename: self.typename.clone(), size: self.size }
    }
}

/// A name and what is known of its value.
#[derive(Debug)]
pub struct Variable {
    pub name: String,
    pub value: ValueInfo,
}

/// Mathematical value of a [`Variable`].
pub struct Binding {
    pub name: Seq<char>,
    pub value: InfoModel,
}

impl View for Variable {
    type V = Binding;

    open spec fn view(&self) -> Binding {
        Binding { name: self.name@, value: self.value@ }
    }
}

impl Variable {
    pub fn new(name: String, value: ValueInfo) -> (v: Variable)
        ensures
            v@ == (Binding { name: name@, value: value@ }),
    {
        Variable { name, value }
    }
}

/// The bindings of a sequence of variables.
pub open spec fn bindings(v: Seq<Variable>) -> Seq<Binding> {
    Seq::new(v.len(), |i: int| v[i]@)
}

/// The index of the first of the first `k` bindings that has the name, or
/// `k` if none has.
pub open spec fn index_of(scope: Seq<Binding>, name: Seq<char>, k: int) -> int
    decreases k,
{
    if k <= 0 {
        0
    } else {
        let before = index_of(scope, name, k - 1);
        if before < k - 1 || (k <= scope.len() && scope[k - 1].name == name) {
            before
        } else {
            k
        }
    }
}

/// What the scope knows of `name`.
pub open spec fn find(scope: Seq<Binding>, name: Seq<char>) -> Option<InfoModel> {
    let at = index_of(scope, name, scope.len() as int);
    if at < scope.len() {
        Some(scope[at].value)
    } else {
        None
    }
}

/// The scope in which `name` is bound to `value`: in place of its earlier
/// binding if it had one, at the end otherwise.
pub open spec fn bind(scope: Seq<Binding>, name: Seq<char>, value: InfoModel) -> Seq<Binding> {
    let at = index_of(scope, name, scope.len() as int);
    if at < scope.len() {
        scope.update(at, Binding { name, value })
    } else {
        scope.push(Binding { name, value })
    }
}

/// The first `k` bindings hold the name at the index given, and nowhere
/// before it.
pub proof fn lemma_index_of(scope: Seq<Binding>, name: Seq<char>, k: int)
    requires
        0 <= k <= scope.len(),
    ensures
        0 <= index_of(scope, name, k) <= k,
        index_of(scope, name, k) < k ==> scope[index_of(scope, name, k)].name == name,
        forall|j: int| 0 <= j < index_of(scope, name, k) ==> (#[trigger] scope[j]).name != name,
    decreases k,
{
    if k > 0 {
        lemma_index_of(scope, name, k - 1);
    }
}

/// The names in scope.
#[derive(Debug)]
pub struct Scope {
    pub parent: Option<Box<Scope>>,
    pub variables: Vec<Variable>,
}

impl Scope {
    /// The bindings of this frame.
    pub open spec fn frame(&self) -> Seq<Binding> {
        bindings(self.variables@)
    }

    pub fn new(parent: Option<Scope>) -> (s: Scope)
        ensures
            s.frame() == Seq::<Binding>::empty(),
            match parent {
                Some(p) => s.parent == Some(Box::new(p)),
                None => s.parent is None,
            },
    {
        let s = Scope {
            parent: match parent {
                Some(parent) => Some(Box::new(parent)),
                None => None,
            },
            variables: Vec::new(),
        };
        assert(s.frame() =~= Seq::<Binding>::empty());
        s
    }

    pub fn new_child() -> (s: Scope)
        ensures
            s.frame() == Seq::<Binding>::empty(),
            s.parent is None,
    {
        let s = Scope { parent: None, variables: Vec::new() };
        assert(s.frame() =~= Seq::<Binding>::empty());
        s
    }

    /// A copy of the variables of this frame.
    pub fn copied(&self) -> (v: Vec<Variable>)
        ensures
            bindings(v@) == self.frame(),
    {
        let mut v: Vec<Variable> = Vec::new();
        let mut k: usize = 0;
        while k < self.variables.len()
            invariant
                k <= self.variables.len(),
                v@.len() == k,
                forall|i: int| 0 <= i < k ==> (#[trigger] v@[i])@ == self.variables@[i]@,
            decreases self.variables.len() - k,
        {
            let var = &self.variables[k];
            v.push(Variable::new(var.name.clone(), var.value.duplicate()));
            k = k + 1;
        }
        assert(bindings(v@) =~= self.frame());
        v
    }

    /// The index of the first variable of the frame with that name, or the
    /// number of variables if there is none.
    fn position(&self, name: &str) -> (at: usize)
        ensures
            at == index_of(self.frame(), name@, self.frame().len() as int),
            at <= self.variables@.len(),
    {
        let mut k: usize = 0;
        while k < self.variables.len()
            invariant
                k <= self.variables@.len(),
                index_of(self.frame(), name@, k as int) == k,
            decreases self.variables.len() - k,
        {
            if self.variables[k].name == String::from_str(name) {
                proof {
                    lemma_first_match(self.frame(), name@, k as int, self.frame().len() as int);
                }
                return k;
            }
            k = k + 1;
        }
        k
    }

    /// Binds `name` to `value` in this frame.
    pub fn set(&mut self, name: String, value: ValueInfo)
        ensures
            final(self).frame() == bind(old(self).frame(), name@, value@),
            final(self).parent == old(self).parent,
    {
        let at = self.position(name.as_str());
        if at < self.variables.len() {
            let mut slot = Variable::new(name, value);
            let ghost entry = slot@;
            self.variables.set(at, slot);
            assert(self.frame() =~= old(self).frame().update(at as int, entry));
            return ;
        }
        let slot = Variable { name, value };
        let ghost entry = slot@;
        self.variables.push(slot);
        assert(self.frame() =~= old(self).frame().push(entry));
    }

    /// The variable of this frame with that name.
    pub fn get(&self, name: &str) -> (r: Option<&Variable>)
        ensures
            match find(self.frame(), name@) {
                Some(info) => r is Some && r->0@ == (Binding { name: name@, value: info }),
                None => r is None,
            },
    {
        let at = self.position(name);
        proof {
            lemma_index_of(self.frame(), name@, self.frame().len() as int);
        }
        if at < self.variables.len() {
            return Some(&self.variables[at]);
        }
        None
    }
}

/// Once the name is found among the first bindings, looking further finds
/// the same one.
pub proof fn lemma_first_match(scope: Seq<Binding>, name: Seq<char>, at: int, k: int)
    requires
        0 <= at < k <= scope.len(),
        index_of(scope, name, at) == at,
        scope[at].name == name,
    ensures
        index_of(scope, name, k) == at,
    decreases k - at,
{
    if k > at + 1 {
        lemma_first_match(scope, name, at, k - 1);
    }
}

/// A value of one cell of the given type.
pub open spec fn single(typename: Seq<char>) -> InfoModel {
    InfoModel { typename, size: 1 }
}

/// The number literal that is the first argument of a call, if it can
/// serve as a cell count.
pub open spec fn count_argument(e: ExprModel) -> Option<usize> {
    if e.args is Some && e.args->0.len() > 0 && e.args->0[0].value is Some && e.args->0[0].value->0.kind
        == TokenType::Number && 0 <= e.args->0[0].value->0.number <= usize::MAX {
        Some(e.args->0[0].value->0.number as usize)
    } else {
        None
    }
}

/// Type and size of an expression in a scope.
///
/// A binary operation has the type and size of its left operand. A number
/// is an `int` and a character a `char` of one cell, a string a `string` of
/// as many cells as it has characters, and an identifier is what the scope
/// says. `open` and `write` return an `int`, `read(n)` a `string` of `n`
/// cells, `print` nothing.
pub open spec fn type_of(e: ExprModel, scope: Seq<Binding>) -> Result<InfoModel, CompileError>
    decreases e,
{
    match e.kind {
        ExpressionType::Binary => match (e.left, e.right) {
            (Some(l), Some(r)) => match type_of(*l, scope) {
                Err(err) => Err(err),
                Ok(left) => match type_of(*r, scope) {
                    Err(err) => Err(err),
                    Ok(_) => Ok(left),
                },
            },
            _ => Err(CompileError::Malformed),
        },
        ExpressionType::Call => match e.target {
            None => Err(CompileError::Malformed),
            Some(target) => if target.string == "open"@ || target.string == "write"@ {
                Ok(single("int"@))
            } else if target.string == "read"@ {
                match count_argument(e) {
                    Some(n) => Ok(InfoModel { typename: "string"@, size: n }),
                    None => Err(CompileError::ReadNeedsLiteral),
                }
            } else if target.string == "print"@ {
                Ok(InfoModel { typename: "void"@, size: 0 })
            } else {
                Ok(unknown_info())
            },
        },
        ExpressionType::Literal => match e.value {
            None => Err(CompileError::Malformed),
            Some(token) => match token.kind {
                TokenType::String => if token.string.len() <= usize::MAX {
                    Ok(InfoModel { typename: "string"@, size: token.string.len() as usize })
                } else {
                    Err(CompileError::OutOfCells)
                },
                TokenType::Char => Ok(single("char"@)),
                TokenType::Number => Ok(single("int"@)),
                TokenType::Identifier => match find(scope, token.string) {
                    Some(info) => Ok(info),
                    None => Err(CompileError::UnknownVariable),
                },
                _ => Err(CompileError::Malformed),
            },
        },
        ExpressionType::Unary => Ok(unknown_info()),
    }
}

/// The scope after one statement.
///
/// A declaration binds its name to the type of its expression. An
/// assignment does the same, provided that the name is bound and to the
/// same type. No other statement changes the scope.
pub open spec fn scope_after(s: StmtModel, scope: Seq<Binding>) -> Result<Seq<Binding>, CompileError> {
    match s.kind {
        StatementType::VarDecl => match (s.name, s.expression) {
            (Some(name), Some(e)) => match type_of(e, scope) {
                Err(err) => Err(err),
                Ok(info) => Ok(bind(scope, name.string, info)),
            },
            _ => Err(CompileError::Malformed),
        },
        StatementType::Assignment => match (s.name, s.expression) {
            (Some(name), Some(e)) => match type_of(e, scope) {
                Err(err) => Err(err),
                Ok(info) => match find(scope, name.string) {
                    None => Err(CompileError::UnknownVariable),
                    Some(bound) => if bound.typename != info.typename {
                        Err(CompileError::TypeMismatch)
                    } else {
                        Ok(bind(scope, name.string, info))
                    },
                },
            },
            _ => Err(CompileError::Malformed),
        },
        _ => Ok(scope),
    }
}

/// The scope after the statements of the source from `pos` on, each parsed
/// and then analyzed before the next is parsed.
pub open spec fn scope_at_end(src: Seq<u8>, pos: int, scope: Seq<Binding>) -> Result<Seq<Binding>, CompileError>
    decreases src.len() - pos,
{
    match lex(src, pos) {
        Err(e) => Err(e),
        Ok(t) => if t.kind == TokenType::EndOfFile {
            Ok(scope)
        } else {
            match g_statement(src, pos) {
                Err(e) => Err(e),
                Ok(s) => match scope_after(s.value, scope) {
                    Err(e) => Err(e),
                    Ok(next) => if pos < s.end <= src.len() {
                        scope_at_end(src, s.end, next)
                    } else {
                        Err(CompileError::UnexpectedToken)
                    },
                },
            }
        },
    }
}

/// Whether the string is the given word.
pub fn is_word(s: &String, w: &str) -> (r: bool)
    ensures
        r == (s@ == w@),
{
    *s == String::from_str(w)
}

/// Finds types and sizes for the variables of a source.
pub struct Analyzer<'a> {
    pub parser: Parser<'a>,
    pub scope: Scope,
}

impl<'a> Analyzer<'a> {
    pub fn new(source: &'a [u8]) -> (a: Analyzer<'a>)
        ensures
            a.parser.wf(),
            a.parser.source() == source@,
            a.parser.position() == 0,
            a.scope.frame() == Seq::<Binding>::empty(),
            a.parser.tokenizer.placed(),
    {
        Analyzer { parser: Parser::new(Tokenizer::new(source)), scope: Scope::new(None) }
    }

    /// Analyzes the statements of the source that have not been read yet.
    /// If that fails, the sizes and the parser are left as they were.
    pub fn analyze(&mut self) -> (r: Result<(), CompileError>)
        requires
            old(self).parser.wf(),
        ensures
            final(self).parser.follows(&old(self).parser),
            match scope_at_end(old(self).parser.source(), old(self).parser.position(), old(self).scope.frame()) {
                Ok(scope) => r is Ok && final(self).scope.frame() == scope,
                Err(e) => r == Err::<(), CompileError>(e),
            },
            r is Ok ==> final(self).parser.position() == program_end(
                old(self).parser.source(),
                old(self).parser.position(),
            ),
            r is Err ==> final(self).parser == old(self).parser && final(self).scope.frame() == old(
                self,
            ).scope.frame(),
    {
        let sizes = self.scope.copied();
        let position = self.parser.tokenizer.position;
        let line = self.parser.tokenizer.line;
        let column = self.parser.tokenizer.column;
        match self.walk() {
            Ok(()) => Ok(()),
            Err(e) => {
                self.scope.variables = sizes;
                self.parser.tokenizer.position = position;
                self.parser.tokenizer.line = line;
                self.parser.tokenizer.column = column;
                Err(e)
            },
        }
    }

    /// Analyzes statement by statement, changing the sizes as it goes.
    fn walk(&mut self) -> (r: Result<(), CompileError>)
        requires
            old(self).parser.wf(),
        ensures
            final(self).parser.follows(&old(self).parser),
            match scope_at_end(old(self).parser.source(), old(self).parser.position(), old(self).scope.frame()) {
                Ok(scope) => r is Ok && final(self).scope.frame() == scope,
                Err(e) => r == Err::<(), CompileError>(e),
            },
            r is Ok ==> final(self).parser.position() == program_end(
                old(self).parser.source(),
                old(self).parser.position(),
            ),
    {
        let ghost src = self.parser.source();
        let ghost goal = scope_at_end(src, self.parser.position(), self.scope.frame());
        loop
            invariant
                self.parser.wf(),
                self.parser.tokenizer.source == old(self).parser.tokenizer.source,
                old(self).parser.tokenizer.placed() ==> self.parser.tokenizer.placed(),
                src == self.parser.source(),
                old(self).parser.position() <= self.parser.position(),
                goal == scope_at_end(src, old(self).parser.position(), old(self).scope.frame()),
                goal == scope_at_end(src, self.parser.position(), self.scope.frame()),
                program_end(src, old(self).parser.position()) == program_end(src, self.parser.position()),
            decreases self.parser.remaining(),
        {
            let ghost here = self.parser.position();
            proof {
                lemma_lex_advances(src, here);
            }
            let token = self.parser.tokenizer.peek_token()?;
            if token.kind == TokenType::EndOfFile {
                return Ok(());
            }
            let stmt = self.parser.statement()?;
            proof {
                lemma_statement_advances(src, here);
            }
            self.analyze_stmt(stmt)?;
        }
    }

    /// Analyzes one statement.
    pub fn analyze_stmt(&mut self, stmt: Statement) -> (r: Result<(), CompileError>)
        ensures
            final(self).parser == old(self).parser,
            match scope_after(stmt@, old(self).scope.frame()) {
                Ok(scope) => r is Ok && final(self).scope.frame() == scope,
                Err(e) => r == Err::<(), CompileError>(e) && final(self).scope.frame() == old(self).scope.frame(),
            },
    {
        match stmt.kind {
            StatementType::VarDecl => {
                let (name, expr) = match (stmt.name, stmt.expression) {
                    (Some(name), Some(expr)) => (name, expr),
                    _ => {
                        return Err(CompileError::Malformed);
                    },
                };
                let value = self.type_of_expr(&expr)?;
                self.scope.set(name.string, value);
                Ok(())
            },
            StatementType::Assignment => {
                let (name, expr) = match (stmt.name, stmt.expression) {
                    (Some(name), Some(expr)) => (name, expr),
                    _ => {
                        return Err(CompileError::Malformed);
                    },
                };
                let value = self.type_of_expr(&expr)?;
                match self.scope.get(name.string.as_str()) {
                    None => {
                        return Err(CompileError::UnknownVariable);
                    },
                    Some(variable) => {
                        if variable.value.typename != value.typename {
                            return Err(CompileError::TypeMismatch);
                        }
                    },
                }
                self.scope.set(name.string, value);
                Ok(())
            },
            _ => Ok(()),
        }
    }

    /// Type and size of an expression in the current scope.
    pub fn analyze_expr(&mut self, expr: Expression) -> (r: Result<ValueInfo, CompileError>)
        ensures
            *final(self) == *old(self),
            match type_of(expr@, old(self).scope.frame()) {
                Ok(info) => r is Ok && r->Ok_0@ == info,
                Err(e) => r == Err::<ValueInfo, CompileError>(e),
            },
    {
        self.type_of_expr(&expr)
    }

    /// Type and size of an expression in the current scope.
    pub fn type_of_expr(&self, expr: &Expression) -> (r: Result<ValueInfo, CompileError>)
        ensures
            match type_of(expr@, self.scope.frame()) {
                Ok(info) => r is Ok && r->Ok_0@ == info,
                Err(e) => r == Err::<ValueInfo, CompileError>(e),
            },
        decreases expr,
    {
        proof {
            crate::parser::lemma_expr_parts(*expr);
        }
        match expr.kind {
            ExpressionType::Binary => {
                match (&expr.left, &expr.right) {
                    (Some(l), Some(r)) => {
                        let left = self.type_of_expr(l)?;
                        let _right = self.type_of_expr(r)?;
                        Ok(ValueInfo::new(left.typename, left.size))
                    },
                    _ => Err(CompileError::Malformed),
                }
            },
            ExpressionType::Call => {
                let target = match &expr.target {
                    None => {
                        return Err(CompileError::Malformed);
                    },
                    Some(target) => target,
                };
                if is_word(&target.string, "open") || is_word(&target.string, "write") {
                    return Ok(ValueInfo::new(String::from_str("int"), 1));
                }
                if is_word(&target.string, "read") {
                    return match read_count(expr) {
                        Some(n) => Ok(ValueInfo::new(String::from_str("string"), n)),
                        None => Err(CompileError::ReadNeedsLiteral),
                    };
                }
                if is_word(&target.string, "print") {
                    return Ok(ValueInfo::new(String::from_str("void"), 0));
                }
                Ok(ValueInfo::default())
            },
            ExpressionType::Literal => {
                let token = match &expr.value {
                    None => {
                        return Err(CompileError::Malformed);
                    },
                    Some(token) => token,
                };
                match token.kind {
                    TokenType::String => Ok(
                        ValueInfo::new(String::from_str("string"), token.string.as_str().unicode_len()),
                    ),
                    TokenType::Char => Ok(ValueInfo::new(String::from_str("char"), 1)),
                    TokenType::Number => Ok(ValueInfo::new(String::from_str("int"), 1)),
                    TokenType::Identifier => match self.scope.get(token.string.as_str()) {
                        Some(variable) => Ok(variable.value.duplicate()),
                        None => Err(CompileError::UnknownVariable),
                    },
                    _ => Err(CompileError::Malformed),
                }
            },
            ExpressionType::Unary => Ok(ValueInfo::default()),
        }
    }
}

/// The cell count that the first argument of a call gives, if it is a
/// number literal that can serve as one.
pub fn read_count(expr: &Expression) -> (r: Option<usize>)
    ensures
        r == count_argument(expr@),
{
    let args = match &expr.args {
        None => {
            return None;
        },
        Some(args) => args,
    };
    if args.len() == 0 {
        return None;
    }
    assert(expr@.args->0[0] == args@[0]@);
    let token = match &args[0].value {
        None => {
            return None;
        },
        Some(token) => token,
    };
    if token.kind != TokenType::Number || token.number < 0 {
        return None;
    }
    if token.number as u64 > usize::MAX as u64 {
        return None;
    }
    Some(token.number as usize)
}

} // verus!
