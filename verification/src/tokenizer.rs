//! Splits source bytes into tokens.

use crate::error::CompileError;
use vstd::prelude::*;
use vstd::string::StringExecFns;

verus! {

/// The kind of a token.
#[derive(Debug, PartialEq, Eq, Clone, Copy, Structural)]
pub enum TokenType {
    Identifier,
    Number,
    Char,
    String,
    Keyword,
    Operator,
    Separator,
    Comment,
    Plus,
    Minus,
    Times,
    Slash,
    Mod,
    CompoundAdd,
    CompoundSub,
    CompoundMul,
    CompoundDiv,
    CompoundMod,
    Not,
    NotEqual,
    Equal,
    EqualEqual,
    LParen,
    RParen,
    LBrace,
    RBrace,
    GT,
    LT,
    GTEqual,
    LTEqual,
    EndOfFile,
}

/// One token: its kind, its payload, and the line and column at which the
/// tokenizer stood when it had read it.
#[derive(Debug)]
pub struct Token {
    pub kind: TokenType,
    pub char: char,
    pub string: String,
    pub number: i64,
    pub line: u32,
    pub column: u32,
}

/// Mathematical value of a [`Token`].
pub struct TokenModel {
    pub kind: TokenType,
    pub char: char,
    pub string: Seq<char>,
    pub number: i64,
    pub line: u32,
    pub column: u32,
}

impl View for Token {
    type V = TokenModel;

    open spec fn view(&self) -> TokenModel {
        TokenModel {
            kind: self.kind,
            char: self.char,
            string: self.string@,
            number: self.number,
            line: self.line,
            column: self.column,
        }
    }
}

impl Token {
    pub fn new(kind: TokenType, line: u32, column: u32) -> (t: Token)
        ensures
            t@ == (TokenModel { kind, char: '\0', string: Seq::empty(), number: 0, line, column }),
    {
        Token { kind, char: '\0', string: String::new(), number: 0, line, column }
    }

    pub fn keyword_literal(string: String, line: u32, column: u32) -> (t: Token)
        ensures
            t@ == (TokenModel {
                kind: TokenType::Keyword,
                char: '\0',
                string: string@,
                number: 0,
                line,
                column,
            }),
    {
        let mut token = Token::new(TokenType::Keyword, line, column);
        token.string = string;
        token
    }

    pub fn identifier_literal(string: String, line: u32, column: u32) -> (t: Token)
        ensures
            t@ == (TokenModel {
                kind: TokenType::Identifier,
                char: '\0',
                string: string@,
                number: 0,
                line,
                column,
            }),
    {
        let mut token = Token::new(TokenType::Identifier, line, column);
        token.string = string;
        token
    }

    pub fn char_literal(char: char, line: u32, column: u32) -> (t: Token)
        ensures
            t@ == (TokenModel { kind: TokenType::Char, char, string: Seq::empty(), number: 0, line, column }),
    {
        let mut token = Token::new(TokenType::Char, line, column);
        token.char = char;
        token
    }

    pub fn string_literal(string: String, line: u32, column: u32) -> (t: Token)
        ensures
            t@ == (TokenModel {
                kind: TokenType::String,
                char: '\0',
                string: string@,
                number: 0,
                line,
                column,
            }),
    {
        let mut token = Token::new(TokenType::String, line, column);
        token.string = string;
        token
    }

    pub fn number_literal(number: i64, line: u32, column: u32) -> (t: Token)
        ensures
            t@ == (TokenModel {
                kind: TokenType::Number,
                char: '\0',
                string: Seq::empty(),
                number,
                line,
                column,
            }),
    {
        let mut token = Token::new(TokenType::Number, line, column);
        token.number = number;
        token
    }

    pub fn operator(kind: TokenType, string: &str, line: u32, column: u32) -> (t: Token)
        ensures
            t@ == (TokenModel { kind, char: '\0', string: string@, number: 0, line, column }),
    {
        let mut tok = Token::new(kind, line, column);
        tok.string = String::from_str(string);
        tok
    }

    /// A token equal to this one.
    pub fn duplicate(&self) -> (t: Token)
        ensures
            t == *self,
    {
        Token {
            kind: self.kind,
            char: self.char,
            string: self.string.clone(),
            number: self.number,
            line: self.line,
            column: self.column,
        }
    }
}

/// Blank, tab, line feed or carriage return.
pub open spec fn whitespace(c: char) -> bool {
    c == ' ' || c == '\t' || c == '\n' || c == '\r'
}

/// A decimal digit.
pub open spec fn digit(c: char) -> bool {
    '0' <= c <= '9'
}

/// A letter or an underscore.
pub open spec fn alpha(c: char) -> bool {
    ('a' <= c <= 'z') || ('A' <= c <= 'Z') || c == '_'
}

/// A character that a word can go on with.
pub open spec fn word(c: char) -> bool {
    alpha(c) || digit(c)
}

/// Any character but the one that closes a string.
pub open spec fn unquoted(c: char) -> bool {
    c != '"'
}

/// Whether the character separates tokens.
pub fn is_whitespace(c: char) -> (r: bool)
    ensures
        r == whitespace(c),
{
    c == ' ' || c == '\t' || c == '\n' || c == '\r'
}

/// Whether the character is a decimal digit.
pub fn is_digit(c: char) -> (r: bool)
    ensures
        r == digit(c),
{
    c >= '0' && c <= '9'
}

/// Whether the character can start a word.
pub fn is_alpha(c: char) -> (r: bool)
    ensures
        r == alpha(c),
{
    (c >= 'a' && c <= 'z') || (c >= 'A' && c <= 'Z') || c == '_'
}

/// The classes of characters that a run can be made of.
#[derive(Clone, Copy, PartialEq, Eq, Structural)]
pub enum Class {
    Whitespace,
    Digit,
    Word,
    Unquoted,
}

/// Whether `c` belongs to `class`.
pub open spec fn member(class: Class, c: char) -> bool {
    match class {
        Class::Whitespace => whitespace(c),
        Class::Digit => digit(c),
        Class::Word => word(c),
        Class::Unquoted => unquoted(c),
    }
}

/// The end of the longest run of `class` characters that starts at `pos`.
pub open spec fn scan(src: Seq<u8>, pos: int, class: Class) -> int
    decreases src.len() - pos,
{
    if 0 <= pos < src.len() && member(class, src[pos] as char) {
        scan(src, pos + 1, class)
    } else {
        pos
    }
}

/// The characters that the bytes from `from` up to `to` stand for.
pub open spec fn text(src: Seq<u8>, from: int, to: int) -> Seq<char> {
    Seq::new((to - from) as nat, |i: int| src[from + i] as char)
}

/// The value of the decimal digits from `from` up to `to`.
pub open spec fn decimal(src: Seq<u8>, from: int, to: int) -> int
    decreases to - from,
{
    if from < to {
        decimal(src, from, to - 1) * 10 + (src[to - 1] - 48)
    } else {
        0
    }
}

/// Line and column after one more byte.
pub open spec fn bump(mark: (u32, u32), b: u8) -> (u32, u32) {
    if b == 10 {
        (
            if mark.0 < u32::MAX {
                (mark.0 + 1) as u32
            } else {
                mark.0
            },
            1,
        )
    } else {
        (
            mark.0,
            if mark.1 < u32::MAX {
                (mark.1 + 1) as u32
            } else {
                mark.1
            },
        )
    }
}

/// Line and column after the bytes from `from` up to `to`, starting from
/// `mark`; both stop counting at the largest value they can hold.
pub open spec fn track(src: Seq<u8>, from: int, to: int, mark: (u32, u32)) -> (u32, u32)
    decreases to - from,
{
    if 0 <= from < to <= src.len() {
        bump(track(src, from, to - 1, mark), src[to - 1])
    } else {
        mark
    }
}

/// Kind and text of a fixed token.
pub struct Spelling {
    pub kind: TokenType,
    pub text: Seq<char>,
}

/// The token that an operator character forms, with a directly following
/// `=` if `followed`, alone otherwise.
pub open spec fn compound(c: char, followed: bool) -> Option<Spelling> {
    if c == '=' {
        Some(
            if followed {
                Spelling { kind: TokenType::EqualEqual, text: "=="@ }
            } else {
                Spelling { kind: TokenType::Equal, text: "="@ }
            },
        )
    } else if c == '!' {
        Some(
            if followed {
                Spelling { kind: TokenType::NotEqual, text: "!="@ }
            } else {
                Spelling { kind: TokenType::Not, text: "!"@ }
            },
        )
    } else if c == '+' {
        Some(
            if followed {
                Spelling { kind: TokenType::CompoundAdd, text: "+="@ }
            } else {
                Spelling { kind: TokenType::Plus, text: "+"@ }
            },
        )
    } else if c == '-' {
        Some(
            if followed {
                Spelling { kind: TokenType::CompoundSub, text: "-="@ }
            } else {
                Spelling { kind: TokenType::Minus, text: "-"@ }
            },
        )
    } else if c == '*' {
        Some(
            if followed {
                Spelling { kind: TokenType::CompoundMul, text: "*="@ }
            } else {
                Spelling { kind: TokenType::Times, text: "*"@ }
            },
        )
    } else if c == '/' {
        Some(
            if followed {
                Spelling { kind: TokenType::CompoundDiv, text: "/="@ }
            } else {
                Spelling { kind: TokenType::Slash, text: "/"@ }
            },
        )
    } else if c == '>' {
        Some(
            if followed {
                Spelling { kind: TokenType::GTEqual, text: ">="@ }
            } else {
                Spelling { kind: TokenType::GT, text: ">"@ }
            },
        )
    } else if c == '<' {
        Some(
            if followed {
                Spelling { kind: TokenType::LTEqual, text: "<="@ }
            } else {
                Spelling { kind: TokenType::LT, text: "<"@ }
            },
        )
    } else {
        None
    }
}

/// The token that a punctuation character is.
pub open spec fn punctuation(c: char) -> Option<Spelling> {
    if c == '(' {
        Some(Spelling { kind: TokenType::LParen, text: "("@ })
    } else if c == ')' {
        Some(Spelling { kind: TokenType::RParen, text: ")"@ })
    } else if c == '{' {
        Some(Spelling { kind: TokenType::LBrace, text: "{"@ })
    } else if c == '}' {
        Some(Spelling { kind: TokenType::RBrace, text: "}"@ })
    } else if c == ',' {
        Some(Spelling { kind: TokenType::Separator, text: ","@ })
    } else {
        None
    }
}

/// Whether the word is reserved.
pub open spec fn keyword(w: Seq<char>) -> bool {
    w == "if"@ || w == "while"@ || w == "for"@
}

/// A token as the source determines it: kind, payload, and the position
/// right after it.
pub struct Lexeme {
    pub kind: TokenType,
    pub char: char,
    pub string: Seq<char>,
    pub number: i64,
    pub end: int,
}

/// A lexeme without payload.
pub open spec fn plain(kind: TokenType, end: int) -> Lexeme {
    Lexeme { kind, char: '\0', string: Seq::empty(), number: 0, end }
}

/// A lexeme that carries text.
pub open spec fn worded(kind: TokenType, string: Seq<char>, end: int) -> Lexeme {
    Lexeme { kind, char: '\0', string, number: 0, end }
}

/// The token that starts at or after `pos`, whitespace skipped.
///
/// At the end of the source the token is `EndOfFile`. A `"` starts a string
/// that runs to the next `"`; a `'` starts a character literal of exactly
/// one character; an operator character takes a directly following `=`
/// with it; digits form a number, letters, digits and `_` a word, which is
/// a keyword if reserved and an identifier otherwise.
#[verifier::opaque]
pub open spec fn lex(src: Seq<u8>, pos: int) -> Result<Lexeme, CompileError> {
    let start = scan(src, pos, Class::Whitespace);
    if start >= src.len() {
        Ok(plain(TokenType::EndOfFile, start))
    } else {
        let c = src[start] as char;
        if c == '"' {
            let close = scan(src, start + 1, Class::Unquoted);
            if close >= src.len() {
                Err(CompileError::UnterminatedString)
            } else {
                Ok(worded(TokenType::String, text(src, start + 1, close), close + 1))
            }
        } else if c == '\'' {
            if start + 2 < src.len() && src[start + 2] as char == '\'' {
                Ok(
                    Lexeme {
                        kind: TokenType::Char,
                        char: src[start + 1] as char,
                        string: Seq::empty(),
                        number: 0,
                        end: start + 3,
                    },
                )
            } else {
                Err(CompileError::UnterminatedChar)
            }
        } else if compound(c, false) is Some {
            let followed = start + 1 < src.len() && src[start + 1] as char == '=';
            let spelling = compound(c, followed)->0;
            Ok(worded(spelling.kind, spelling.text, if followed { start + 2 } else { start + 1 }))
        } else if punctuation(c) is Some {
            Ok(worded(punctuation(c)->0.kind, punctuation(c)->0.text, start + 1))
        } else if digit(c) {
            let end = scan(src, start, Class::Digit);
            if decimal(src, start, end) > i64::MAX {
                Err(CompileError::NumberTooLarge)
            } else {
                Ok(
                    Lexeme {
                        kind: TokenType::Number,
                        char: '\0',
                        string: Seq::empty(),
                        number: decimal(src, start, end) as i64,
                        end,
                    },
                )
            }
        } else if alpha(c) {
            let end = scan(src, start, Class::Word);
            let w = text(src, start, end);
            Ok(
                worded(
                    if keyword(w) {
                        TokenType::Keyword
                    } else {
                        TokenType::Identifier
                    },
                    w,
                    end,
                ),
            )
        } else {
            Err(CompileError::UnexpectedCharacter)
        }
    }
}

/// A run never ends before it starts, nor beyond the source.
pub proof fn lemma_scan_bounds(src: Seq<u8>, pos: int, class: Class)
    requires
        0 <= pos <= src.len(),
    ensures
        pos <= scan(src, pos, class) <= src.len(),
        forall|i: int| pos <= i < scan(src, pos, class) ==> member(class, #[trigger] src[i] as char),
        scan(src, pos, class) < src.len() ==> !member(class, src[scan(src, pos, class)] as char),
    decreases src.len() - pos,
{
    if pos < src.len() && member(class, src[pos] as char) {
        lemma_scan_bounds(src, pos + 1, class);
    }
}

/// A run that is resumed in its middle ends where it would have ended.
pub proof fn lemma_scan_resume(src: Seq<u8>, pos: int, mid: int, class: Class)
    requires
        0 <= pos <= mid <= src.len(),
        forall|i: int| pos <= i < mid ==> member(class, #[trigger] src[i] as char),
    ensures
        scan(src, pos, class) == scan(src, mid, class),
    decreases mid - pos,
{
    if pos < mid {
        assert(member(class, src[pos] as char));
        lemma_scan_resume(src, pos + 1, mid, class);
    }
}

/// More digits never make a smaller number.
pub proof fn lemma_decimal_grows(src: Seq<u8>, from: int, mid: int, to: int)
    requires
        0 <= from <= mid <= to <= src.len(),
        forall|i: int| from <= i < to ==> digit(#[trigger] src[i] as char),
    ensures
        0 <= decimal(src, from, mid) <= decimal(src, from, to),
    decreases to - mid,
{
    lemma_decimal_positive(src, from, mid);
    if mid < to {
        lemma_decimal_grows(src, from, mid, to - 1);
        assert(digit(src[to - 1] as char));
    }
}

proof fn lemma_decimal_positive(src: Seq<u8>, from: int, to: int)
    requires
        0 <= from <= to <= src.len(),
        forall|i: int| from <= i < to ==> digit(#[trigger] src[i] as char),
    ensures
        0 <= decimal(src, from, to),
    decreases to - from,
{
    if from < to {
        lemma_decimal_positive(src, from, to - 1);
        assert(digit(src[to - 1] as char));
    }
}

/// Every token but the end of the source ends after the position at which
/// it was asked for, and none ends beyond the source.
pub proof fn lemma_lex_advances(src: Seq<u8>, pos: int)
    requires
        0 <= pos <= src.len(),
    ensures
        lex(src, pos) is Ok ==> pos <= lex(src, pos)->Ok_0.end <= src.len(),
        lex(src, pos) is Ok && lex(src, pos)->Ok_0.kind != TokenType::EndOfFile ==> pos < lex(
            src,
            pos,
        )->Ok_0.end,
        lex(src, pos) is Ok && lex(src, pos)->Ok_0.kind == TokenType::EndOfFile ==> lex(src, pos)->Ok_0.end
            == src.len() && lex(src, pos)->Ok_0.string.len() == 0,
{
    reveal(lex);
    lemma_scan_bounds(src, pos, Class::Whitespace);
    let start = scan(src, pos, Class::Whitespace);
    if start < src.len() {
        lemma_scan_bounds(src, start + 1, Class::Unquoted);
        lemma_scan_bounds(src, start, Class::Digit);
        lemma_scan_bounds(src, start, Class::Word);
        let c = src[start] as char;
        if digit(c) {
            assert(scan(src, start, Class::Digit) == scan(src, start + 1, Class::Digit));
            lemma_scan_bounds(src, start + 1, Class::Digit);
        }
        if alpha(c) {
            assert(scan(src, start, Class::Word) == scan(src, start + 1, Class::Word));
            lemma_scan_bounds(src, start + 1, Class::Word);
        }
    }
}

/// Reads tokens from a source, one at a time.
pub struct Tokenizer<'a> {
    pub position: usize,
    pub source: &'a [u8],
    pub line: u32,
    pub column: u32,
}

impl<'a> Tokenizer<'a> {
    /// Line and column are those of the position: what counting the bytes
    /// before it gives, from the first line and the first column on.
    pub open spec fn placed(&self) -> bool {
        (self.line, self.column) == track(self.source@, 0, self.position as int, (1u32, 1u32))
    }

    pub fn new(source: &'a [u8]) -> (t: Tokenizer<'a>)
        ensures
            t.position == 0,
            t.source@ == source@,
            t.line == 1,
            t.column == 1,
            t.placed(),
    {
        Tokenizer { position: 0, source, line: 1, column: 1 }
    }

    /// Whether every byte has been read.
    pub fn eof(&self) -> (r: bool)
        ensures
            r == (self.position >= self.source@.len()),
    {
        self.position >= self.source.len()
    }

    /// Reads one byte, if there is one, and counts it.
    pub fn get(&mut self) -> (r: Option<char>)
        ensures
            final(self).source == old(self).source,
            old(self).position >= old(self).source@.len() ==> r is None && *final(self) == *old(self),
            old(self).position < old(self).source@.len() ==> {
                &&& r == Some(old(self).source@[old(self).position as int] as char)
                &&& final(self).position == old(self).position + 1
                &&& (final(self).line, final(self).column) == bump(
                    (old(self).line, old(self).column),
                    old(self).source@[old(self).position as int],
                )
            },
    {
        if self.position >= self.source.len() {
            return None;
        }
        let tmp = self.source[self.position];
        self.position = self.position + 1;
        if tmp == 10 {
            if self.line < u32::MAX {
                self.line = self.line + 1;
            }
            self.column = 1;
        } else if self.column < u32::MAX {
            self.column = self.column + 1;
        }
        Some(tmp as char)
    }

    /// The next byte, if there is one, without reading it.
    pub fn peek(&self) -> (r: Option<char>)
        ensures
            self.position >= self.source@.len() ==> r is None,
            self.position < self.source@.len() ==> r == Some(self.source@[self.position as int] as char),
    {
        if self.position >= self.source.len() {
            return None;
        }
        Some(self.source[self.position] as char)
    }

    /// Reads bytes for as long as they belong to `class`, appending their
    /// characters to `into`.
    fn take(&mut self, class: Class, into: &mut String)
        requires
            old(self).position <= old(self).source@.len(),
        ensures
            final(self).source == old(self).source,
            final(self).position == scan(old(self).source@, old(self).position as int, class),
            old(self).position <= final(self).position <= final(self).source@.len(),
            (final(self).line, final(self).column) == track(
                old(self).source@,
                old(self).position as int,
                final(self).position as int,
                (old(self).line, old(self).column),
            ),
            final(into)@ == old(into)@ + text(
                old(self).source@,
                old(self).position as int,
                final(self).position as int,
            ),
    {
        let ghost src = self.source@;
        let ghost from = self.position as int;
        let ghost mark = (self.line, self.column);
        proof {
            lemma_scan_bounds(src, from, class);
        }
        loop
            invariant
                self.source == old(self).source,
                src == self.source@,
                0 <= from <= self.position <= src.len(),
                forall|i: int| from <= i < self.position ==> member(class, #[trigger] src[i] as char),
                (self.line, self.column) == track(src, from, self.position as int, mark),
                into@ == old(into)@ + text(src, from, self.position as int),
            ensures
                self.source == old(self).source,
                0 <= from <= self.position <= src.len(),
                self.position == scan(src, from, class),
                (self.line, self.column) == track(src, from, self.position as int, mark),
                into@ == old(into)@ + text(src, from, self.position as int),
            decreases src.len() - self.position,
        {
            proof {
                lemma_scan_resume(src, from, self.position as int, class);
            }
            let next = self.peek();
            let inside = match next {
                None => false,
                Some(c) => match class {
                    Class::Whitespace => is_whitespace(c),
                    Class::Digit => is_digit(c),
                    Class::Word => is_alpha(c) || is_digit(c),
                    Class::Unquoted => c != '"',
                },
            };
            if !inside {
                break ;
            }
            let c = self.get().unwrap();
            into.push(c);
            assert(into@ =~= old(into)@ + text(src, from, self.position as int));
        }
    }

    /// Reads the next token.
    ///
    /// The token is the one that [`lex`] determines at the current position;
    /// afterwards the tokenizer stands right behind it and has counted the
    /// lines and columns up to there. On an error the tokenizer stays where
    /// it was.
    pub fn next(&mut self) -> (r: Result<Token, CompileError>)
        requires
            old(self).position <= old(self).source@.len(),
        ensures
            final(self).source == old(self).source,
            old(self).position <= final(self).position <= final(self).source@.len(),
            read_as(
                r,
                lex(old(self).source@, old(self).position as int),
                final(self).position as int,
            ),
            r is Ok ==> {
                &&& (final(self).line, final(self).column) == track(
                    old(self).source@,
                    old(self).position as int,
                    final(self).position as int,
                    (old(self).line, old(self).column),
                )
                &&& r->Ok_0@.line == final(self).line
                &&& r->Ok_0@.column == final(self).column
            },
            r is Err ==> *final(self) == *old(self),
            old(self).placed() ==> final(self).placed(),
    {
        let position = self.position;
        let line = self.line;
        let column = self.column;
        let token = self.scan_token();
        if token.is_err() {
            self.position = position;
            self.line = line;
            self.column = column;
        } else {
            proof {
                lemma_track_join(self.source@, 0, position as int, self.position as int, (1u32, 1u32));
            }
        }
        token
    }

    /// Reads the next token, leaving the tokenizer wherever an error stops
    /// it.
    fn scan_token(&mut self) -> (r: Result<Token, CompileError>)
        requires
            old(self).position <= old(self).source@.len(),
        ensures
            final(self).source == old(self).source,
            old(self).position <= final(self).position <= final(self).source@.len(),
            read_as(
                r,
                lex(old(self).source@, old(self).position as int),
                final(self).position as int,
            ),
            r is Ok ==> {
                &&& (final(self).line, final(self).column) == track(
                    old(self).source@,
                    old(self).position as int,
                    final(self).position as int,
                    (old(self).line, old(self).column),
                )
                &&& r->Ok_0@.line == final(self).line
                &&& r->Ok_0@.column == final(self).column
            },
    {
        let ghost src = self.source@;
        let ghost from = self.position as int;
        let ghost mark = (self.line, self.column);
        reveal(lex);
        let mut ignored = String::new();
        self.take(Class::Whitespace, &mut ignored);
        let ghost start = self.position as int;
        proof {
            lemma_lex_advances(src, from);
            lemma_scan_bounds(src, from, Class::Whitespace);
        }
        let c = match self.get() {
            None => {
                return Ok(Token::new(TokenType::EndOfFile, self.line, self.column));
            },
            Some(c) => c,
        };
        proof {
            lemma_track_join(src, from, start, start + 1, mark);
        }
        if c == '"' {
            let mut string = String::new();
            self.take(Class::Unquoted, &mut string);
            let ghost close = self.position as int;
            proof {
                lemma_track_join(src, from, start + 1, close, mark);
            }
            if self.get().is_none() {
                return Err(CompileError::UnterminatedString);
            }
            proof {
                lemma_track_join(src, from, close, close + 1, mark);
            }
            return Ok(Token::string_literal(string, self.line, self.column));
        }
        if c == '\'' {
            let inner = self.get();
            let close = self.get();
            if inner.is_none() || close.is_none() || close.unwrap() != '\'' {
                return Err(CompileError::UnterminatedChar);
            }
            proof {
                lemma_track_join(src, from, start + 1, start + 2, mark);
                lemma_track_join(src, from, start + 2, start + 3, mark);
            }
            return Ok(Token::char_literal(inner.unwrap(), self.line, self.column));
        }
        let followed = match self.peek() {
            Some(n) => n == '=',
            None => false,
        };
        match operator_for(c, followed) {
            Some((kind, string)) => {
                if followed {
                    self.get();
                    proof {
                        lemma_track_join(src, from, start + 1, start + 2, mark);
                    }
                }
                return Ok(Token::operator(kind, string, self.line, self.column));
            },
            None => {},
        }
        match punctuation_for(c) {
            Some((kind, string)) => {
                return Ok(Token::operator(kind, string, self.line, self.column));
            },
            None => {},
        }
        if is_digit(c) {
            let mut digits = String::new();
            self.take(Class::Digit, &mut digits);
            let ghost end = self.position as int;
            proof {
                lemma_track_join(src, from, start + 1, end, mark);
                assert(scan(src, start, Class::Digit) == scan(src, start + 1, Class::Digit));
                lemma_scan_bounds(src, start, Class::Digit);
            }
            let number = self.number(self.position - digits.as_str().unicode_len() - 1, self.position);
            return match number {
                Some(n) => Ok(Token::number_literal(n, self.line, self.column)),
                None => Err(CompileError::NumberTooLarge),
            };
        }
        if is_alpha(c) {
            let mut id = String::new();
            id.push(c);
            self.take(Class::Word, &mut id);
            let ghost end = self.position as int;
            proof {
                lemma_track_join(src, from, start + 1, end, mark);
                assert(scan(src, start, Class::Word) == scan(src, start + 1, Class::Word));
                assert(id@ =~= text(src, start, end));
            }
            if id == String::from_str("if") || id == String::from_str("while") || id == String::from_str(
                "for",
            ) {
                return Ok(Token::keyword_literal(id, self.line, self.column));
            }
            return Ok(Token::identifier_literal(id, self.line, self.column));
        }
        Err(CompileError::UnexpectedCharacter)
    }

    /// The value of the digits from `from` up to `to`, if it fits.
    fn number(&self, from: usize, to: usize) -> (r: Option<i64>)
        requires
            from <= to <= self.source@.len(),
            forall|i: int| from <= i < to ==> digit(#[trigger] self.source@[i] as char),
        ensures
            decimal(self.source@, from as int, to as int) > i64::MAX ==> r is None,
            decimal(self.source@, from as int, to as int) <= i64::MAX ==> r == Some(
                decimal(self.source@, from as int, to as int) as i64,
            ),
    {
        let mut value: i64 = 0;
        let mut at = from;
        while at < to
            invariant
                from <= at <= to <= self.source@.len(),
                forall|i: int| from <= i < to ==> digit(#[trigger] self.source@[i] as char),
                0 <= value == decimal(self.source@, from as int, at as int),
            decreases to - at,
        {
            let b = self.source[at];
            assert(digit(self.source@[at as int] as char));
            let d = (b - 48) as i64;
            if value > (i64::MAX - d) / 10 {
                proof {
                    lemma_decimal_grows(self.source@, from as int, at + 1, to as int);
                }
                return None;
            }
            value = value * 10 + d;
            at = at + 1;
        }
        Some(value)
    }

    /// Reads the next token and insists on its kind. Where no token can be
    /// read, or one of another kind is found, the tokenizer stays where it
    /// was.
    pub fn expect(&mut self, t: TokenType) -> (r: Result<Token, CompileError>)
        requires
            old(self).position <= old(self).source@.len(),
        ensures
            final(self).source == old(self).source,
            old(self).position <= final(self).position <= final(self).source@.len(),
            match lex(old(self).source@, old(self).position as int) {
                Ok(lexeme) => if lexeme.kind == t {
                    &&& r is Ok
                    &&& same_token(r->Ok_0@, lexeme)
                    &&& final(self).position == lexeme.end
                    &&& (final(self).line, final(self).column) == track(
                        old(self).source@,
                        old(self).position as int,
                        lexeme.end,
                        (old(self).line, old(self).column),
                    )
                    &&& r->Ok_0@.line == final(self).line
                    &&& r->Ok_0@.column == final(self).column
                } else {
                    r == Err::<Token, CompileError>(CompileError::UnexpectedToken)
                },
                Err(e) => r == Err::<Token, CompileError>(e),
            },
            r is Err ==> *final(self) == *old(self),
            old(self).placed() ==> final(self).placed(),
    {
        let position = self.position;
        let line = self.line;
        let column = self.column;
        let tok = self.next()?;
        if tok.kind != t {
            self.position = position;
            self.line = line;
            self.column = column;
            return Err(CompileError::UnexpectedToken);
        }
        Ok(tok)
    }

    /// The next token, read without moving the tokenizer.
    pub fn peek_token(&mut self) -> (r: Result<Token, CompileError>)
        requires
            old(self).position <= old(self).source@.len(),
        ensures
            *final(self) == *old(self),
            match lex(old(self).source@, old(self).position as int) {
                Ok(lexeme) => r is Ok && same_token(r->Ok_0@, lexeme) && (r->Ok_0@.line, r->Ok_0@.column)
                    == track(
                    old(self).source@,
                    old(self).position as int,
                    lexeme.end,
                    (old(self).line, old(self).column),
                ),
                Err(e) => r == Err::<Token, CompileError>(e),
            },
    {
        let pos = self.position;
        let line = self.line;
        let column = self.column;
        let token = self.next();
        self.position = pos;
        self.line = line;
        self.column = column;
        token
    }

    /// The next `n` tokens, read without moving the tokenizer.
    ///
    /// The result is the first error on the way, if there is one.
    pub fn peek_many(&mut self, n: usize) -> (r: Result<Vec<Token>, CompileError>)
        requires
            old(self).position <= old(self).source@.len(),
        ensures
            *final(self) == *old(self),
            r is Ok ==> {
                &&& r->Ok_0@.len() == n
                &&& forall|i: int|
                    0 <= i < n ==> #[trigger] looked(r->Ok_0@, old(self).source@, old(self).position as int, i)
            },
            r is Ok ==> first_error(old(self).source@, old(self).position as int, n as nat) is None,
            r is Err ==> first_error(old(self).source@, old(self).position as int, n as nat) == Some(r->Err_0),
    {
        let pos = self.position;
        let line = self.line;
        let column = self.column;
        let ghost src = self.source@;
        let ghost start = self.position as int;
        let mut tokens: Vec<Token> = Vec::new();
        let mut failure: Option<CompileError> = None;
        let mut k: usize = 0;
        let ghost mut stuck: int = 0;
        while k < n && failure.is_none()
            invariant
                k <= n,
                self.source == old(self).source,
                src == self.source@,
                start == old(self).position,
                self.position <= self.source@.len(),
                failure is None ==> {
                    &&& tokens@.len() == k
                    &&& self.position == ahead(src, start, k as nat)
                    &&& forall|i: int| 0 <= i < k ==> #[trigger] looked(tokens@, src, start, i)
                },
                failure is None ==> first_error(src, start, k as nat) is None,
                failure is Some ==> 0 <= stuck < n && first_error(src, start, (stuck + 1) as nat) == Some(
                    failure->0,
                ),
            decreases n - k + (if failure is None { 1int } else { 0int }),
        {
            let ghost at = self.position as int;
            let ghost seen = tokens@;
            match self.next() {
                Ok(token) => {
                    tokens.push(token);
                    assert forall|i: int| 0 <= i < k + 1 implies #[trigger] looked(tokens@, src, start, i) by {
                        if i < k {
                            assert(looked(seen, src, start, i));
                        }
                    }
                    k = k + 1;
                    assert(ahead(src, start, k as nat) == self.position);
                },
                Err(e) => {
                    proof {
                        stuck = k as int;
                    }
                    failure = Some(e);
                },
            }
        }
        self.position = pos;
        self.line = line;
        self.column = column;
        match failure {
            Some(e) => {
                proof {
                    lemma_first_error_sticks(src, start, (stuck + 1) as nat, n as nat);
                }
                Err(e)
            },
            None => Ok(tokens),
        }
    }
}

/// Token `i` of `tokens` is the `i`-th token after `pos`.
pub open spec fn looked(tokens: Seq<Token>, src: Seq<u8>, pos: int, i: int) -> bool {
    &&& 0 <= i < tokens.len()
    &&& lex(src, ahead(src, pos, i as nat)) is Ok
    &&& same_token(tokens[i]@, lex(src, ahead(src, pos, i as nat))->Ok_0)
}

/// The error that stops reading `n` tokens after `pos`, if there is one.
pub open spec fn first_error(src: Seq<u8>, pos: int, n: nat) -> Option<CompileError>
    decreases n,
{
    if n == 0 {
        None
    } else {
        match first_error(src, pos, (n - 1) as nat) {
            Some(e) => Some(e),
            None => match lex(src, ahead(src, pos, (n - 1) as nat)) {
                Ok(_) => None,
                Err(e) => Some(e),
            },
        }
    }
}

/// An error that stops the reading of some tokens stops the reading of more.
pub proof fn lemma_first_error_sticks(src: Seq<u8>, pos: int, k: nat, n: nat)
    requires
        k <= n,
        first_error(src, pos, k) is Some,
    ensures
        first_error(src, pos, n) == first_error(src, pos, k),
    decreases n - k,
{
    if k < n {
        lemma_first_error_sticks(src, pos, k, (n - 1) as nat);
    }
}

/// The outcome of reading a token is the one that the source determines:
/// the same error, or a token with the lexeme's payload and the tokenizer
/// right behind it.
pub open spec fn read_as(r: Result<Token, CompileError>, want: Result<Lexeme, CompileError>, position: int) -> bool {
    match want {
        Ok(lexeme) => r is Ok && same_token(r->Ok_0@, lexeme) && position == lexeme.end,
        Err(e) => r == Err::<Token, CompileError>(e),
    }
}

/// The token carries what the lexeme determines.
pub open spec fn same_token(t: TokenModel, l: Lexeme) -> bool {
    &&& t.kind == l.kind
    &&& t.char == l.char
    &&& t.string == l.string
    &&& t.number == l.number
}

/// The position after `n` more tokens; a token that cannot be read ends the
/// advance.
pub open spec fn ahead(src: Seq<u8>, pos: int, n: nat) -> int
    decreases n,
{
    if n == 0 {
        pos
    } else {
        let before = ahead(src, pos, (n - 1) as nat);
        match lex(src, before) {
            Ok(lexeme) => lexeme.end,
            Err(_) => before,
        }
    }
}

/// Counting lines and columns in two stretches gives what counting them in
/// one gives.
pub proof fn lemma_track_join(src: Seq<u8>, from: int, mid: int, to: int, mark: (u32, u32))
    requires
        0 <= from <= mid <= to <= src.len(),
    ensures
        track(src, mid, to, track(src, from, mid, mark)) == track(src, from, to, mark),
    decreases to - mid,
{
    if mid < to {
        lemma_track_join(src, from, mid, to - 1, mark);
    }
}

/// The token that an operator character forms.
fn operator_for(c: char, followed: bool) -> (r: Option<(TokenType, &'static str)>)
    ensures
        match r {
            Some((kind, text)) => compound(c, followed) == Some(Spelling { kind, text: text@ }),
            None => compound(c, followed) is None,
        },
        compound(c, followed) is None <==> compound(c, false) is None,
{
    if c == '=' {
        Some(if followed { (TokenType::EqualEqual, "==") } else { (TokenType::Equal, "=") })
    } else if c == '!' {
        Some(if followed { (TokenType::NotEqual, "!=") } else { (TokenType::Not, "!") })
    } else if c == '+' {
        Some(if followed { (TokenType::CompoundAdd, "+=") } else { (TokenType::Plus, "+") })
    } else if c == '-' {
        Some(if followed { (TokenType::CompoundSub, "-=") } else { (TokenType::Minus, "-") })
    } else if c == '*' {
        Some(if followed { (TokenType::CompoundMul, "*=") } else { (TokenType::Times, "*") })
    } else if c == '/' {
        Some(if followed { (TokenType::CompoundDiv, "/=") } else { (TokenType::Slash, "/") })
    } else if c == '>' {
        Some(if followed { (TokenType::GTEqual, ">=") } else { (TokenType::GT, ">") })
    } else if c == '<' {
        Some(if followed { (TokenType::LTEqual, "<=") } else { (TokenType::LT, "<") })
    } else {
        None
    }
}

/// The token that a punctuation character is.
fn punctuation_for(c: char) -> (r: Option<(TokenType, &'static str)>)
    ensures
        match r {
            Some((kind, text)) => punctuation(c) == Some(Spelling { kind, text: text@ }),
            None => punctuation(c) is None,
        },
{
    if c == '(' {
        Some((TokenType::LParen, "("))
    } else if c == ')' {
        Some((TokenType::RParen, ")"))
    } else if c == '{' {
        Some((TokenType::LBrace, "{"))
    } else if c == '}' {
        Some((TokenType::RBrace, "}"))
    } else if c == ',' {
        Some((TokenType::Separator, ","))
    } else {
        None
    }
}

} // verus!
