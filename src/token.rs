use vstd::prelude::*;

verus! {

/// The closed set of token kinds.
#[derive(Clone, Copy, Debug, PartialEq, Eq, Structural)]
pub enum Type {
    LeftParen,
    RightParen,
    LeftBrace,
    RightBrace,
    Comma,
    Dot,
    Minus,
    Plus,
    Semicolon,
    Slash,
    Star,
    Bang,
    BangEqual,
    Equal,
    EqualEqual,
    Greater,
    GreaterEqual,
    Less,
    LessEqual,
    Identifier,
    String,
    Number,
    And,
    Class,
    Else,
    False,
    Fun,
    For,
    If,
    Nil,
    Or,
    Print,
    Return,
    Super,
    This,
    True,
    Var,
    While,
    EOF,
}

impl Type {
    /// The display name of a kind: its lowercase snake-case spelling.
    pub open spec fn spec_name(self) -> Seq<char> {
        match self {
            Type::LeftParen => "left_paren"@,
            Type::RightParen => "right_paren"@,
            Type::LeftBrace => "left_brace"@,
            Type::RightBrace => "right_brace"@,
            Type::Comma => "comma"@,
            Type::Dot => "dot"@,
            Type::Minus => "minus"@,
            Type::Plus => "plus"@,
            Type::Semicolon => "semicolon"@,
            Type::Slash => "slash"@,
            Type::Star => "star"@,
            Type::Bang => "bang"@,
            Type::BangEqual => "bang_equal"@,
            Type::Equal => "equal"@,
            Type::EqualEqual => "equal_equal"@,
            Type::Greater => "greater"@,
            Type::GreaterEqual => "greater_equal"@,
            Type::Less => "less"@,
            Type::LessEqual => "less_equal"@,
            Type::Identifier => "identifier"@,
            Type::String => "string"@,
            Type::Number => "number"@,
            Type::And => "and"@,
            Type::Class => "class"@,
            Type::Else => "else"@,
            Type::False => "false"@,
            Type::Fun => "fun"@,
            Type::For => "for"@,
            Type::If => "if"@,
            Type::Nil => "nil"@,
            Type::Or => "or"@,
            Type::Print => "print"@,
            Type::Return => "return"@,
            Type::Super => "super"@,
            Type::This => "this"@,
            Type::True => "true"@,
            Type::Var => "var"@,
            Type::While => "while"@,
            Type::EOF => "eof"@,
        }
    }

    /// The display name of this kind, as used in textual output.
    pub fn name(&self) -> (r: &'static str)
        ensures
            r@ == self.spec_name(),
    {
        match self {
            Type::LeftParen => "left_paren",
            Type::RightParen => "right_paren",
            Type::LeftBrace => "left_brace",
            Type::RightBrace => "right_brace",
            Type::Comma => "comma",
            Type::Dot => "dot",
            Type::Minus => "minus",
            Type::Plus => "plus",
            Type::Semicolon => "semicolon",
            Type::Slash => "slash",
            Type::Star => "star",
            Type::Bang => "bang",
            Type::BangEqual => "bang_equal",
            Type::Equal => "equal",
            Type::EqualEqual => "equal_equal",
            Type::Greater => "greater",
            Type::GreaterEqual => "greater_equal",
            Type::Less => "less",
            Type::LessEqual => "less_equal",
            Type::Identifier => "identifier",
            Type::String => "string",
            Type::Number => "number",
            Type::And => "and",
            Type::Class => "class",
            Type::Else => "else",
            Type::False => "false",
            Type::Fun => "fun",
            Type::For => "for",
            Type::If => "if",
            Type::Nil => "nil",
            Type::Or => "or",
            Type::Print => "print",
            Type::Return => "return",
            Type::Super => "super",
            Type::This => "this",
            Type::True => "true",
            Type::Var => "var",
            Type::While => "while",
            Type::EOF => "eof",
        }
    }
}

/// A recognised lexeme: its kind, its text, and the line on which its last
/// character was consumed.
#[derive(Debug)]
pub struct Token {
    pub token_type: Type,
    pub lexeme: String,
    pub line: usize,
}

/// What a token is, mathematically.
pub struct TokenView {
    pub kind: Type,
    pub text: Seq<char>,
    pub line: int,
}

impl View for Token {
    type V = TokenView;

    open spec fn view(&self) -> TokenView {
        TokenView { kind: self.token_type, text: self.lexeme@, line: self.line as int }
    }
}

/// A lexical error, with the line on which it was detected.
#[derive(Clone, Copy, Debug, PartialEq, Eq, Structural)]
pub enum ScannerErr {
    UnexpectedCharacter(usize),
    BadUtf8(usize),
    UnterminatedString(usize),
}

impl ScannerErr {
    /// The line on which the error was detected.
    pub fn line(&self) -> (r: usize)
        ensures
            r == match *self {
                ScannerErr::UnexpectedCharacter(l) => l,
                ScannerErr::BadUtf8(l) => l,
                ScannerErr::UnterminatedString(l) => l,
            },
    {
        match *self {
            ScannerErr::UnexpectedCharacter(l) => l,
            ScannerErr::BadUtf8(l) => l,
            ScannerErr::UnterminatedString(l) => l,
        }
    }

    /// The diagnostic message for this error.
    pub fn message(&self) -> (r: &'static str)
        ensures
            r@ == match *self {
                ScannerErr::UnexpectedCharacter(_) => "Unexpected character."@,
                ScannerErr::BadUtf8(_) => "Bad UTF-8."@,
                ScannerErr::UnterminatedString(_) => "Unterminated string."@,
            },
    {
        match *self {
            ScannerErr::UnexpectedCharacter(_) => "Unexpected character.",
            ScannerErr::BadUtf8(_) => "Bad UTF-8.",
            ScannerErr::UnterminatedString(_) => "Unterminated string.",
        }
    }
}

} // verus!
