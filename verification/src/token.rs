//! The lexical categories of the language.

use vstd::prelude::*;

verus! {

#[derive(Clone, Debug, PartialEq)]
pub enum Token {
    Decl,
    DeclShort,
    Type,
    Number,
    String,
    True,
    False,
    Identifier,
    Is,
    NameIs,
    Print,
    Plus,
    Minus,
    Star,
    PrepositionLeft,
    PrepositionRight,
    EqualEqual,
    BangEqual,
    Greater,
    Less,
    BangGreater,
    BangLess,
    AssignFrom,
    AssignTo,
    Prev,
    Fu,
    Invert,
    Conjunction,
    Sure,
    YunYun,
    Ye,
    If,
    Else,
    Loop,
    For,
    ForMid,
    Break,
    And,
    Or,
    Fun,
    FunctionReady,
    FunctionArg,
    FunctionBodyBegin,
    FunctionEnd1,
    FunctionEnd2,
    Call,
    Return,
    Eof,
    Error(String),
}

/// A token without its message: two tokens of the same kind differ at most
/// in the message of an error.
#[derive(Clone, Copy, Debug, PartialEq, Eq, Structural)]
pub enum TokenKind {
    Decl,
    DeclShort,
    Type,
    Number,
    String,
    True,
    False,
    Identifier,
    Is,
    NameIs,
    Print,
    Plus,
    Minus,
    Star,
    PrepositionLeft,
    PrepositionRight,
    EqualEqual,
    BangEqual,
    Greater,
    Less,
    BangGreater,
    BangLess,
    AssignFrom,
    AssignTo,
    Prev,
    Fu,
    Invert,
    Conjunction,
    Sure,
    YunYun,
    Ye,
    If,
    Else,
    Loop,
    For,
    ForMid,
    Break,
    And,
    Or,
    Fun,
    FunctionReady,
    FunctionArg,
    FunctionBodyBegin,
    FunctionEnd1,
    FunctionEnd2,
    Call,
    Return,
    Eof,
    Error,
}

impl Token {
    pub open spec fn spec_kind(&self) -> TokenKind {
        match self {
            Token::Decl => TokenKind::Decl,
            Token::DeclShort => TokenKind::DeclShort,
            Token::Type => TokenKind::Type,
            Token::Number => TokenKind::Number,
            Token::String => TokenKind::String,
            Token::True => TokenKind::True,
            Token::False => TokenKind::False,
            Token::Identifier => TokenKind::Identifier,
            Token::Is => TokenKind::Is,
            Token::NameIs => TokenKind::NameIs,
            Token::Print => TokenKind::Print,
            Token::Plus => TokenKind::Plus,
            Token::Minus => TokenKind::Minus,
            Token::Star => TokenKind::Star,
            Token::PrepositionLeft => TokenKind::PrepositionLeft,
            Token::PrepositionRight => TokenKind::PrepositionRight,
            Token::EqualEqual => TokenKind::EqualEqual,
            Token::BangEqual => TokenKind::BangEqual,
            Token::Greater => TokenKind::Greater,
            Token::Less => TokenKind::Less,
            Token::BangGreater => TokenKind::BangGreater,
            Token::BangLess => TokenKind::BangLess,
            Token::AssignFrom => TokenKind::AssignFrom,
            Token::AssignTo => TokenKind::AssignTo,
            Token::Prev => TokenKind::Prev,
            Token::Fu => TokenKind::Fu,
            Token::Invert => TokenKind::Invert,
            Token::Conjunction => TokenKind::Conjunction,
            Token::Sure => TokenKind::Sure,
            Token::YunYun => TokenKind::YunYun,
            Token::Ye => TokenKind::Ye,
            Token::If => TokenKind::If,
            Token::Else => TokenKind::Else,
            Token::Loop => TokenKind::Loop,
            Token::For => TokenKind::For,
            Token::ForMid => TokenKind::ForMid,
            Token::Break => TokenKind::Break,
            Token::And => TokenKind::And,
            Token::Or => TokenKind::Or,
            Token::Fun => TokenKind::Fun,
            Token::FunctionReady => TokenKind::FunctionReady,
            Token::FunctionArg => TokenKind::FunctionArg,
            Token::FunctionBodyBegin => TokenKind::FunctionBodyBegin,
            Token::FunctionEnd1 => TokenKind::FunctionEnd1,
            Token::FunctionEnd2 => TokenKind::FunctionEnd2,
            Token::Call => TokenKind::Call,
            Token::Return => TokenKind::Return,
            Token::Eof => TokenKind::Eof,
            Token::Error(_) => TokenKind::Error,
        }
    }

    /// The message of an error token, empty for every other token.
    pub open spec fn spec_message(&self) -> Seq<char> {
        match self {
            Token::Error(message) => message@,
            _ => Seq::empty(),
        }
    }

    #[verifier::when_used_as_spec(spec_kind)]
    pub fn kind(&self) -> (kind: TokenKind)
        ensures
            kind == self.spec_kind(),
    {
        match self {
            Token::Decl => TokenKind::Decl,
            Token::DeclShort => TokenKind::DeclShort,
            Token::Type => TokenKind::Type,
            Token::Number => TokenKind::Number,
            Token::String => TokenKind::String,
            Token::True => TokenKind::True,
            Token::False => TokenKind::False,
            Token::Identifier => TokenKind::Identifier,
            Token::Is => TokenKind::Is,
            Token::NameIs => TokenKind::NameIs,
            Token::Print => TokenKind::Print,
            Token::Plus => TokenKind::Plus,
            Token::Minus => TokenKind::Minus,
            Token::Star => TokenKind::Star,
            Token::PrepositionLeft => TokenKind::PrepositionLeft,
            Token::PrepositionRight => TokenKind::PrepositionRight,
            Token::EqualEqual => TokenKind::EqualEqual,
            Token::BangEqual => TokenKind::BangEqual,
            Token::Greater => TokenKind::Greater,
            Token::Less => TokenKind::Less,
            Token::BangGreater => TokenKind::BangGreater,
            Token::BangLess => TokenKind::BangLess,
            Token::AssignFrom => TokenKind::AssignFrom,
            Token::AssignTo => TokenKind::AssignTo,
            Token::Prev => TokenKind::Prev,
            Token::Fu => TokenKind::Fu,
            Token::Invert => TokenKind::Invert,
            Token::Conjunction => TokenKind::Conjunction,
            Token::Sure => TokenKind::Sure,
            Token::YunYun => TokenKind::YunYun,
            Token::Ye => TokenKind::Ye,
            Token::If => TokenKind::If,
            Token::Else => TokenKind::Else,
            Token::Loop => TokenKind::Loop,
            Token::For => TokenKind::For,
            Token::ForMid => TokenKind::ForMid,
            Token::Break => TokenKind::Break,
            Token::And => TokenKind::And,
            Token::Or => TokenKind::Or,
            Token::Fun => TokenKind::Fun,
            Token::FunctionReady => TokenKind::FunctionReady,
            Token::FunctionArg => TokenKind::FunctionArg,
            Token::FunctionBodyBegin => TokenKind::FunctionBodyBegin,
            Token::FunctionEnd1 => TokenKind::FunctionEnd1,
            Token::FunctionEnd2 => TokenKind::FunctionEnd2,
            Token::Call => TokenKind::Call,
            Token::Return => TokenKind::Return,
            Token::Eof => TokenKind::Eof,
            Token::Error(_) => TokenKind::Error,
        }
    }
    /// A copy of this token.
    pub fn duplicate(&self) -> (copy: Token)
        ensures
            copy == *self,
    {
        match self {
            Token::Decl => Token::Decl,
            Token::DeclShort => Token::DeclShort,
            Token::Type => Token::Type,
            Token::Number => Token::Number,
            Token::String => Token::String,
            Token::True => Token::True,
            Token::False => Token::False,
            Token::Identifier => Token::Identifier,
            Token::Is => Token::Is,
            Token::NameIs => Token::NameIs,
            Token::Print => Token::Print,
            Token::Plus => Token::Plus,
            Token::Minus => Token::Minus,
            Token::Star => Token::Star,
            Token::PrepositionLeft => Token::PrepositionLeft,
            Token::PrepositionRight => Token::PrepositionRight,
            Token::EqualEqual => Token::EqualEqual,
            Token::BangEqual => Token::BangEqual,
            Token::Greater => Token::Greater,
            Token::Less => Token::Less,
            Token::BangGreater => Token::BangGreater,
            Token::BangLess => Token::BangLess,
            Token::AssignFrom => Token::AssignFrom,
            Token::AssignTo => Token::AssignTo,
            Token::Prev => Token::Prev,
            Token::Fu => Token::Fu,
            Token::Invert => Token::Invert,
            Token::Conjunction => Token::Conjunction,
            Token::Sure => Token::Sure,
            Token::YunYun => Token::YunYun,
            Token::Ye => Token::Ye,
            Token::If => Token::If,
            Token::Else => Token::Else,
            Token::Loop => Token::Loop,
            Token::For => Token::For,
            Token::ForMid => Token::ForMid,
            Token::Break => Token::Break,
            Token::And => Token::And,
            Token::Or => Token::Or,
            Token::Fun => Token::Fun,
            Token::FunctionReady => Token::FunctionReady,
            Token::FunctionArg => Token::FunctionArg,
            Token::FunctionBodyBegin => Token::FunctionBodyBegin,
            Token::FunctionEnd1 => Token::FunctionEnd1,
            Token::FunctionEnd2 => Token::FunctionEnd2,
            Token::Call => Token::Call,
            Token::Return => Token::Return,
            Token::Eof => Token::Eof,
            Token::Error(message) => Token::Error(message.clone()),
        }
    }
}

} // verus!
