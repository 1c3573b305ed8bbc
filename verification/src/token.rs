//! The token alphabet that the lexer produces and the parser consumes.

use vstd::prelude::*;
use crate::rational::{Num, Rat};

verus! {

/// Mathematical model of a token: strings as character sequences, numbers as
/// exact fractions.
pub ghost enum TokenModel {
    StorageArrow,
    ArgsOpen,
    ArgsClose,
    BlockOpen,
    BlockClose,
    LambdaStart,
    BinaryOperation(Seq<char>),
    StringLiteral(Seq<char>),
    Number(Rat),
    Identifier(Seq<char>),
}

/// One lexed token.  `StorageArrow` is the assignment operator `<-`;
/// `ArgsOpen`/`ArgsClose` delimit call arguments; `BlockOpen`/`BlockClose`
/// delimit statements and scopes (emitted for `{`/`}`, around each physical
/// line, and around the right-hand side of each assignment).
#[derive(Debug, Clone, PartialEq)]
pub enum Token {
    StorageArrow,
    ArgsOpen,
    ArgsClose,
    BlockOpen,
    BlockClose,
    LambdaStart,
    BinaryOperation(String),
    StringLiteral(String),
    Number(Num),
    Identifier(String),
}

impl View for Token {
    type V = TokenModel;

    open spec fn view(&self) -> TokenModel {
        match self {
            Token::StorageArrow => TokenModel::StorageArrow,
            Token::ArgsOpen => TokenModel::ArgsOpen,
            Token::ArgsClose => TokenModel::ArgsClose,
            Token::BlockOpen => TokenModel::BlockOpen,
            Token::BlockClose => TokenModel::BlockClose,
            Token::LambdaStart => TokenModel::LambdaStart,
            Token::BinaryOperation(s) => TokenModel::BinaryOperation(s@),
            Token::StringLiteral(s) => TokenModel::StringLiteral(s@),
            Token::Number(n) => TokenModel::Number(n@),
            Token::Identifier(s) => TokenModel::Identifier(s@),
        }
    }
}

/// The model of a whole token stream.
pub open spec fn tokens_view(toks: Seq<Token>) -> Seq<TokenModel> {
    toks.map_values(|t: Token| t@)
}

} // verus!
