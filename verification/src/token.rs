//! Lexical tokens: operators with their precedence, the token union the
//! lexer produces, access chains, and lexical errors.
use vstd::prelude::*;

use crate::blockiser::blk_model;
use crate::blockiser::Block;
use crate::blockiser::BlockModel;

verus! {

broadcast use
    vstd::std_specs::vec::axiom_vec_index_decreases,
    vstd::seq::axiom_seq_index_decreases;

/// A binary or prefix operator of the language.
#[derive(Clone, Copy, Debug, PartialEq, Eq, Structural)]
pub enum Operator {
    NullishCoalescing,
    Conditional,
    Colon,
    Divide,
    Multiply,
    Add,
    Subtract,
    Not,
    Assignment,
    Equality,
    Return,
}

/// The precedence of an operator: a lower number binds more loosely, so
/// the parser splits a token sequence at the operator with the lowest
/// precedence first.
pub open spec fn precidence_spec(op: Operator) -> u8 {
    match op {
        Operator::Add | Operator::Subtract => 11,
        Operator::Multiply | Operator::Divide => 12,
        Operator::NullishCoalescing => 3,
        Operator::Conditional | Operator::Colon | Operator::Assignment => 2,
        Operator::Not => 14,
        Operator::Equality => 8,
        Operator::Return => 1,
    }
}

impl Operator {
    /// The operator's precedence; a lower number splits first.
    pub fn precidence(&self) -> (r: u8)
        ensures
            r == precidence_spec(*self),
    {
        match self {
            Operator::Add | Operator::Subtract => 11,
            Operator::Multiply | Operator::Divide => 12,
            Operator::NullishCoalescing => 3,
            Operator::Conditional | Operator::Colon | Operator::Assignment => 2,
            Operator::Not => 14,
            Operator::Equality => 8,
            Operator::Return => 1,
        }
    }
}

/// A lexical token.
#[derive(Debug, PartialEq)]
pub enum Token {
    Number(i64),
    Operator(Operator),
    OpenBracket,
    CloseBracket,
    Access(Vec<Access>),
    Comma,
    Semicolon,
    Block(Block),
}

/// One step of an access chain as the lexer captures it: a name, the
/// tokens of a bracketed index, or the tokens of a parenthesised
/// argument list.
#[derive(Debug, PartialEq)]
pub enum Access {
    Name(String),
    Index(Vec<Token>),
    Call(Vec<Token>),
}

/// A lexical error: the character that was found and what was expected
/// in its place.
#[derive(Debug, PartialEq)]
pub enum TokeniseError {
    Expectation { found: String, expected: String },
}

/// Mathematical model of a lexical error.
pub ghost struct ExpectationModel {
    pub found: Seq<char>,
    pub expected: Seq<char>,
}

/// The model of a lexical error.
pub open spec fn terr_model(e: TokeniseError) -> ExpectationModel {
    match e {
        TokeniseError::Expectation { found, expected } => ExpectationModel {
            found: found@,
            expected: expected@,
        },
    }
}

/// The lexical error for source nested deeper than the supported
/// depth, raised instead of exhausting the call stack.
pub open spec fn nesting_error() -> ExpectationModel {
    ExpectationModel {
        found: "nesting deeper than the supported depth"@,
        expected: "shallower nesting"@,
    }
}

/// Mathematical model of a token.
pub ghost enum TokenModel {
    Number(i64),
    Operator(Operator),
    OpenBracket,
    CloseBracket,
    Access(Seq<AccessModel>),
    Comma,
    Semicolon,
    Block(BlockModel),
}

/// Mathematical model of an access step.
pub ghost enum AccessModel {
    Name(Seq<char>),
    Index(Seq<TokenModel>),
    Call(Seq<TokenModel>),
}

/// The models of the first `n` access steps of a chain.
pub open spec fn accs_model(v: Vec<Access>, n: int) -> Seq<AccessModel>
    decreases v, n,
{
    if n <= 0 || n > v@.len() {
        Seq::empty()
    } else {
        accs_model(v, n - 1).push(acc_model(v@[n - 1]))
    }
}

/// The model of an access step.
pub open spec fn acc_model(a: Access) -> AccessModel
    decreases a,
{
    match a {
        Access::Name(s) => AccessModel::Name(s@),
        Access::Index(ts) => AccessModel::Index(toks_model(ts, ts@.len() as int)),
        Access::Call(ts) => AccessModel::Call(toks_model(ts, ts@.len() as int)),
    }
}

/// The models of the first `n` tokens of a sequence.
pub open spec fn toks_model(v: Vec<Token>, n: int) -> Seq<TokenModel>
    decreases v, n,
{
    if n <= 0 || n > v@.len() {
        Seq::empty()
    } else {
        toks_model(v, n - 1).push(tmodel(v@[n - 1]))
    }
}

/// The model of a token.
pub open spec fn tmodel(t: Token) -> TokenModel
    decreases t,
{
    match t {
        Token::Number(n) => TokenModel::Number(n),
        Token::Operator(op) => TokenModel::Operator(op),
        Token::OpenBracket => TokenModel::OpenBracket,
        Token::CloseBracket => TokenModel::CloseBracket,
        Token::Access(v) => TokenModel::Access(accs_model(v, v@.len() as int)),
        Token::Comma => TokenModel::Comma,
        Token::Semicolon => TokenModel::Semicolon,
        Token::Block(b) => TokenModel::Block(blk_model(b)),
    }
}

/// Unfolds the token-sequence model to a pointwise description.
pub proof fn lemma_toks_model(v: Vec<Token>, n: int)
    requires
        0 <= n <= v@.len(),
    ensures
        toks_model(v, n).len() == n,
        forall|i: int| 0 <= i < n ==> toks_model(v, n)[i] == tmodel(v@[i]),
    decreases n,
{
    if n > 0 {
        lemma_toks_model(v, n - 1);
    }
}

/// Unfolds the access-chain model to a pointwise description.
pub proof fn lemma_accs_model(v: Vec<Access>, n: int)
    requires
        0 <= n <= v@.len(),
    ensures
        accs_model(v, n).len() == n,
        forall|i: int| 0 <= i < n ==> accs_model(v, n)[i] == acc_model(v@[i]),
    decreases n,
{
    if n > 0 {
        lemma_accs_model(v, n - 1);
    }
}

} // verus!
