//! A small embeddable expression language: a lexer, a precedence-based
//! parser and a tree-walking evaluator for dynamically typed expressions
//! with structs, host-owned external objects, aliases and assignment.
use vstd::prelude::*;

pub mod blockiser;
pub mod interpreter;
pub mod laws;
pub mod parser;
pub mod token;
pub mod tokeniser;
pub mod value;

pub use blockiser::blockise;
pub use blockiser::Block;
pub use interpreter::run_block;
pub use interpreter::run_block as run;
pub use interpreter::MolangError;
pub use parser::treeify;
pub use parser::AccessExpr;
pub use parser::Expr;
pub use parser::Instruction;
pub use token::Access;
pub use token::Operator;
pub use token::Token;
pub use token::TokeniseError;
pub use tokeniser::tokenise;
pub use value::Aliases;
pub use value::Bindings;
pub use value::External;
pub use value::FromMolangValue;
pub use value::NoExternals;
pub use value::ToMolangValue;
pub use value::Value;

verus! {

/// An error raised while compiling source text: a lexical error, or one
/// of the parser's two failure shapes.
#[derive(Debug, PartialEq)]
pub enum CompileError {
    TokensBeforePrefixOperator,
    IncompleteExpression,
    TokeniseError(token::TokeniseError),
}

/// Mathematical model of a compile error.
pub ghost enum CompileErrModel {
    TokensBeforePrefixOperator,
    IncompleteExpression,
    TokeniseError(token::ExpectationModel),
}

/// The model of a compile error.
pub open spec fn cemodel(e: CompileError) -> CompileErrModel {
    match e {
        CompileError::TokensBeforePrefixOperator => CompileErrModel::TokensBeforePrefixOperator,
        CompileError::IncompleteExpression => CompileErrModel::IncompleteExpression,
        CompileError::TokeniseError(t) => CompileErrModel::TokeniseError(token::terr_model(t)),
    }
}

/// What compiling source text produces: the lexer's token sequence,
/// split into statements and parsed into a block.
pub open spec fn compile_spec(s: Seq<char>) -> Result<blockiser::BlockModel, CompileErrModel> {
    match tokeniser::tokenise_spec(s) {
        Err(te) => Err(CompileErrModel::TokeniseError(te)),
        Ok(tokens) => blockiser::blockise_spec(tokens),
    }
}

/// Compiles source text into a block, or fails with the first lexical
/// or parse error.
pub fn compile(expr: &str) -> (r: Result<Block, CompileError>)
    ensures
        match (r, compile_spec(expr@)) {
            (Ok(b), Ok(m)) => blockiser::blk_model(b) == m && blockiser::blockwf(b),
            (Err(e), Err(me)) => cemodel(e) == me,
            _ => false,
        },
{
    match tokeniser::tokenise(expr) {
        Err(te) => Err(CompileError::TokeniseError(te)),
        Ok(tokens) => blockiser::blockise(tokens),
    }
}

} // verus!
