//! The statement splitter: groups a token sequence into a block of
//! statements, splitting on top-level statement separators.
use vstd::prelude::*;

use crate::cemodel;
use crate::parser::emodel;
use crate::parser::exprs_model;
use crate::parser::lemma_exprs_model;
use crate::parser::parse_spec;
use crate::parser::EXPRESSION_DEPTH_LIMIT;
use crate::parser::tmrange;
use crate::parser::treeify;
use crate::parser::Expr;
use crate::parser::ExprModel;
use crate::token::lemma_toks_model;
use crate::token::toks_model;
use crate::token::Token;
use crate::token::TokenModel;
use crate::CompileErrModel;
use crate::CompileError;

verus! {

use vstd::pervasive::arbitrary;

broadcast use
    vstd::std_specs::vec::axiom_vec_index_decreases,
    vstd::seq::axiom_seq_index_decreases;

/// A compiled block: one or more statements, plus a flag recording
/// whether the source held more than one statement. Only a block marked
/// multiple treats an early return as distinguishable from its last
/// value.
#[derive(Debug, PartialEq)]
pub struct Block {
    pub multiple: bool,
    pub statements: Vec<Expr>,
}

/// Mathematical model of a block.
pub ghost struct BlockModel {
    pub multiple: bool,
    pub statements: Seq<ExprModel>,
}

/// The model of a block.
pub open spec fn blk_model(b: Block) -> BlockModel
    decreases b,
{
    BlockModel {
        multiple: b.multiple,
        statements: exprs_model(b.statements, b.statements@.len() as int),
    }
}

/// What the statement splitter produces: scanning from token `i` with
/// the current statement starting at `start`, the sequence is split at
/// every statement separator, each piece is parsed, and a non-empty
/// trailing piece is parsed as a final statement. Without any separator
/// the whole sequence is one statement and the block is not marked
/// multiple.
pub open spec fn blockise_rec(
    s: Seq<TokenModel>,
    i: int,
    start: int,
    acc: Seq<ExprModel>,
    multiple: bool,
) -> Result<BlockModel, CompileErrModel>
    decreases s.len() - i,
{
    if !(0 <= start <= i <= s.len()) {
        arbitrary()
    } else if i >= s.len() {
        if !multiple {
            match parse_spec(s, EXPRESSION_DEPTH_LIMIT as int) {
                Ok(e) => Ok(BlockModel { multiple: false, statements: seq![e] }),
                Err(e) => Err(e),
            }
        } else if start < s.len() {
            match parse_spec(s.subrange(start, s.len() as int), EXPRESSION_DEPTH_LIMIT as int) {
                Ok(e) => Ok(BlockModel { multiple: true, statements: acc.push(e) }),
                Err(e) => Err(e),
            }
        } else {
            Ok(BlockModel { multiple: true, statements: acc })
        }
    } else if s[i] is Semicolon {
        match parse_spec(s.subrange(start, i), EXPRESSION_DEPTH_LIMIT as int) {
            Err(e) => Err(e),
            Ok(e) => blockise_rec(s, i + 1, i + 1, acc.push(e), true),
        }
    } else {
        blockise_rec(s, i + 1, start, acc, multiple)
    }
}

/// Well-formedness of a block: every statement is a well-formed
/// expression.
pub open spec fn blockwf(b: Block) -> bool {
    forall|j: int| 0 <= j < b.statements@.len() ==> crate::parser::ewf(#[trigger] b.statements@[j])
}

/// The block compiled from a token sequence.
pub open spec fn blockise_spec(s: Seq<TokenModel>) -> Result<BlockModel, CompileErrModel> {
    blockise_rec(s, 0, 0, Seq::empty(), false)
}

/// The statement splitter's scan, mirroring `blockise_rec`.
fn blockise_from(
    tokens: &Vec<Token>,
    i: usize,
    start: usize,
    acc: Vec<Expr>,
    multiple: bool,
) -> (r: Result<Block, CompileError>)
    requires
        start <= i <= tokens@.len(),
        forall|j: int| 0 <= j < acc@.len() ==> crate::parser::ewf(#[trigger] acc@[j]),
    ensures
        ({
            let sp = blockise_rec(
                toks_model(*tokens, tokens@.len() as int),
                i as int,
                start as int,
                exprs_model(acc, acc@.len() as int),
                multiple,
            );
            match (r, sp) {
                (Ok(b), Ok(m)) => blk_model(b) == m && blockwf(b),
                (Err(ce), Err(me)) => cemodel(ce) == me,
                _ => false,
            }
        }),
    decreases tokens@.len() - i,
{
    let ghost tsm = toks_model(*tokens, tokens@.len() as int);
    proof {
        lemma_toks_model(*tokens, tokens@.len() as int);
        lemma_exprs_model(acc, acc@.len() as int);
    }
    if i >= tokens.len() {
        if !multiple {
            proof {
                assert(tmrange(*tokens, 0, tokens@.len() as int) =~= tsm);
            }
            match treeify(tokens, 0, tokens.len(), EXPRESSION_DEPTH_LIMIT) {
                Err(e) => Err(e),
                Ok(e) => {
                    let mut statements: Vec<Expr> = Vec::new();
                    statements.push(e);
                    proof {
                        lemma_exprs_model(statements, 1);
                        assert(exprs_model(statements, 1) =~= seq![emodel(statements@[0])]);
                    }
                    Ok(Block { multiple: false, statements })
                },
            }
        } else if start < tokens.len() {
            proof {
                assert(tmrange(*tokens, start as int, tokens@.len() as int) =~= tsm.subrange(
                    start as int,
                    tsm.len() as int,
                ));
            }
            match treeify(tokens, start, tokens.len(), EXPRESSION_DEPTH_LIMIT) {
                Err(e) => Err(e),
                Ok(e) => {
                    let mut statements = acc;
                    let ghost snap = statements;
                    statements.push(e);
                    proof {
                        lemma_exprs_model(statements, statements@.len() as int);
                        lemma_exprs_model(snap, snap@.len() as int);
                        assert(exprs_model(statements, statements@.len() as int) =~= exprs_model(
                            snap,
                            snap@.len() as int,
                        ).push(emodel(statements@[statements@.len() - 1])));
                    }
                    Ok(Block { multiple: true, statements })
                },
            }
        } else {
            Ok(Block { multiple: true, statements: acc })
        }
    } else {
        let semicolon = match &tokens[i] {
            Token::Semicolon => true,
            _ => false,
        };
        if semicolon {
            proof {
                assert(tmrange(*tokens, start as int, i as int) =~= tsm.subrange(
                    start as int,
                    i as int,
                ));
            }
            match treeify(tokens, start, i, EXPRESSION_DEPTH_LIMIT) {
                Err(e) => Err(e),
                Ok(e) => {
                    let mut acc2 = acc;
                    let ghost snap = acc2;
                    acc2.push(e);
                    proof {
                        lemma_exprs_model(acc2, acc2@.len() as int);
                        lemma_exprs_model(snap, snap@.len() as int);
                        assert(exprs_model(acc2, acc2@.len() as int) =~= exprs_model(
                            snap,
                            snap@.len() as int,
                        ).push(emodel(acc2@[acc2@.len() - 1])));
                    }
                    blockise_from(tokens, i + 1, i + 1, acc2, true)
                },
            }
        } else {
            blockise_from(tokens, i + 1, start, acc, multiple)
        }
    }
}

/// Groups a token sequence into a block of statements, splitting on
/// every top-level statement separator.
pub fn blockise(tokens: Vec<Token>) -> (r: Result<Block, CompileError>)
    ensures
        ({
            let sp = blockise_spec(toks_model(tokens, tokens@.len() as int));
            match (r, sp) {
                (Ok(b), Ok(m)) => blk_model(b) == m && blockwf(b),
                (Err(ce), Err(me)) => cemodel(ce) == me,
                _ => false,
            }
        }),
{
    let acc: Vec<Expr> = Vec::new();
    blockise_from(&tokens, 0, 0, acc, false)
}

} // verus!
