//! The parser: expression trees and the precedence-splitting treeifier
//! that builds them from token sequences.
use vstd::prelude::*;

use crate::token::accs_model;
use crate::token::lemma_accs_model;
use crate::token::lemma_toks_model;
use crate::token::nesting_error;
use crate::token::precidence_spec;
use crate::token::tmodel;
use crate::token::toks_model;
use crate::token::Access;
use crate::token::AccessModel;
use crate::token::Operator;
use crate::token::Token;
use crate::token::TokenModel;
use crate::token::TokeniseError;
use crate::value::vmodel;
use crate::value::Value;
use crate::value::ValueModel;
use crate::cemodel;
use crate::CompileErrModel;
use crate::CompileError;

verus! {

use vstd::pervasive::arbitrary;

broadcast use
    vstd::std_specs::vec::axiom_vec_index_decreases,
    vstd::seq::axiom_seq_index_decreases;

/// An expression: a literal value or a derived node wrapping one
/// instruction.
#[derive(Debug, PartialEq)]
pub enum Expr {
    Literal(Value),
    Derived(Box<Instruction>),
}

/// One instruction of a derived expression node.
#[derive(Debug, PartialEq)]
pub enum Instruction {
    Add(Expr, Expr),
    Subtract(Expr, Expr),
    Multiply(Expr, Expr),
    Divide(Expr, Expr),
    Access(Vec<AccessExpr>),
    Conditional(Expr, Expr),
    Colon(Expr, Expr),
    NullishCoalescing(Expr, Expr),
    Not(Expr),
    Equality(Expr, Expr),
    Assignment(Expr, Expr),
    Return(Expr),
}

/// One step of a parsed access chain.
#[derive(Debug, PartialEq)]
pub enum AccessExpr {
    Name(String),
    Index(Expr),
    Call(Vec<Expr>),
}

/// Mathematical model of an expression.
pub ghost enum ExprModel {
    Literal(ValueModel),
    Add(Box<ExprModel>, Box<ExprModel>),
    Subtract(Box<ExprModel>, Box<ExprModel>),
    Multiply(Box<ExprModel>, Box<ExprModel>),
    Divide(Box<ExprModel>, Box<ExprModel>),
    Access(Seq<AccessExprModel>),
    Conditional(Box<ExprModel>, Box<ExprModel>),
    Colon(Box<ExprModel>, Box<ExprModel>),
    NullishCoalescing(Box<ExprModel>, Box<ExprModel>),
    Not(Box<ExprModel>),
    Equality(Box<ExprModel>, Box<ExprModel>),
    Assignment(Box<ExprModel>, Box<ExprModel>),
    Return(Box<ExprModel>),
}

/// Mathematical model of a parsed access step.
pub ghost enum AccessExprModel {
    Name(Seq<char>),
    Index(Box<ExprModel>),
    Call(Seq<ExprModel>),
}

/// The model of an expression.
pub open spec fn emodel(e: Expr) -> ExprModel
    decreases e,
{
    match e {
        Expr::Literal(v) => ExprModel::Literal(vmodel(v)),
        Expr::Derived(bx) => imodel(*bx),
    }
}

/// The model of an instruction, as an expression model.
pub open spec fn imodel(i: Instruction) -> ExprModel
    decreases i,
{
    match i {
        Instruction::Add(a, b) => ExprModel::Add(Box::new(emodel(a)), Box::new(emodel(b))),
        Instruction::Subtract(a, b) => ExprModel::Subtract(
            Box::new(emodel(a)),
            Box::new(emodel(b)),
        ),
        Instruction::Multiply(a, b) => ExprModel::Multiply(
            Box::new(emodel(a)),
            Box::new(emodel(b)),
        ),
        Instruction::Divide(a, b) => ExprModel::Divide(Box::new(emodel(a)), Box::new(emodel(b))),
        Instruction::Access(v) => ExprModel::Access(accexprs_model(v, v@.len() as int)),
        Instruction::Conditional(a, b) => ExprModel::Conditional(
            Box::new(emodel(a)),
            Box::new(emodel(b)),
        ),
        Instruction::Colon(a, b) => ExprModel::Colon(Box::new(emodel(a)), Box::new(emodel(b))),
        Instruction::NullishCoalescing(a, b) => ExprModel::NullishCoalescing(
            Box::new(emodel(a)),
            Box::new(emodel(b)),
        ),
        Instruction::Not(a) => ExprModel::Not(Box::new(emodel(a))),
        Instruction::Equality(a, b) => ExprModel::Equality(
            Box::new(emodel(a)),
            Box::new(emodel(b)),
        ),
        Instruction::Assignment(a, b) => ExprModel::Assignment(
            Box::new(emodel(a)),
            Box::new(emodel(b)),
        ),
        Instruction::Return(a) => ExprModel::Return(Box::new(emodel(a))),
    }
}

/// The models of the first `n` steps of a parsed access chain.
pub open spec fn accexprs_model(v: Vec<AccessExpr>, n: int) -> Seq<AccessExprModel>
    decreases v, n,
{
    if n <= 0 || n > v@.len() {
        Seq::empty()
    } else {
        accexprs_model(v, n - 1).push(accexpr_model(v@[n - 1]))
    }
}

/// The model of a parsed access step.
pub open spec fn accexpr_model(a: AccessExpr) -> AccessExprModel
    decreases a,
{
    match a {
        AccessExpr::Name(s) => AccessExprModel::Name(s@),
        AccessExpr::Index(e) => AccessExprModel::Index(Box::new(emodel(e))),
        AccessExpr::Call(es) => AccessExprModel::Call(exprs_model(es, es@.len() as int)),
    }
}

/// The models of the first `n` expressions of a sequence.
pub open spec fn exprs_model(v: Vec<Expr>, n: int) -> Seq<ExprModel>
    decreases v, n,
{
    if n <= 0 || n > v@.len() {
        Seq::empty()
    } else {
        exprs_model(v, n - 1).push(emodel(v@[n - 1]))
    }
}

/// Unfolds the expression-sequence model to a pointwise description.
pub proof fn lemma_exprs_model(v: Vec<Expr>, n: int)
    requires
        0 <= n <= v@.len(),
    ensures
        exprs_model(v, n).len() == n,
        forall|i: int| 0 <= i < n ==> exprs_model(v, n)[i] == emodel(v@[i]),
    decreases n,
{
    if n > 0 {
        lemma_exprs_model(v, n - 1);
    }
}


/// Well-formedness of an expression: every literal value held anywhere
/// inside it is well formed.
pub open spec fn ewf(e: Expr) -> bool
    decreases e,
{
    match e {
        Expr::Literal(v) => crate::value::vwf(v),
        Expr::Derived(bx) => iwf(*bx),
    }
}

/// Well-formedness of an instruction's operands.
pub open spec fn iwf(i: Instruction) -> bool
    decreases i,
{
    match i {
        Instruction::Add(a, b) => ewf(a) && ewf(b),
        Instruction::Subtract(a, b) => ewf(a) && ewf(b),
        Instruction::Multiply(a, b) => ewf(a) && ewf(b),
        Instruction::Divide(a, b) => ewf(a) && ewf(b),
        Instruction::Access(v) => forall|j: int| 0 <= j < v@.len() ==> aewf(#[trigger] v@[j]),
        Instruction::Conditional(a, b) => ewf(a) && ewf(b),
        Instruction::Colon(a, b) => ewf(a) && ewf(b),
        Instruction::NullishCoalescing(a, b) => ewf(a) && ewf(b),
        Instruction::Not(a) => ewf(a),
        Instruction::Equality(a, b) => ewf(a) && ewf(b),
        Instruction::Assignment(a, b) => ewf(a) && ewf(b),
        Instruction::Return(a) => ewf(a),
    }
}

/// Well-formedness of a parsed access step's operands.
pub open spec fn aewf(a: AccessExpr) -> bool
    decreases a,
{
    match a {
        AccessExpr::Name(_) => true,
        AccessExpr::Index(e) => ewf(e),
        AccessExpr::Call(es) => forall|j: int| 0 <= j < es@.len() ==> ewf(#[trigger] es@[j]),
    }
}

/// The token sequence scan that decides where to split: among operator
/// tokens at bracket depth zero, it keeps the first one whose precedence
/// is strictly lower than the best seen so far, so the leftmost operator
/// of the lowest precedence wins.
pub open spec fn scan_op(
    s: Seq<TokenModel>,
    i: int,
    depth: int,
    best: Option<(int, Operator)>,
) -> Option<(int, Operator)>
    decreases s.len() - i,
{
    if i < 0 || i >= s.len() {
        best
    } else {
        let next = match s[i] {
            TokenModel::Operator(op) => if depth == 0 {
                match best {
                    None => Some((i, op)),
                    Some((j, bop)) => if precidence_spec(bop) > precidence_spec(op) {
                        Some((i, op))
                    } else {
                        best
                    },
                }
            } else {
                best
            },
            _ => best,
        };
        let d2 = match s[i] {
            TokenModel::OpenBracket => depth + 1,
            TokenModel::CloseBracket => depth - 1,
            _ => depth,
        };
        scan_op(s, i + 1, d2, next)
    }
}

/// The derived node built for a binary operator.
pub open spec fn binary_model(op: Operator, l: ExprModel, r: ExprModel) -> ExprModel {
    match op {
        Operator::Add => ExprModel::Add(Box::new(l), Box::new(r)),
        Operator::Subtract => ExprModel::Subtract(Box::new(l), Box::new(r)),
        Operator::Multiply => ExprModel::Multiply(Box::new(l), Box::new(r)),
        Operator::Divide => ExprModel::Divide(Box::new(l), Box::new(r)),
        Operator::Conditional => ExprModel::Conditional(Box::new(l), Box::new(r)),
        Operator::Colon => ExprModel::Colon(Box::new(l), Box::new(r)),
        Operator::NullishCoalescing => ExprModel::NullishCoalescing(Box::new(l), Box::new(r)),
        Operator::Equality => ExprModel::Equality(Box::new(l), Box::new(r)),
        Operator::Assignment => ExprModel::Assignment(Box::new(l), Box::new(r)),
        Operator::Not => ExprModel::Not(Box::new(r)),
        Operator::Return => ExprModel::Return(Box::new(r)),
    }
}

/// How deeply expressions may nest: the parser spends one level of
/// this budget on every operator split and every access step, and
/// rejects deeper input with the nesting error instead of exhausting
/// the call stack. The evaluator's recursion follows the compiled
/// expression's depth, so it is bounded by the same limit.
pub const EXPRESSION_DEPTH_LIMIT: usize = 256;

/// The nesting depth of grouping parentheses after the first `k` tokens.
pub open spec fn paren_depth(s: Seq<TokenModel>, k: int) -> int
    decreases k,
{
    if k <= 0 || k > s.len() {
        0
    } else {
        paren_depth(s, k - 1) + (if s[k - 1] is OpenBracket {
            1int
        } else if s[k - 1] is CloseBracket {
            -1int
        } else {
            0int
        })
    }
}

/// Whether the sequence is wrapped in one fully enclosing pair of
/// parentheses: it starts with an opening parenthesis whose matching
/// closing one is the final token, so the parenthesis depth stays
/// positive everywhere in between. A first and last parenthesis that do
/// not match each other enclose nothing.
pub open spec fn encloses(s: Seq<TokenModel>) -> bool {
    &&& s.len() >= 2
    &&& s[0] is OpenBracket
    &&& s[s.len() - 1] is CloseBracket
    &&& forall|j: int| 1 <= j <= s.len() - 1 ==> paren_depth(s, j) >= 1
}

/// What the parser produces from a token sequence: with the depth
/// budget exhausted, the nesting error; otherwise strip one layer of
/// fully enclosing parentheses, split at the leftmost lowest-precedence
/// operator at bracket depth zero — requiring an empty left side for
/// the two prefix operators — and otherwise accept exactly one number
/// or one access chain.
pub open spec fn parse_spec(s: Seq<TokenModel>, depth: int) -> Result<ExprModel, CompileErrModel>
    decreases s, 0int, 1int,
{
    if depth <= 0 {
        Err(CompileErrModel::TokeniseError(nesting_error()))
    } else {
        parse_split(s, depth)
    }
}

/// The parse of a token sequence once the depth budget is paid.
pub open spec fn parse_split(s: Seq<TokenModel>, depth: int) -> Result<ExprModel, CompileErrModel>
    decreases s, 0int, 0int,
{
    let t = if encloses(s) {
        s.subrange(1, s.len() - 1)
    } else {
        s
    };
    match scan_op(t, 0, 0, None) {
        Some((i, op)) => {
            if !(0 <= i < t.len()) {
                arbitrary()
            } else {
                let left = t.subrange(0, i);
                let right = t.subrange(i + 1, t.len() as int);
                if op is Not || op is Return {
                    if left.len() > 0 {
                        Err(CompileErrModel::TokensBeforePrefixOperator)
                    } else {
                        match parse_spec(right, depth - 1) {
                            Ok(r) => Ok(binary_model(op, r, r)),
                            Err(e) => Err(e),
                        }
                    }
                } else {
                    match parse_spec(left, depth - 1) {
                        Err(e) => Err(e),
                        Ok(l) => match parse_spec(right, depth - 1) {
                            Err(e) => Err(e),
                            Ok(r) => Ok(binary_model(op, l, r)),
                        },
                    }
                }
            }
        },
        None => {
            if t.len() == 1 && t[0] is Number {
                Ok(ExprModel::Literal(ValueModel::Number(t[0]->Number_0)))
            } else if t.len() == 1 && t[0] is Access {
                match parse_access_steps(t[0]->Access_0, 0, depth - 1) {
                    Ok(steps) => Ok(ExprModel::Access(steps)),
                    Err(e) => Err(e),
                }
            } else {
                Err(CompileErrModel::IncompleteExpression)
            }
        },
    }
}

/// The parsed access steps from position `k` of a lexed chain onward,
/// each step spending one level of the depth budget.
pub open spec fn parse_access_steps(accs: Seq<AccessModel>, k: int, depth: int) -> Result<
    Seq<AccessExprModel>,
    CompileErrModel,
>
    decreases accs, 1int, accs.len() - k,
{
    if !(0 <= k < accs.len()) {
        Ok(Seq::empty())
    } else if depth <= 0 {
        Err(CompileErrModel::TokeniseError(nesting_error()))
    } else {
        let head = match accs[k] {
            AccessModel::Name(s) => Ok(AccessExprModel::Name(s)),
            AccessModel::Index(ts) => match parse_spec(ts, depth - 1) {
                Ok(e) => Ok(AccessExprModel::Index(Box::new(e))),
                Err(e) => Err(e),
            },
            AccessModel::Call(ts) => match parse_args(ts, 0, 0, depth - 1) {
                Ok(args) => Ok(AccessExprModel::Call(args)),
                Err(e) => Err(e),
            },
        };
        match head {
            Err(e) => Err(e),
            Ok(h) => match parse_access_steps(accs, k + 1, depth - 1) {
                Ok(rest) => Ok(seq![h] + rest),
                Err(e) => Err(e),
            },
        }
    }
}

/// The parsed arguments of a call step: the token sequence is split at
/// every comma, an empty trailing piece after the final comma is
/// dropped, and a sequence without any comma is one argument — or none
/// at all when it is empty.
pub open spec fn parse_args(ts: Seq<TokenModel>, start: int, i: int, depth: int) -> Result<
    Seq<ExprModel>,
    CompileErrModel,
>
    decreases ts, 1int, ts.len() - i + 1,
{
    if !(0 <= start <= i <= ts.len()) {
        arbitrary()
    } else if i >= ts.len() {
        if start == 0 {
            if ts.len() == 0 {
                Ok(Seq::empty())
            } else {
                match parse_spec(ts, depth) {
                    Ok(e) => Ok(seq![e]),
                    Err(e) => Err(e),
                }
            }
        } else {
            if start == ts.len() {
                Ok(Seq::empty())
            } else {
                match parse_spec(ts.subrange(start, ts.len() as int), depth) {
                    Ok(e) => Ok(seq![e]),
                    Err(e) => Err(e),
                }
            }
        }
    } else if ts[i] is Comma {
        match parse_spec(ts.subrange(start, i), depth) {
            Err(e) => Err(e),
            Ok(e) => match parse_args(ts, i + 1, i + 1, depth) {
                Ok(rest) => Ok(seq![e] + rest),
                Err(err) => Err(err),
            },
        }
    } else {
        parse_args(ts, start, i + 1, depth)
    }
}

/// Unfolds the access-step-sequence model to a pointwise description.
pub proof fn lemma_accexprs_model(v: Vec<AccessExpr>, n: int)
    requires
        0 <= n <= v@.len(),
    ensures
        accexprs_model(v, n).len() == n,
        forall|i: int| 0 <= i < n ==> accexprs_model(v, n)[i] == accexpr_model(v@[i]),
    decreases n,
{
    if n > 0 {
        lemma_accexprs_model(v, n - 1);
    }
}

/// The models of the tokens `a..b` of a sequence.
pub open spec fn tmrange(v: Vec<Token>, a: int, b: int) -> Seq<TokenModel> {
    toks_model(v, v@.len() as int).subrange(a, b)
}

/// Finds the token at which the parser splits: the leftmost operator of
/// lowest precedence at bracket depth zero within `from..to`.
fn scan_operator(tokens: &Vec<Token>, from: usize, to: usize) -> (r: Option<(usize, Operator)>)
    requires
        from <= to <= tokens@.len(),
    ensures
        ({
            let s = tmrange(*tokens, from as int, to as int);
            match r {
                Some((i, op)) => from <= i < to && scan_op(s, 0, 0, None) == Some(
                    ((i - from) as int, op),
                ),
                None => scan_op(s, 0, 0, None) is None,
            }
        }),
{
    let ghost s = tmrange(*tokens, from as int, to as int);
    proof {
        lemma_toks_model(*tokens, tokens@.len() as int);
    }
    let mut i: usize = from;
    let mut depth: i128 = 0;
    let mut best: Option<(usize, Operator)> = None;
    while i < to
        invariant
            from <= i <= to <= tokens@.len(),
            -(i as i128) <= depth <= i as i128,
            s == tmrange(*tokens, from as int, to as int),
            scan_op(s, 0, 0, None) == scan_op(
                s,
                i - from,
                depth as int,
                match best {
                    None => None,
                    Some((j, op)) => Some(((j - from) as int, op)),
                },
            ),
            match best {
                None => true,
                Some((j, op)) => from <= j < i,
            },
        decreases to - i,
    {
        proof {
            lemma_toks_model(*tokens, tokens@.len() as int);
            assert(s[i - from] == tmodel(tokens@[i as int]));
        }
        match &tokens[i] {
            Token::OpenBracket => {
                depth = depth + 1;
            },
            Token::CloseBracket => {
                depth = depth - 1;
            },
            Token::Operator(op) => {
                if depth == 0 {
                    match best {
                        None => {
                            best = Some((i, *op));
                        },
                        Some((_, bop)) => {
                            if bop.precidence() > op.precidence() {
                                best = Some((i, *op));
                            }
                        },
                    }
                }
            },
            _ => {},
        }
        i = i + 1;
    }
    best
}

/// The derived instruction for an operator applied to two parsed sides;
/// the two prefix operators use only the right side.
fn build_binary(op: Operator, l: Expr, r: Expr) -> (res: Instruction)
    ensures
        imodel(res) == binary_model(op, emodel(l), emodel(r)),
        ewf(l) && ewf(r) ==> iwf(res),
{
    match op {
        Operator::Add => Instruction::Add(l, r),
        Operator::Subtract => Instruction::Subtract(l, r),
        Operator::Multiply => Instruction::Multiply(l, r),
        Operator::Divide => Instruction::Divide(l, r),
        Operator::Conditional => Instruction::Conditional(l, r),
        Operator::Colon => Instruction::Colon(l, r),
        Operator::NullishCoalescing => Instruction::NullishCoalescing(l, r),
        Operator::Equality => Instruction::Equality(l, r),
        Operator::Assignment => Instruction::Assignment(l, r),
        Operator::Not => Instruction::Not(r),
        Operator::Return => Instruction::Return(r),
    }
}

/// Parses the tokens `from..to` into one expression within the given
/// depth budget: strips one layer of fully enclosing parentheses,
/// splits at the leftmost lowest-precedence operator at bracket depth
/// zero, and otherwise accepts exactly one number or one access chain.
#[verifier::rlimit(60)]
pub fn treeify(tokens: &Vec<Token>, from: usize, to: usize, depth: usize) -> (r: Result<
    Expr,
    CompileError,
>)
    requires
        from <= to <= tokens@.len(),
    ensures
        ({
            let sp = parse_spec(tmrange(*tokens, from as int, to as int), depth as int);
            match (r, sp) {
                (Ok(e), Ok(m)) => emodel(e) == m && ewf(e),
                (Err(ce), Err(me)) => cemodel(ce) == me,
                _ => false,
            }
        }),
    decreases tokens, 0int, to - from,
{
    if depth == 0 {
        return Err(
            CompileError::TokeniseError(
                TokeniseError::Expectation {
                    found: "nesting deeper than the supported depth".to_owned(),
                    expected: "shallower nesting".to_owned(),
                },
            ),
        );
    }
    let ghost s0 = tmrange(*tokens, from as int, to as int);
    proof {
        lemma_toks_model(*tokens, tokens@.len() as int);
    }
    let mut f = from;
    let mut t = to;
    if to - from >= 2 {
        let first_open = match &tokens[from] {
            Token::OpenBracket => true,
            _ => false,
        };
        let last_close = match &tokens[to - 1] {
            Token::CloseBracket => true,
            _ => false,
        };
        if first_open && last_close {
            let mut depth: i128 = 0;
            let mut enclosing = true;
            let mut i = from;
            while i < to - 1
                invariant
                    from <= i <= to - 1,
                    from + 2 <= to <= tokens@.len(),
                    s0 == tmrange(*tokens, from as int, to as int),
                    s0.len() == to - from,
                    forall|j: int| 0 <= j < s0.len() ==> s0[j] == tmodel(tokens@[from + j]),
                    -(i as i128) - 1 <= depth <= i as i128 + 1,
                    depth == paren_depth(s0, i - from),
                    enclosing == (forall|j: int|
                        1 <= j <= i - from ==> paren_depth(s0, j) >= 1),
                decreases to - 1 - i,
            {
                match &tokens[i] {
                    Token::OpenBracket => {
                        depth = depth + 1;
                    },
                    Token::CloseBracket => {
                        depth = depth - 1;
                    },
                    _ => {},
                }
                i = i + 1;
                if depth < 1 {
                    enclosing = false;
                }
                proof {
                    let k = i - from;
                    assert(depth == paren_depth(s0, k));
                    if enclosing {
                        assert forall|j: int| 1 <= j <= k implies paren_depth(s0, j) >= 1 by {
                            if j == k {
                                assert(paren_depth(s0, j) == depth);
                            }
                        }
                    } else {
                        if depth >= 1 {
                            let jw = choose|j: int| 1 <= j <= k - 1 && paren_depth(s0, j) < 1;
                            assert(1 <= jw <= k && paren_depth(s0, jw) < 1);
                        } else {
                            assert(paren_depth(s0, k) < 1);
                        }
                    }
                }
            }
            if enclosing {
                f = from + 1;
                t = to - 1;
            }
        }
    }
    let ghost st = if encloses(s0) {
        s0.subrange(1, s0.len() - 1)
    } else {
        s0
    };
    proof {
        assert(st =~= tmrange(*tokens, f as int, t as int));
    }
    match scan_operator(tokens, f, t) {
        Some((i, op)) => {
            proof {
                assert(st.subrange(0, i - f) =~= tmrange(*tokens, f as int, i as int));
                assert(st.subrange(i - f + 1, st.len() as int) =~= tmrange(
                    *tokens,
                    i as int + 1,
                    t as int,
                ));
            }
            match op {
                Operator::Not | Operator::Return => {
                    if i > f {
                        return Err(CompileError::TokensBeforePrefixOperator);
                    }
                    match treeify(tokens, i + 1, t, depth - 1) {
                        Err(e) => Err(e),
                        Ok(sub) => {
                            if matches!(op, Operator::Not) {
                                Ok(Expr::Derived(Box::new(Instruction::Not(sub))))
                            } else {
                                Ok(Expr::Derived(Box::new(Instruction::Return(sub))))
                            }
                        },
                    }
                },
                _ => {
                    match treeify(tokens, f, i, depth - 1) {
                        Err(e) => Err(e),
                        Ok(l) => match treeify(tokens, i + 1, t, depth - 1) {
                            Err(e) => Err(e),
                            Ok(rr) => Ok(Expr::Derived(Box::new(build_binary(op, l, rr)))),
                        },
                    }
                },
            }
        },
        None => {
            if t - f == 1 {
                match &tokens[f] {
                    Token::Number(n) => Ok(Expr::Literal(Value::Number(*n))),
                    Token::Access(accs) => {
                        match treeify_access(accs, 0, depth - 1) {
                            Err(e) => Err(e),
                            Ok(steps) => {
                                proof {
                                    lemma_accexprs_model(steps, steps@.len() as int);
                                }
                                Ok(Expr::Derived(Box::new(Instruction::Access(steps))))
                            },
                        }
                    },
                    _ => Err(CompileError::IncompleteExpression),
                }
            } else {
                Err(CompileError::IncompleteExpression)
            }
        },
    }
}

/// Parses the access steps of a lexed chain from position `k` onward.
fn treeify_access(accs: &Vec<Access>, k: usize, depth: usize) -> (r: Result<
    Vec<AccessExpr>,
    CompileError,
>)
    requires
        k <= accs@.len(),
    ensures
        ({
            let sp = parse_access_steps(accs_model(*accs, accs@.len() as int), k as int, depth as int);
            match (r, sp) {
                (Ok(v), Ok(m)) => accexprs_model(v, v@.len() as int) == m && (forall|j: int|
                    0 <= j < v@.len() ==> aewf(#[trigger] v@[j])),
                (Err(ce), Err(me)) => cemodel(ce) == me,
                _ => false,
            }
        }),
    decreases accs, 1int, accs@.len() - k,
{
    let ghost am = accs_model(*accs, accs@.len() as int);
    proof {
        lemma_accs_model(*accs, accs@.len() as int);
    }
    if k >= accs.len() {
        let out: Vec<AccessExpr> = Vec::new();
        return Ok(out);
    }
    if depth == 0 {
        return Err(
            CompileError::TokeniseError(
                TokeniseError::Expectation {
                    found: "nesting deeper than the supported depth".to_owned(),
                    expected: "shallower nesting".to_owned(),
                },
            ),
        );
    }
    let head = match &accs[k] {
        Access::Name(s) => AccessExpr::Name(s.clone()),
        Access::Index(ts) => {
            proof {
                lemma_toks_model(*ts, ts@.len() as int);
                assert(tmrange(*ts, 0, ts@.len() as int) =~= toks_model(*ts, ts@.len() as int));
            }
            match treeify(ts, 0, ts.len(), depth - 1) {
                Err(e) => {
                    return Err(e);
                },
                Ok(e) => AccessExpr::Index(e),
            }
        },
        Access::Call(ts) => {
            match treeify_args(ts, depth - 1) {
                Err(e) => {
                    return Err(e);
                },
                Ok(args) => {
                    proof {
                        lemma_exprs_model(args, args@.len() as int);
                    }
                    AccessExpr::Call(args)
                },
            }
        },
    };
    match treeify_access(accs, k + 1, depth - 1) {
        Err(e) => Err(e),
        Ok(mut rest) => {
            let ghost rest_snap = rest;
            rest.insert(0, head);
            proof {
                lemma_accexprs_model(rest, rest@.len() as int);
                lemma_accexprs_model(rest_snap, rest_snap@.len() as int);
                assert(accexprs_model(rest, rest@.len() as int) =~= seq![accexpr_model(head)]
                    + accexprs_model(rest_snap, rest_snap@.len() as int));
            }
            Ok(rest)
        },
    }
}

/// Parses the comma-separated arguments of a call step.
fn treeify_args(ts: &Vec<Token>, depth: usize) -> (r: Result<Vec<Expr>, CompileError>)
    ensures
        ({
            let sp = parse_args(toks_model(*ts, ts@.len() as int), 0, 0, depth as int);
            match (r, sp) {
                (Ok(v), Ok(m)) => exprs_model(v, v@.len() as int) == m && (forall|j: int|
                    0 <= j < v@.len() ==> ewf(#[trigger] v@[j])),
                (Err(ce), Err(me)) => cemodel(ce) == me,
                _ => false,
            }
        }),
    decreases ts, 1int, 0int,
{
    let ghost tsm = toks_model(*ts, ts@.len() as int);
    proof {
        lemma_toks_model(*ts, ts@.len() as int);
    }
    let mut out: Vec<Expr> = Vec::new();
    let mut start: usize = 0;
    let mut i: usize = 0;
    while i < ts.len()
        invariant
            start <= i <= ts@.len(),
            tsm == toks_model(*ts, ts@.len() as int),
            tsm.len() == ts@.len(),
            forall|j: int| 0 <= j < tsm.len() ==> tsm[j] == tmodel(ts@[j]),
            forall|j: int| 0 <= j < out@.len() ==> ewf(#[trigger] out@[j]),
            ({
                let whole = parse_args(tsm, 0, 0, depth as int);
                match parse_args(tsm, start as int, i as int, depth as int) {
                    Ok(m) => whole == Ok::<Seq<ExprModel>, CompileErrModel>(
                        exprs_model(out, out@.len() as int) + m,
                    ),
                    Err(e) => whole == Err::<Seq<ExprModel>, CompileErrModel>(e),
                }
            }),
        decreases ts@.len() - i,
    {
        proof {
            lemma_toks_model(*ts, ts@.len() as int);
            lemma_exprs_model(out, out@.len() as int);
        }
        let comma = match &ts[i] {
            Token::Comma => true,
            _ => false,
        };
        if comma {
            proof {
                assert(tmrange(*ts, start as int, i as int) =~= tsm.subrange(
                    start as int,
                    i as int,
                ));
            }
            match treeify(ts, start, i, depth) {
                Err(e) => {
                    return Err(e);
                },
                Ok(e) => {
                    let ghost snap = out;
                    out.push(e);
                    proof {
                        lemma_exprs_model(out, out@.len() as int);
                        lemma_exprs_model(snap, snap@.len() as int);
                        assert(exprs_model(out, out@.len() as int) =~= exprs_model(
                            snap,
                            snap@.len() as int,
                        ).push(emodel(out@[out@.len() - 1])));
                        assert forall|ss: Seq<ExprModel>|
                            exprs_model(snap, snap@.len() as int) + (seq![
                                emodel(out@[out@.len() - 1]),
                            ] + ss) =~= exprs_model(out, out@.len() as int) + ss by {}
                    }
                    start = i + 1;
                },
            }
        }
        i = i + 1;
    }
    if start == 0 {
        if ts.len() == 0 {
            return Ok(out);
        }
        proof {
            assert(tmrange(*ts, 0, ts@.len() as int) =~= tsm);
            lemma_exprs_model(out, out@.len() as int);
        }
        match treeify(ts, 0, ts.len(), depth) {
            Err(e) => Err(e),
            Ok(e) => {
                let ghost snap = out;
                out.push(e);
                proof {
                    lemma_exprs_model(out, out@.len() as int);
                    lemma_exprs_model(snap, snap@.len() as int);
                    assert(exprs_model(out, out@.len() as int) =~= exprs_model(
                        snap,
                        snap@.len() as int,
                    ) + seq![emodel(out@[out@.len() - 1])]);
                }
                Ok(out)
            },
        }
    } else if start == ts.len() {
        proof {
            lemma_exprs_model(out, out@.len() as int);
            assert(exprs_model(out, out@.len() as int) =~= exprs_model(out, out@.len() as int)
                + Seq::<ExprModel>::empty());
        }
        Ok(out)
    } else {
        proof {
            assert(tmrange(*ts, start as int, ts@.len() as int) =~= tsm.subrange(
                start as int,
                tsm.len() as int,
            ));
            lemma_exprs_model(out, out@.len() as int);
        }
        match treeify(ts, start, ts.len(), depth) {
            Err(e) => Err(e),
            Ok(e) => {
                let ghost snap = out;
                out.push(e);
                proof {
                    lemma_exprs_model(out, out@.len() as int);
                    lemma_exprs_model(snap, snap@.len() as int);
                    assert(exprs_model(out, out@.len() as int) =~= exprs_model(
                        snap,
                        snap@.len() as int,
                    ) + seq![emodel(out@[out@.len() - 1])]);
                }
                Ok(out)
            },
        }
    }
}

} // verus!
