//! The evaluator: typed runtime errors, the mathematical semantics of
//! the language's host-free fragment, and the tree walk over compiled
//! expressions.
//!
//! Wherever an evaluation reaches the host — an external object, a
//! host-supplied callable, or an equality the host decides — nothing is
//! claimed about its outcome; on every other path the evaluator is
//! proved to return exactly what the semantics say, leaving the
//! variables exactly as they say.
use vstd::prelude::*;

use crate::blockiser::blk_model;
use crate::blockiser::blockwf;
use crate::blockiser::Block;
use crate::parser::accexprs_model;
use crate::parser::aewf;
use crate::parser::emodel as expr_model;
use crate::parser::ewf;
use crate::parser::lemma_accexprs_model;
use crate::parser::exprs_model;
use crate::parser::lemma_exprs_model;
use crate::parser::AccessExpr;
use crate::parser::AccessExprModel;
use crate::parser::Expr;
use crate::parser::ExprModel;
use crate::parser::Instruction;
use crate::value::awf;
use crate::value::lemma_bindings_ops;
use crate::value::lemma_entries_model_congruence;
use crate::value::lemma_entries_model_update;
use crate::value::Aliases;
use crate::value::External;
use crate::token::Operator;
use crate::value::bwf;
use crate::value::kind_model;
use crate::value::val_eq;
use crate::value::vmodel;
use crate::value::vwf;
use crate::value::Bindings;
use crate::value::Value;
use crate::value::ValueModel;

verus! {

use vstd::pervasive::arbitrary;

broadcast use
    vstd::std_specs::vec::axiom_vec_index_decreases,
    vstd::seq::axiom_seq_index_decreases;

/// A typed evaluation error. Each variant carries a short description of
/// what was looked up or what kind of value stood in the way.
#[derive(Debug, PartialEq)]
pub enum MolangError {
    FunctionNotFound(String),
    FunctionError(String),
    VariableNotFound(String),
    SyntaxError(String),
    NotAssignable(String),
    TypeError(String, String),
    BadAccess(String, String),
}

/// Mathematical model of an evaluation error.
pub ghost enum ErrModel {
    FunctionNotFound(Seq<char>),
    FunctionError(Seq<char>),
    VariableNotFound(Seq<char>),
    SyntaxError(Seq<char>),
    NotAssignable(Seq<char>),
    TypeError(Seq<char>, Seq<char>),
    BadAccess(Seq<char>, Seq<char>),
}

/// The model of an evaluation error.
pub open spec fn emodel(e: MolangError) -> ErrModel {
    match e {
        MolangError::FunctionNotFound(s) => ErrModel::FunctionNotFound(s@),
        MolangError::FunctionError(s) => ErrModel::FunctionError(s@),
        MolangError::VariableNotFound(s) => ErrModel::VariableNotFound(s@),
        MolangError::SyntaxError(s) => ErrModel::SyntaxError(s@),
        MolangError::NotAssignable(s) => ErrModel::NotAssignable(s@),
        MolangError::TypeError(a, b) => ErrModel::TypeError(a@, b@),
        MolangError::BadAccess(a, b) => ErrModel::BadAccess(a@, b@),
    }
}

/// The outcome of evaluating one expression of the host-free fragment:
/// the result — a value together with the early-return flag, or an
/// error — and the variables as the evaluation left them.
pub ghost struct EvalOut {
    pub r: Result<(ValueModel, bool), ErrModel>,
    pub vars: Map<Seq<char>, ValueModel>,
}

/// The language's addition: two's-complement wrapping.
pub open spec fn add_model(a: i64, b: i64) -> i64 {
    vstd::wrapping::i64_specs::wrapping_add(a, b)
}

/// The language's subtraction: two's-complement wrapping.
pub open spec fn sub_model(a: i64, b: i64) -> i64 {
    vstd::wrapping::i64_specs::wrapping_sub(a, b)
}

/// The language's multiplication: two's-complement wrapping.
pub open spec fn mul_model(a: i64, b: i64) -> i64 {
    vstd::wrapping::i64_specs::wrapping_mul(a, b)
}

/// The language's division: truncating integer division, with a zero
/// divisor yielding zero rather than an error, and the one overflowing
/// quotient wrapping.
pub open spec fn div_model(a: i64, b: i64) -> i64 {
    if b == 0 {
        0
    } else {
        match a.checked_div(b) {
            Some(q) => q,
            None => i64::MIN,
        }
    }
}

/// The error raised when an operand that must be a number is not one.
pub open spec fn number_type_error(v: ValueModel) -> ErrModel {
    ErrModel::TypeError("Number"@, kind_model(v))
}

/// Walking an access chain for reading, from step `k` with the current
/// value `cur`: a name on the initial null resolves through the alias
/// table to a variable or, failing that, a constant; a name on a struct
/// yields the field or null; an index or a call on anything but what
/// accepts it is an access error. Any step that touches an external
/// object or calls a function reaches the host: `None`.
pub open spec fn walk_access(
    steps: Seq<AccessExprModel>,
    k: int,
    cur: ValueModel,
    consts: Map<Seq<char>, ValueModel>,
    vars: Map<Seq<char>, ValueModel>,
    aliases: Map<Seq<char>, Seq<char>>,
) -> Option<Result<ValueModel, ErrModel>>
    decreases steps.len() - k,
{
    if !(0 <= k <= steps.len()) {
        arbitrary()
    } else if k >= steps.len() {
        Some(Ok(cur))
    } else {
        match steps[k] {
            AccessExprModel::Name(n) => match cur {
                ValueModel::Null => {
                    let n2 = if aliases.contains_key(n) {
                        aliases[n]
                    } else {
                        n
                    };
                    if vars.contains_key(n2) {
                        walk_access(steps, k + 1, vars[n2], consts, vars, aliases)
                    } else if consts.contains_key(n2) {
                        walk_access(steps, k + 1, consts[n2], consts, vars, aliases)
                    } else {
                        Some(Err(ErrModel::VariableNotFound(n2)))
                    }
                },
                ValueModel::Struct(m) => {
                    let inner = if m.contains_key(n) {
                        m[n]
                    } else {
                        ValueModel::Null
                    };
                    walk_access(steps, k + 1, inner, consts, vars, aliases)
                },
                ValueModel::External(_) => None,
                _ => Some(Err(ErrModel::BadAccess("."@, kind_model(cur)))),
            },
            AccessExprModel::Index(_) => if cur is External {
                None
            } else {
                Some(Err(ErrModel::BadAccess("[]"@, kind_model(cur))))
            },
            AccessExprModel::Call(_) => if cur is Function || cur is External {
                None
            } else {
                Some(Err(ErrModel::BadAccess("()"@, kind_model(cur))))
            },
        }
    }
}

/// Resolving and storing into an assignment target from step `k`, with
/// the value `cur` standing at the location reached so far: a name on a
/// struct descends, creating a missing field as an empty struct even
/// when a later step fails; the final name stores the assigned value; a
/// call step is never assignable. A step on an external object delegates
/// to the host: `None`. The result pairs what the walk produced with the
/// value as the walk left it.
pub open spec fn assign_path(
    cur: ValueModel,
    steps: Seq<AccessExprModel>,
    k: int,
    rv: ValueModel,
) -> Option<(Result<(), ErrModel>, ValueModel)>
    decreases steps.len() - k,
{
    if !(0 <= k < steps.len()) {
        arbitrary()
    } else {
        match steps[k] {
            AccessExprModel::Call(_) => Some(
                (Err(ErrModel::NotAssignable("a call step"@)), cur),
            ),
            AccessExprModel::Index(_) => if cur is External {
                None
            } else {
                Some((Err(ErrModel::BadAccess("[]"@, kind_model(cur))), cur))
            },
            AccessExprModel::Name(n) => match cur {
                ValueModel::External(_) => None,
                ValueModel::Struct(m) => {
                    if k == steps.len() - 1 {
                        Some((Ok(()), ValueModel::Struct(m.insert(n, rv))))
                    } else {
                        let inner = if m.contains_key(n) {
                            m[n]
                        } else {
                            ValueModel::Struct(Map::empty())
                        };
                        match assign_path(inner, steps, k + 1, rv) {
                            None => None,
                            Some((res, inner2)) => Some(
                                (res, ValueModel::Struct(m.insert(n, inner2))),
                            ),
                        }
                    }
                },
                _ => Some((Err(ErrModel::BadAccess("."@, kind_model(cur))), cur)),
            },
        }
    }
}

/// Evaluating one expression of the host-free fragment against the
/// constants, variables and aliases: the big-step semantics the
/// evaluator is proved against. `None` wherever the host takes part.
pub open spec fn eval_expr(
    e: ExprModel,
    consts: Map<Seq<char>, ValueModel>,
    vars: Map<Seq<char>, ValueModel>,
    aliases: Map<Seq<char>, Seq<char>>,
) -> Option<EvalOut>
    decreases e, 2int,
{
    match e {
        ExprModel::Literal(val) => Some(EvalOut { r: Ok((val, false)), vars }),
        ExprModel::Add(l, r) => match arith_left(eval_expr(*l, consts, vars, aliases)) {
            ArithLeft::Done(res) => res,
            ArithLeft::NeedRight(ln, v2) => arith_right(
                Operator::Add,
                ln,
                eval_expr(*r, consts, v2, aliases),
            ),
        },
        ExprModel::Subtract(l, r) => match arith_left(eval_expr(*l, consts, vars, aliases)) {
            ArithLeft::Done(res) => res,
            ArithLeft::NeedRight(ln, v2) => arith_right(
                Operator::Subtract,
                ln,
                eval_expr(*r, consts, v2, aliases),
            ),
        },
        ExprModel::Multiply(l, r) => match arith_left(eval_expr(*l, consts, vars, aliases)) {
            ArithLeft::Done(res) => res,
            ArithLeft::NeedRight(ln, v2) => arith_right(
                Operator::Multiply,
                ln,
                eval_expr(*r, consts, v2, aliases),
            ),
        },
        ExprModel::Divide(l, r) => match arith_left(eval_expr(*l, consts, vars, aliases)) {
            ArithLeft::Done(res) => res,
            ArithLeft::NeedRight(ln, v2) => arith_right(
                Operator::Divide,
                ln,
                eval_expr(*r, consts, v2, aliases),
            ),
        },
        ExprModel::Access(steps) => match walk_access(steps, 0, ValueModel::Null, consts, vars, aliases) {
            None => None,
            Some(Ok(val)) => Some(EvalOut { r: Ok((val, false)), vars }),
            Some(Err(err)) => Some(EvalOut { r: Err(err), vars }),
        },
        ExprModel::Conditional(l, r) => match eval_expr(*l, consts, vars, aliases) {
            None => None,
            Some(o1) => match o1.r {
                Err(_) => Some(o1),
                Ok((lv, true)) => Some(o1),
                Ok((lv, false)) => match lv {
                    ValueModel::Number(n) => match *r {
                        ExprModel::Colon(t, el) => {
                            if n != 0 {
                                eval_expr(*t, consts, o1.vars, aliases)
                            } else {
                                eval_expr(*el, consts, o1.vars, aliases)
                            }
                        },
                        _ => Some(
                            EvalOut {
                                r: Err(ErrModel::SyntaxError("Expected colon to close ternary"@)),
                                vars: o1.vars,
                            },
                        ),
                    },
                    _ => Some(EvalOut { r: Err(number_type_error(lv)), vars: o1.vars }),
                },
            },
        },
        ExprModel::Colon(_, _) => Some(
            EvalOut { r: Err(ErrModel::SyntaxError("Unexpected colon"@)), vars },
        ),
        ExprModel::NullishCoalescing(l, r) => match eval_expr(*l, consts, vars, aliases) {
            None => None,
            Some(o1) => match o1.r {
                Err(_) => Some(o1),
                Ok((lv, true)) => Some(o1),
                Ok((lv, false)) => match lv {
                    ValueModel::Null => eval_expr(*r, consts, o1.vars, aliases),
                    _ => Some(EvalOut { r: Ok((lv, false)), vars: o1.vars }),
                },
            },
        },
        ExprModel::Not(x) => match eval_expr(*x, consts, vars, aliases) {
            None => None,
            Some(o1) => match o1.r {
                Err(_) => Some(o1),
                Ok((xv, true)) => Some(o1),
                Ok((xv, false)) => match xv {
                    ValueModel::Number(n) => Some(
                        EvalOut {
                            r: Ok(
                                (
                                    ValueModel::Number(
                                        if n == 0 {
                                            1
                                        } else {
                                            0
                                        },
                                    ),
                                    false,
                                ),
                            ),
                            vars: o1.vars,
                        },
                    ),
                    _ => Some(EvalOut { r: Err(number_type_error(xv)), vars: o1.vars }),
                },
            },
        },
        ExprModel::Equality(l, r) => match eval_expr(*l, consts, vars, aliases) {
            None => None,
            Some(o1) => match o1.r {
                Err(_) => Some(o1),
                Ok((lv, true)) => Some(o1),
                Ok((lv, false)) => match eval_expr(*r, consts, o1.vars, aliases) {
                    None => None,
                    Some(o2) => match o2.r {
                        Err(_) => Some(o2),
                        Ok((rv, true)) => Some(o2),
                        Ok((rv, false)) => match val_eq(lv, rv) {
                            None => None,
                            Some(b) => Some(
                                EvalOut {
                                    r: Ok(
                                        (
                                            ValueModel::Number(
                                                if b {
                                                    1
                                                } else {
                                                    0
                                                },
                                            ),
                                            false,
                                        ),
                                    ),
                                    vars: o2.vars,
                                },
                            ),
                        },
                    },
                },
            },
        },
        ExprModel::Return(x) => match eval_expr(*x, consts, vars, aliases) {
            None => None,
            Some(o1) => match o1.r {
                Err(_) => Some(o1),
                Ok((xv, _)) => Some(EvalOut { r: Ok((xv, true)), vars: o1.vars }),
            },
        },
        ExprModel::Assignment(l, r) => match *l {
            ExprModel::Access(steps) => match eval_expr(*r, consts, vars, aliases) {
                None => None,
                Some(o1) => match o1.r {
                    Err(_) => Some(o1),
                    Ok((rv, true)) => Some(o1),
                    Ok((rv, false)) => {
                        if steps.len() == 0 {
                            Some(EvalOut { r: Ok((rv, false)), vars: o1.vars })
                        } else {
                            match steps[0] {
                                AccessExprModel::Call(_) => Some(
                                    EvalOut {
                                        r: Err(ErrModel::NotAssignable("a call step"@)),
                                        vars: o1.vars,
                                    },
                                ),
                                AccessExprModel::Index(_) => Some(
                                    EvalOut {
                                        r: Err(
                                            ErrModel::BadAccess(
                                                "[]"@,
                                                kind_model(ValueModel::Null),
                                            ),
                                        ),
                                        vars: o1.vars,
                                    },
                                ),
                                AccessExprModel::Name(n0) => {
                                    let n2 = if aliases.contains_key(n0) {
                                        aliases[n0]
                                    } else {
                                        n0
                                    };
                                    if o1.vars.contains_key(n2) {
                                        if steps.len() == 1 {
                                            Some(
                                                EvalOut {
                                                    r: Ok((rv, false)),
                                                    vars: o1.vars.insert(n2, rv),
                                                },
                                            )
                                        } else {
                                            match assign_path(o1.vars[n2], steps, 1, rv) {
                                                None => None,
                                                Some((res, newv)) => {
                                                    let vars2 = o1.vars.insert(n2, newv);
                                                    match res {
                                                        Ok(_) => Some(
                                                            EvalOut { r: Ok((rv, false)), vars: vars2 },
                                                        ),
                                                        Err(err) => Some(
                                                            EvalOut { r: Err(err), vars: vars2 },
                                                        ),
                                                    }
                                                },
                                            }
                                        }
                                    } else if consts.contains_key(n2) {
                                        Some(
                                            EvalOut {
                                                r: Err(
                                                    ErrModel::NotAssignable("Constant "@ + n2),
                                                ),
                                                vars: o1.vars,
                                            },
                                        )
                                    } else {
                                        Some(
                                            EvalOut {
                                                r: Err(ErrModel::VariableNotFound(n2)),
                                                vars: o1.vars,
                                            },
                                        )
                                    }
                                },
                            }
                        }
                    },
                },
            },
            _ => Some(
                EvalOut {
                    r: Err(ErrModel::NotAssignable("not an access expression"@)),
                    vars,
                },
            ),
        },
    }
}

/// Evaluating the statements of a block marked multiple, from statement
/// `k`: the first early return ends the block with its value, an error
/// ends it with the error, and falling off the end yields zero.
pub open spec fn eval_stmts(
    stmts: Seq<ExprModel>,
    k: int,
    consts: Map<Seq<char>, ValueModel>,
    vars: Map<Seq<char>, ValueModel>,
    aliases: Map<Seq<char>, Seq<char>>,
) -> Option<(Result<ValueModel, ErrModel>, Map<Seq<char>, ValueModel>)>
    decreases stmts.len() - k,
{
    if !(0 <= k <= stmts.len()) {
        arbitrary()
    } else if k >= stmts.len() {
        Some((Ok(ValueModel::Number(0)), vars))
    } else {
        match eval_expr(stmts[k], consts, vars, aliases) {
            None => None,
            Some(o) => match o.r {
                Err(err) => Some((Err(err), o.vars)),
                Ok((val, true)) => Some((Ok(val), o.vars)),
                Ok((_, false)) => eval_stmts(stmts, k + 1, consts, o.vars, aliases),
            },
        }
    }
}

/// Evaluating a whole block: a block marked multiple runs its
/// statements in order; any other block yields its single statement's
/// value, early return or not.
pub open spec fn eval_block(
    b: crate::blockiser::BlockModel,
    consts: Map<Seq<char>, ValueModel>,
    vars: Map<Seq<char>, ValueModel>,
    aliases: Map<Seq<char>, Seq<char>>,
) -> Option<(Result<ValueModel, ErrModel>, Map<Seq<char>, ValueModel>)> {
    if b.multiple {
        eval_stmts(b.statements, 0, consts, vars, aliases)
    } else if b.statements.len() == 0 {
        arbitrary()
    } else {
        match eval_expr(b.statements[0], consts, vars, aliases) {
            None => None,
            Some(o) => match o.r {
                Err(err) => Some((Err(err), o.vars)),
                Ok((val, _)) => Some((Ok(val), o.vars)),
            },
        }
    }
}

/// What examining the left operand of an arithmetic instruction
/// decides: the whole evaluation is already settled — by the host, an
/// error, an early return or a non-number — or the right operand must
/// now be evaluated against the left's variables.
pub ghost enum ArithLeft {
    Done(Option<EvalOut>),
    NeedRight(i64, Map<Seq<char>, ValueModel>),
}

/// Examines the left operand's outcome of an arithmetic instruction.
pub open spec fn arith_left(o1opt: Option<EvalOut>) -> ArithLeft {
    match o1opt {
        None => ArithLeft::Done(None),
        Some(o1) => match o1.r {
            Err(_) => ArithLeft::Done(Some(o1)),
            Ok((lv, true)) => ArithLeft::Done(Some(o1)),
            Ok((lv, false)) => match lv {
                ValueModel::Number(ln) => ArithLeft::NeedRight(ln, o1.vars),
                _ => ArithLeft::Done(
                    Some(EvalOut { r: Err(number_type_error(lv)), vars: o1.vars }),
                ),
            },
        },
    }
}

/// Combines the left operand's number with the right operand's outcome
/// under the operator's two's-complement operation.
pub open spec fn arith_right(op: Operator, ln: i64, o2opt: Option<EvalOut>) -> Option<EvalOut> {
    match o2opt {
        None => None,
        Some(o2) => match o2.r {
            Err(_) => Some(o2),
            Ok((rv, true)) => Some(o2),
            Ok((rv, false)) => match rv {
                ValueModel::Number(rn) => Some(
                    EvalOut {
                        r: Ok(
                            (
                                ValueModel::Number(
                                    match op {
                                        Operator::Subtract => sub_model(ln, rn),
                                        Operator::Multiply => mul_model(ln, rn),
                                        Operator::Divide => div_model(ln, rn),
                                        _ => add_model(ln, rn),
                                    },
                                ),
                                false,
                            ),
                        ),
                        vars: o2.vars,
                    },
                ),
                _ => Some(EvalOut { r: Err(number_type_error(rv)), vars: o2.vars }),
            },
        },
    }
}

/// How one step of resolving an assignment target ended: the value was
/// stored, or the walk reached a host-owned external object whose
/// handle and next step are handed back, or it failed.
pub enum AssignOutcome {
    Assigned,
    External(u64, usize),
    Failed(MolangError),
}

/// Applies the assignment steps `k..` to the value `cur`, storing a
/// copy of `rhs` at the resolved location, and hands back the value as
/// the walk left it — with every field the walk created along the way,
/// whether or not a later step failed.
fn assign_value(cur: Value, accesses: &Vec<AccessExpr>, k: usize, rhs: &Value) -> (r: (
    AssignOutcome,
    Value,
))
    requires
        k < accesses@.len(),
    ensures
        ({
            let sp = assign_path(
                vmodel(cur),
                accexprs_model(*accesses, accesses@.len() as int),
                k as int,
                vmodel(*rhs),
            );
            &&& (vwf(cur) && vwf(*rhs) ==> vwf(r.1))
            &&& (vwf(cur) && vwf(*rhs) ==> match r.0 {
                AssignOutcome::Assigned => sp == Some((Ok::<(), ErrModel>(()), vmodel(r.1))),
                AssignOutcome::Failed(e) => sp matches Some((res, nv)) && res == Err::<(), ErrModel>(emodel(e))
                    && nv == vmodel(r.1),
                AssignOutcome::External(_, _) => sp is None,
            })
            &&& (match r.0 {
                AssignOutcome::External(_, k2) => k <= k2 < accesses@.len(),
                _ => true,
            })
        }),
    decreases accesses, accesses@.len() - k,
{
    let ghost steps = accexprs_model(*accesses, accesses@.len() as int);
    proof {
        lemma_accexprs_model(*accesses, accesses@.len() as int);
    }
    match &accesses[k] {
        AccessExpr::Call(_) => (
            AssignOutcome::Failed(MolangError::NotAssignable("a call step".to_owned())),
            cur,
        ),
        AccessExpr::Index(_) => {
            match cur {
                Value::External(id) => (AssignOutcome::External(id, k), Value::External(id)),
                c_ => {
                    let d = c_.kind_str();
                    (AssignOutcome::Failed(MolangError::BadAccess("[]".to_owned(), d)), c_)
                },
            }
        },
        AccessExpr::Name(n) => {
            match cur {
                Value::External(id) => (AssignOutcome::External(id, k), Value::External(id)),
                Value::Struct(b) => {
                    let mut b = b;
                    let ghost m = b@;
                    proof {
                        if bwf(Value::Struct(b)->Struct_0) {
                            lemma_bindings_ops(b);
                        }
                    }
                    if k == accesses.len() - 1 {
                        b.insert(n.clone(), rhs.duplicate());
                        (AssignOutcome::Assigned, Value::Struct(b))
                    } else {
                        match b.find_index(n) {
                            Some(j) => {
                                let ghost before = b.entries;
                                let (key, inner) = b.entries.remove(j);
                                let (out, inner2) = assign_value(inner, accesses, k + 1, rhs);
                                b.entries.insert(j, (key, inner2));
                                proof {
                                    assert(b.entries@ =~= before@.update(j as int, (key, inner2)));
                                    if bwf(Bindings { entries: before }) && vwf(*rhs) {
                                        lemma_entries_model_update(
                                            before,
                                            b.entries,
                                            j as int,
                                            b.entries@.len() as int,
                                        );
                                    }
                                }
                                (out, Value::Struct(b))
                            },
                            None => {
                                let inner = Value::Struct(Bindings::new());
                                let (out, inner2) = assign_value(inner, accesses, k + 1, rhs);
                                let ghost before = b.entries;
                                b.entries.push((n.clone(), inner2));
                                proof {
                                    lemma_entries_model_congruence(
                                        before,
                                        b.entries,
                                        before@.len() as int,
                                    );
                                }
                                (out, Value::Struct(b))
                            },
                        }
                    }
                },
                c_ => {
                    let d = c_.kind_str();
                    (AssignOutcome::Failed(MolangError::BadAccess(".".to_owned(), d)), c_)
                },
            }
        },
    }
}

/// Walks an access chain for reading, from step `k` with the current
/// value in hand: names resolve through the environments or struct
/// fields, and external objects, indexing and calls are dispatched to
/// the host, after which the walk continues on whatever the host handed
/// back — the contract of the continuation picks up again from there.
/// An early return surfacing from an argument's evaluation is handed
/// through with its flag set. The pending method receiver set by a name
/// read on an external object makes an immediately following call a
/// method call, so no claim covers a call step with a receiver pending.
fn run_access_from<E: External>(
    accesses: &Vec<AccessExpr>,
    k: usize,
    current: Value,
    pending: Option<(u64, String)>,
    constants: &Bindings,
    variables: &mut Bindings,
    aliases: &Aliases,
    host: &mut E,
) -> (r: Result<(Value, bool), MolangError>)
    requires
        k <= accesses@.len(),
    ensures
        ({
            let steps = accexprs_model(*accesses, accesses@.len() as int);
            let sp = walk_access(
                steps,
                k as int,
                vmodel(current),
                constants@,
                old(variables)@,
                aliases@,
            );
            (env_wf(*constants, *old(variables), *aliases) && (forall|j: int|
                0 <= j < accesses@.len() ==> aewf(#[trigger] accesses@[j])) && vwf(current) && (
            pending is Some ==> !(k < accesses@.len() && accesses@[k as int] is Call)))
                ==> match sp {
                None => true,
                Some(res) => {
                    &&& bwf(*final(variables))
                    &&& final(variables)@ == old(variables)@
                    &&& (match (r, res) {
                        (Ok((val, fl)), Ok(mv)) => vmodel(val) == mv && fl == false && vwf(val),
                        (Err(e), Err(me)) => emodel(e) == me,
                        _ => false,
                    })
                },
            }
        }),
    decreases accesses, 2int, accesses@.len() - k,
{
    let ghost steps = accexprs_model(*accesses, accesses@.len() as int);
    proof {
        lemma_accexprs_model(*accesses, accesses@.len() as int);
    }
    if k >= accesses.len() {
        return Ok((current, false));
    }
    let is_call = match &accesses[k] {
        AccessExpr::Call(_) => true,
        _ => false,
    };
    let has_pending = match &pending {
        Some(_) => true,
        None => false,
    };
    if is_call && has_pending {
        let (ext, fname) = match &pending {
            Some(p) => (p.0, p.1.clone()),
            None => (0, String::new()),
        };
        match &accesses[k] {
            AccessExpr::Call(args) => {
                proof {
                    assert(accesses@[k as int] == AccessExpr::Call(*args));
                    assert(decreases_to!(AccessExpr::Call(*args) => *args));
                    assert(decreases_to!(*accesses => *args));
                }
                let mut v_args: Vec<Value> = Vec::new();
                let mut ai: usize = 0;
                while ai < args.len()
                    invariant
                        decreases_to!(*accesses => *args),
                        pending is Some,
                        k < accesses@.len(),
                        accesses@[k as int] is Call,
                    decreases args@.len() - ai,
                {
                    match run_expr(&args[ai], constants, variables, aliases, host) {
                        Err(e) => {
                            return Err(e);
                        },
                        Ok((av, true)) => {
                            return Ok((av, true));
                        },
                        Ok((av, false)) => {
                            v_args.push(av);
                        },
                    }
                    ai = ai + 1;
                }
                match host.call_function(ext, fname.as_str(), v_args) {
                    Err(e) => Err(e),
                    Ok(res) => run_access_from(
                        accesses,
                        k + 1,
                        res,
                        Some((ext, fname)),
                        constants,
                        variables,
                        aliases,
                        host,
                    ),
                }
            },
            _ => Ok((current, false)),
        }
    } else {
        match &accesses[k] {
            AccessExpr::Name(n) => {
                let next: Value;
                match &current {
                    Value::Null => {
                        let canonical = match aliases.get(n) {
                            Some(long) => long.clone(),
                            None => n.clone(),
                        };
                        match variables.get(&canonical) {
                            Some(v) => {
                                next = v.duplicate();
                            },
                            None => {
                                match constants.get(&canonical) {
                                    Some(v) => {
                                        next = v.duplicate();
                                    },
                                    None => {
                                        return Err(MolangError::VariableNotFound(canonical));
                                    },
                                }
                            },
                        }
                    },
                    Value::Struct(b) => {
                        match b.get(n) {
                            Some(v) => {
                                next = v.duplicate();
                            },
                            None => {
                                next = Value::Null;
                            },
                        }
                    },
                    Value::External(id) => {
                        let id2 = *id;
                        let got = host.get(id2, n.as_str());
                        return run_access_from(
                            accesses,
                            k + 1,
                            got,
                            Some((id2, n.clone())),
                            constants,
                            variables,
                            aliases,
                            host,
                        );
                    },
                    _ => {
                        let d = current.kind_str();
                        return Err(MolangError::BadAccess(".".to_owned(), d));
                    },
                }
                run_access_from(accesses, k + 1, next, None, constants, variables, aliases, host)
            },
            AccessExpr::Index(idx_e) => {
                match &current {
                    Value::External(id) => {
                        let id2 = *id;
                        proof {
                            assert(accesses@[k as int] == AccessExpr::Index(*idx_e));
                            assert(decreases_to!(AccessExpr::Index(*idx_e) => *idx_e));
                            assert(decreases_to!(*accesses => *idx_e));
                        }
                        let iv = match run_expr(idx_e, constants, variables, aliases, host) {
                            Err(e) => {
                                return Err(e);
                            },
                            Ok((v, true)) => {
                                return Ok((v, true));
                            },
                            Ok((v, false)) => v,
                        };
                        match host.index_get(id2, iv) {
                            Err(e) => Err(e),
                            Ok(res) => run_access_from(
                                accesses,
                                k + 1,
                                res,
                                None,
                                constants,
                                variables,
                                aliases,
                                host,
                            ),
                        }
                    },
                    _ => {
                        let d = current.kind_str();
                        Err(MolangError::BadAccess("[]".to_owned(), d))
                    },
                }
            },
            AccessExpr::Call(args) => {
                match &current {
                    Value::Function(fid) => {
                        let fid2 = *fid;
                        proof {
                            assert(accesses@[k as int] == AccessExpr::Call(*args));
                            assert(decreases_to!(AccessExpr::Call(*args) => *args));
                            assert(decreases_to!(*accesses => *args));
                        }
                        let mut v_args: Vec<Value> = Vec::new();
                        let mut ai: usize = 0;
                        while ai < args.len()
                            invariant
                                decreases_to!(*accesses => *args),
                                steps == accexprs_model(*accesses, accesses@.len() as int),
                                k < accesses@.len(),
                                walk_access(
                                    steps,
                                    k as int,
                                    vmodel(current),
                                    constants@,
                                    old(variables)@,
                                    aliases@,
                                ) is None,
                            decreases args@.len() - ai,
                        {
                            match run_expr(&args[ai], constants, variables, aliases, host) {
                                Err(e) => {
                                    return Err(e);
                                },
                                Ok((av, true)) => {
                                    return Ok((av, true));
                                },
                                Ok((av, false)) => {
                                    v_args.push(av);
                                },
                            }
                            ai = ai + 1;
                        }
                        match host.call(fid2, v_args) {
                            Err(e) => Err(e),
                            Ok(res) => run_access_from(
                                accesses,
                                k + 1,
                                res,
                                None,
                                constants,
                                variables,
                                aliases,
                                host,
                            ),
                        }
                    },
                    _ => {
                        let d = current.kind_str();
                        Err(MolangError::BadAccess("()".to_owned(), d))
                    },
                }
            },
        }
    }
}

/// Walks a whole access chain for reading: the current value starts at
/// null and the first name resolves through the environments.
fn run_access<E: External>(
    accesses: &Vec<AccessExpr>,
    constants: &Bindings,
    variables: &mut Bindings,
    aliases: &Aliases,
    host: &mut E,
) -> (r: Result<(Value, bool), MolangError>)
    ensures
        ({
            let sp = walk_access(
                accexprs_model(*accesses, accesses@.len() as int),
                0,
                ValueModel::Null,
                constants@,
                old(variables)@,
                aliases@,
            );
            (env_wf(*constants, *old(variables), *aliases) && (forall|j: int|
                0 <= j < accesses@.len() ==> aewf(#[trigger] accesses@[j]))) ==> match sp {
                None => true,
                Some(res) => {
                    &&& bwf(*final(variables))
                    &&& final(variables)@ == old(variables)@
                    &&& (match (r, res) {
                        (Ok((val, fl)), Ok(mv)) => vmodel(val) == mv && fl == false && vwf(val),
                        (Err(e), Err(me)) => emodel(e) == me,
                        _ => false,
                    })
                },
            }
        }),
    decreases accesses, 3int, 0int,
{
    run_access_from(accesses, 0, Value::Null, None, constants, variables, aliases, host)
}

/// Well-formedness of an evaluation environment: the constants, the
/// variables and the alias table are all well formed.
pub open spec fn env_wf(constants: Bindings, variables: Bindings, aliases: Aliases) -> bool {
    bwf(constants) && bwf(variables) && awf(aliases)
}

/// The language's division, executably: a zero divisor yields zero and
/// the one overflowing quotient wraps.
fn div_exec(a: i64, b: i64) -> (r: i64)
    ensures
        r == div_model(a, b),
{
    if b == 0 {
        0
    } else {
        match a.checked_div(b) {
            Some(q) => q,
            None => i64::MIN,
        }
    }
}

/// Evaluates a binary arithmetic instruction: the left operand first,
/// required to be a number before the right is touched, then the right,
/// then the operator's two's-complement operation. An early return from
/// either operand is handed through before anything further runs.
fn run_arith<E: External>(
    parent: &Expr,
    l: &Expr,
    rexp: &Expr,
    op: Operator,
    constants: &Bindings,
    variables: &mut Bindings,
    aliases: &Aliases,
    host: &mut E,
) -> (r: Result<(Value, bool), MolangError>)
    requires
        decreases_to!(*parent => *l),
        decreases_to!(*parent => *rexp),
    ensures
        ({
            let spr = match arith_left(
                eval_expr(expr_model(*l), constants@, old(variables)@, aliases@),
            ) {
                ArithLeft::Done(res) => res,
                ArithLeft::NeedRight(ln, v2) => arith_right(
                    op,
                    ln,
                    eval_expr(expr_model(*rexp), constants@, v2, aliases@),
                ),
            };
            (env_wf(*constants, *old(variables), *aliases) && ewf(*l) && ewf(*rexp)) ==> match spr {
                None => true,
                Some(o) => {
                    &&& bwf(*final(variables))
                    &&& final(variables)@ == o.vars
                    &&& (match (r, o.r) {
                        (Ok((val, fl)), Ok((mv, mf))) => vmodel(val) == mv && fl == mf && vwf(val),
                        (Err(e), Err(me)) => emodel(e) == me,
                        _ => false,
                    })
                },
            }
        }),
    decreases parent, 0int,
{
    let (lv, lfl) = match run_expr(l, constants, variables, aliases, host) {
        Err(e) => {
            return Err(e);
        },
        Ok(p) => p,
    };
    if lfl {
        return Ok((lv, true));
    }
    let ln = match lv {
        Value::Number(n) => n,
        other => {
            let d = other.kind_str();
            return Err(MolangError::TypeError("Number".to_owned(), d));
        },
    };
    let (rv, rfl) = match run_expr(rexp, constants, variables, aliases, host) {
        Err(e) => {
            return Err(e);
        },
        Ok(p) => p,
    };
    if rfl {
        return Ok((rv, true));
    }
    let rn = match rv {
        Value::Number(n) => n,
        other => {
            let d = other.kind_str();
            return Err(MolangError::TypeError("Number".to_owned(), d));
        },
    };
    let res = match op {
        Operator::Subtract => ln.wrapping_sub(rn),
        Operator::Multiply => ln.wrapping_mul(rn),
        Operator::Divide => div_exec(ln, rn),
        _ => ln.wrapping_add(rn),
    };
    Ok((Value::Number(res), false))
}

/// Resolves an assignment target through host-owned external objects,
/// from the handle the struct walk stopped at: the final step delegates
/// to the host's property or index setter, handing it a copy of the
/// assigned value; earlier steps read through the host, and anything
/// they hand back that is not another external object is walked as a
/// detached copy, whose mutation is lost with it. On success without an
/// early return the result is a copy of the assigned value; everything
/// else about the outcome is the host's to decide.
fn run_assign_external<E: External>(
    ext0: u64,
    k0: usize,
    accesses: &Vec<AccessExpr>,
    rhs: &Value,
    constants: &Bindings,
    variables: &mut Bindings,
    aliases: &Aliases,
    host: &mut E,
) -> (r: Result<(Value, bool), MolangError>)
    requires
        k0 < accesses@.len(),
    ensures
        match r {
            Ok((v, false)) => vmodel(v) == vmodel(*rhs) && (vwf(*rhs) ==> vwf(v)),
            _ => true,
        },
    decreases accesses, 0int,
{
    let mut ext = ext0;
    let mut k = k0;
    while k < accesses.len()
        invariant
            k <= accesses@.len(),
        decreases accesses@.len() - k,
    {
        match &accesses[k] {
            AccessExpr::Call(_) => {
                return Err(MolangError::NotAssignable("a call step".to_owned()));
            },
            AccessExpr::Name(n) => {
                if k == accesses.len() - 1 {
                    match host.set(ext, n.as_str(), rhs.duplicate()) {
                        Err(e) => {
                            return Err(e);
                        },
                        Ok(_) => {
                            return Ok((rhs.duplicate(), false));
                        },
                    }
                } else {
                    let got = host.get(ext, n.as_str());
                    match got {
                        Value::External(id2) => {
                            ext = id2;
                            k = k + 1;
                        },
                        other => {
                            let (out, _detached) = assign_value(other, accesses, k + 1, rhs);
                            match out {
                                AssignOutcome::Assigned => {
                                    return Ok((rhs.duplicate(), false));
                                },
                                AssignOutcome::Failed(e) => {
                                    return Err(e);
                                },
                                AssignOutcome::External(id3, kk) => {
                                    ext = id3;
                                    k = kk;
                                },
                            }
                        },
                    }
                }
            },
            AccessExpr::Index(idx_e) => {
                proof {
                    assert(accesses@[k as int] == AccessExpr::Index(*idx_e));
                    assert(decreases_to!(AccessExpr::Index(*idx_e) => *idx_e));
                    assert(decreases_to!(*accesses => *idx_e));
                }
                let iv = match run_expr(idx_e, constants, variables, aliases, host) {
                    Err(e) => {
                        return Err(e);
                    },
                    Ok((v, true)) => {
                        return Ok((v, true));
                    },
                    Ok((v, false)) => v,
                };
                if k == accesses.len() - 1 {
                    match host.index_set(ext, iv, rhs.duplicate()) {
                        Err(e) => {
                            return Err(e);
                        },
                        Ok(_) => {
                            return Ok((rhs.duplicate(), false));
                        },
                    }
                } else {
                    match host.index_get(ext, iv) {
                        Err(e) => {
                            return Err(e);
                        },
                        Ok(got) => {
                            match got {
                                Value::External(id2) => {
                                    ext = id2;
                                    k = k + 1;
                                },
                                other => {
                                    let (out, _detached) = assign_value(
                                        other,
                                        accesses,
                                        k + 1,
                                        rhs,
                                    );
                                    match out {
                                        AssignOutcome::Assigned => {
                                            return Ok((rhs.duplicate(), false));
                                        },
                                        AssignOutcome::Failed(e) => {
                                            return Err(e);
                                        },
                                        AssignOutcome::External(id3, kk) => {
                                            ext = id3;
                                            k = kk;
                                        },
                                    }
                                },
                            }
                        },
                    }
                }
            },
        }
    }
    Ok((rhs.duplicate(), false))
}

/// Evaluates one expression against the environments, dispatching host
/// work to the host, and reports the value together with the
/// early-return flag that a return instruction sets.
#[verifier::rlimit(100)]
pub fn run_expr<E: External>(
    expr: &Expr,
    constants: &Bindings,
    variables: &mut Bindings,
    aliases: &Aliases,
    host: &mut E,
) -> (r: Result<(Value, bool), MolangError>)
    ensures
        ({
            let sp = eval_expr(expr_model(*expr), constants@, old(variables)@, aliases@);
            (env_wf(*constants, *old(variables), *aliases) && ewf(*expr)) ==> match sp {
                None => true,
                Some(o) => {
                    &&& bwf(*final(variables))
                    &&& final(variables)@ == o.vars
                    &&& (match (r, o.r) {
                        (Ok((val, fl)), Ok((mv, mf))) => vmodel(val) == mv && fl == mf && vwf(val),
                        (Err(e), Err(me)) => emodel(e) == me,
                        _ => false,
                    })
                },
            }
        }),
    decreases expr, 1int,
{
    match expr {
        Expr::Literal(v) => Ok((v.duplicate(), false)),
        Expr::Derived(i) => match &**i {
            Instruction::Add(l, rexp) => {
                proof {
                    assert(decreases_to!(*expr => *l));
                    assert(decreases_to!(*expr => *rexp));
                }
                run_arith(expr, l, rexp, Operator::Add, constants, variables, aliases, host)
            },
            Instruction::Subtract(l, rexp) => {
                proof {
                    assert(decreases_to!(*expr => *l));
                    assert(decreases_to!(*expr => *rexp));
                }
                run_arith(expr, l, rexp, Operator::Subtract, constants, variables, aliases, host)
            },
            Instruction::Multiply(l, rexp) => {
                proof {
                    assert(decreases_to!(*expr => *l));
                    assert(decreases_to!(*expr => *rexp));
                }
                run_arith(expr, l, rexp, Operator::Multiply, constants, variables, aliases, host)
            },
            Instruction::Divide(l, rexp) => {
                proof {
                    assert(decreases_to!(*expr => *l));
                    assert(decreases_to!(*expr => *rexp));
                }
                run_arith(expr, l, rexp, Operator::Divide, constants, variables, aliases, host)
            },
            Instruction::Access(accesses) => run_access(
                accesses,
                constants,
                variables,
                aliases,
                host,
            ),
            Instruction::Conditional(l, rexp) => {
                proof {
                    assert(decreases_to!(*expr => *l));
                    assert(decreases_to!(*expr => *rexp));
                }
                run_conditional(expr, l, rexp, constants, variables, aliases, host)
            },
            Instruction::Colon(_, _) => Err(
                MolangError::SyntaxError("Unexpected colon".to_owned()),
            ),
            Instruction::NullishCoalescing(l, rexp) => {
                proof {
                    assert(decreases_to!(*expr => *l));
                    assert(decreases_to!(*expr => *rexp));
                }
                run_nullish(expr, l, rexp, constants, variables, aliases, host)
            },
            Instruction::Not(x) => {
                proof {
                    assert(decreases_to!(*expr => *x));
                }
                run_not(expr, x, constants, variables, aliases, host)
            },
            Instruction::Equality(l, rexp) => {
                proof {
                    assert(decreases_to!(*expr => *l));
                    assert(decreases_to!(*expr => *rexp));
                }
                run_equality(expr, l, rexp, constants, variables, aliases, host)
            },
            Instruction::Return(x) => {
                match run_expr(x, constants, variables, aliases, host) {
                    Err(e) => Err(e),
                    Ok((v, _)) => Ok((v, true)),
                }
            },
            Instruction::Assignment(lhs, rhs) => {
                proof {
                    assert(decreases_to!(*expr => *lhs));
                    assert(decreases_to!(*expr => *rhs));
                }
                run_assignment(expr, lhs, rhs, constants, variables, aliases, host)
            },
        },
    }
}

/// Evaluates an assignment: the left side must be an access chain; the
/// right side is evaluated first, and the resolved location — a
/// variable, a path of struct fields created on demand, or a host-owned
/// object's property or index — receives a copy of its value, which is
/// also the assignment's own value.
fn run_assignment<E: External>(
    parent: &Expr,
    lhs: &Expr,
    rhs: &Expr,
    constants: &Bindings,
    variables: &mut Bindings,
    aliases: &Aliases,
    host: &mut E,
) -> (r: Result<(Value, bool), MolangError>)
    requires
        decreases_to!(*parent => *lhs),
        decreases_to!(*parent => *rhs),
    ensures
        ({
            let sp = eval_expr(
                ExprModel::Assignment(
                    Box::new(expr_model(*lhs)),
                    Box::new(expr_model(*rhs)),
                ),
                constants@,
                old(variables)@,
                aliases@,
            );
            (env_wf(*constants, *old(variables), *aliases) && ewf(*lhs) && ewf(*rhs)) ==> match sp {
                None => true,
                Some(o) => {
                    &&& bwf(*final(variables))
                    &&& final(variables)@ == o.vars
                    &&& (match (r, o.r) {
                        (Ok((val, fl)), Ok((mv, mf))) => vmodel(val) == mv && fl == mf && vwf(val),
                        (Err(e), Err(me)) => emodel(e) == me,
                        _ => false,
                    })
                },
            }
        }),
    decreases parent, 0int,
{
    let accesses = match lhs {
        Expr::Derived(bx) => match &**bx {
            Instruction::Access(a) => a,
            _ => {
                return Err(
                    MolangError::NotAssignable("not an access expression".to_owned()),
                );
            },
        },
        _ => {
            return Err(MolangError::NotAssignable("not an access expression".to_owned()));
        },
    };
    proof {
        assert(decreases_to!(*lhs => *accesses));
    }
    let (rv, rfl) = match run_expr(rhs, constants, variables, aliases, host) {
        Err(e) => {
            return Err(e);
        },
        Ok(p) => p,
    };
    if rfl {
        return Ok((rv, true));
    }
    proof {
        lemma_accexprs_model(*accesses, accesses@.len() as int);
    }
    if accesses.len() == 0 {
        return Ok((rv, false));
    }
    match &accesses[0] {
        AccessExpr::Call(_) => Err(MolangError::NotAssignable("a call step".to_owned())),
        AccessExpr::Index(_) => Err(
            MolangError::BadAccess("[]".to_owned(), "Null".to_owned()),
        ),
        AccessExpr::Name(n0) => {
            let canonical = match aliases.get(n0) {
                Some(long) => long.clone(),
                None => n0.clone(),
            };
            proof {
                if bwf(*variables) {
                    lemma_bindings_ops(*variables);
                }
            }
            match variables.find_index(&canonical) {
                Some(j) => {
                    if accesses.len() == 1 {
                        variables.insert(canonical, rv.duplicate());
                        Ok((rv, false))
                    } else {
                        let ghost before = variables.entries;
                        let (key, rootval) = variables.entries.remove(j);
                        let (out, newval) = assign_value(rootval, accesses, 1, &rv);
                        variables.entries.insert(j, (key, newval));
                        proof {
                            assert(variables.entries@ =~= before@.update(
                                j as int,
                                (key, newval),
                            ));
                            if bwf(Bindings { entries: before }) {
                                lemma_entries_model_update(
                                    before,
                                    variables.entries,
                                    j as int,
                                    variables.entries@.len() as int,
                                );
                            }
                        }
                        match out {
                            AssignOutcome::Assigned => Ok((rv, false)),
                            AssignOutcome::Failed(e) => Err(e),
                            AssignOutcome::External(ext, kk) => run_assign_external(
                                ext,
                                kk,
                                accesses,
                                &rv,
                                constants,
                                variables,
                                aliases,
                                host,
                            ),
                        }
                    }
                },
                None => {
                    proof {
                        if bwf(*constants) {
                            lemma_bindings_ops(*constants);
                        }
                    }
                    match constants.find_index(&canonical) {
                        Some(_) => {
                            let mut msg = String::new();
                            msg.append("Constant ");
                            msg.append(canonical.as_str());
                            proof {
                                assert(msg@ =~= "Constant "@ + canonical@);
                            }
                            Err(MolangError::NotAssignable(msg))
                        },
                        None => Err(MolangError::VariableNotFound(canonical)),
                    }
                },
            }
        },
    }
}

/// Evaluates a ternary conditional: the condition must be a number and
/// the right side a colon node; exactly one branch is then evaluated.
fn run_conditional<E: External>(
    parent: &Expr,
    l: &Expr,
    rexp: &Expr,
    constants: &Bindings,
    variables: &mut Bindings,
    aliases: &Aliases,
    host: &mut E,
) -> (r: Result<(Value, bool), MolangError>)
    requires
        decreases_to!(*parent => *l),
        decreases_to!(*parent => *rexp),
    ensures
        ({
            let sp = eval_expr(
                ExprModel::Conditional(Box::new(expr_model(*l)), Box::new(expr_model(*rexp))),
                constants@,
                old(variables)@,
                aliases@,
            );
            (env_wf(*constants, *old(variables), *aliases) && ewf(*l) && ewf(*rexp)) ==> match sp {
                None => true,
                Some(o) => {
                    &&& bwf(*final(variables))
                    &&& final(variables)@ == o.vars
                    &&& (match (r, o.r) {
                        (Ok((val, fl)), Ok((mv, mf))) => vmodel(val) == mv && fl == mf && vwf(val),
                        (Err(e), Err(me)) => emodel(e) == me,
                        _ => false,
                    })
                },
            }
        }),
    decreases parent, 0int,
{
    let (lv, lfl) = match run_expr(l, constants, variables, aliases, host) {
        Err(e) => {
            return Err(e);
        },
        Ok(p) => p,
    };
    if lfl {
        return Ok((lv, true));
    }
    let n = match lv {
        Value::Number(n) => n,
        other => {
            let d = other.kind_str();
            return Err(MolangError::TypeError("Number".to_owned(), d));
        },
    };
    match rexp {
        Expr::Derived(b2) => match &**b2 {
            Instruction::Colon(t, el) => {
                proof {
                    assert(decreases_to!(*rexp => *t));
                    assert(decreases_to!(*rexp => *el));
                }
                if n != 0 {
                    run_expr(t, constants, variables, aliases, host)
                } else {
                    run_expr(el, constants, variables, aliases, host)
                }
            },
            _ => Err(MolangError::SyntaxError("Expected colon to close ternary".to_owned())),
        },
        _ => Err(MolangError::SyntaxError("Expected colon to close ternary".to_owned())),
    }
}

/// Evaluates a nullish coalescing: the fallback is evaluated only when
/// the primary evaluates to null.
fn run_nullish<E: External>(
    parent: &Expr,
    l: &Expr,
    rexp: &Expr,
    constants: &Bindings,
    variables: &mut Bindings,
    aliases: &Aliases,
    host: &mut E,
) -> (r: Result<(Value, bool), MolangError>)
    requires
        decreases_to!(*parent => *l),
        decreases_to!(*parent => *rexp),
    ensures
        ({
            let sp = eval_expr(
                ExprModel::NullishCoalescing(
                    Box::new(expr_model(*l)),
                    Box::new(expr_model(*rexp)),
                ),
                constants@,
                old(variables)@,
                aliases@,
            );
            (env_wf(*constants, *old(variables), *aliases) && ewf(*l) && ewf(*rexp)) ==> match sp {
                None => true,
                Some(o) => {
                    &&& bwf(*final(variables))
                    &&& final(variables)@ == o.vars
                    &&& (match (r, o.r) {
                        (Ok((val, fl)), Ok((mv, mf))) => vmodel(val) == mv && fl == mf && vwf(val),
                        (Err(e), Err(me)) => emodel(e) == me,
                        _ => false,
                    })
                },
            }
        }),
    decreases parent, 0int,
{
    let (lv, lfl) = match run_expr(l, constants, variables, aliases, host) {
        Err(e) => {
            return Err(e);
        },
        Ok(p) => p,
    };
    if lfl {
        return Ok((lv, true));
    }
    match lv {
        Value::Null => run_expr(rexp, constants, variables, aliases, host),
        other => Ok((other, false)),
    }
}

/// Evaluates a logical not: the operand must be a number; zero maps to
/// one and every other number to zero.
fn run_not<E: External>(
    parent: &Expr,
    x: &Expr,
    constants: &Bindings,
    variables: &mut Bindings,
    aliases: &Aliases,
    host: &mut E,
) -> (r: Result<(Value, bool), MolangError>)
    requires
        decreases_to!(*parent => *x),
    ensures
        ({
            let sp = eval_expr(
                ExprModel::Not(Box::new(expr_model(*x))),
                constants@,
                old(variables)@,
                aliases@,
            );
            (env_wf(*constants, *old(variables), *aliases) && ewf(*x)) ==> match sp {
                None => true,
                Some(o) => {
                    &&& bwf(*final(variables))
                    &&& final(variables)@ == o.vars
                    &&& (match (r, o.r) {
                        (Ok((val, fl)), Ok((mv, mf))) => vmodel(val) == mv && fl == mf && vwf(val),
                        (Err(e), Err(me)) => emodel(e) == me,
                        _ => false,
                    })
                },
            }
        }),
    decreases parent, 0int,
{
    let (xv, xfl) = match run_expr(x, constants, variables, aliases, host) {
        Err(e) => {
            return Err(e);
        },
        Ok(p) => p,
    };
    if xfl {
        return Ok((xv, true));
    }
    match xv {
        Value::Number(n) => {
            if n == 0 {
                Ok((Value::Number(1), false))
            } else {
                Ok((Value::Number(0), false))
            }
        },
        other => {
            let d = other.kind_str();
            Err(MolangError::TypeError("Number".to_owned(), d))
        },
    }
}

/// Evaluates an equality test: both sides are evaluated, then compared
/// by the language's value equality, yielding one or zero.
fn run_equality<E: External>(
    parent: &Expr,
    l: &Expr,
    rexp: &Expr,
    constants: &Bindings,
    variables: &mut Bindings,
    aliases: &Aliases,
    host: &mut E,
) -> (r: Result<(Value, bool), MolangError>)
    requires
        decreases_to!(*parent => *l),
        decreases_to!(*parent => *rexp),
    ensures
        ({
            let sp = eval_expr(
                ExprModel::Equality(Box::new(expr_model(*l)), Box::new(expr_model(*rexp))),
                constants@,
                old(variables)@,
                aliases@,
            );
            (env_wf(*constants, *old(variables), *aliases) && ewf(*l) && ewf(*rexp)) ==> match sp {
                None => true,
                Some(o) => {
                    &&& bwf(*final(variables))
                    &&& final(variables)@ == o.vars
                    &&& (match (r, o.r) {
                        (Ok((val, fl)), Ok((mv, mf))) => vmodel(val) == mv && fl == mf && vwf(val),
                        (Err(e), Err(me)) => emodel(e) == me,
                        _ => false,
                    })
                },
            }
        }),
    decreases parent, 0int,
{
    let (lv, lfl) = match run_expr(l, constants, variables, aliases, host) {
        Err(e) => {
            return Err(e);
        },
        Ok(p) => p,
    };
    if lfl {
        return Ok((lv, true));
    }
    let (rv, rfl) = match run_expr(rexp, constants, variables, aliases, host) {
        Err(e) => {
            return Err(e);
        },
        Ok(p) => p,
    };
    if rfl {
        return Ok((rv, true));
    }
    let b = lv.molang_eq(&rv, host);
    if b {
        Ok((Value::Number(1), false))
    } else {
        Ok((Value::Number(0), false))
    }
}

/// Evaluates a whole block: a block marked multiple runs its statements
/// in order until the first early return or error, yielding zero when
/// none returns; any other block yields its single statement's value.
#[verifier::rlimit(50)]
pub fn run_block<E: External>(
    block: &Block,
    constants: &Bindings,
    variables: &mut Bindings,
    aliases: &Aliases,
    host: &mut E,
) -> (r: Result<Value, MolangError>)
    requires
        !block.multiple ==> block.statements@.len() >= 1,
    ensures
        ({
            let sp = eval_block(blk_model(*block), constants@, old(variables)@, aliases@);
            (env_wf(*constants, *old(variables), *aliases) && blockwf(*block)) ==> match sp {
                None => true,
                Some((res, mv)) => {
                    &&& bwf(*final(variables))
                    &&& final(variables)@ == mv
                    &&& (match (r, res) {
                        (Ok(val), Ok(m)) => vmodel(val) == m && vwf(val),
                        (Err(e), Err(me)) => emodel(e) == me,
                        _ => false,
                    })
                },
            }
        }),
{
    let ghost stmts = exprs_model(block.statements, block.statements@.len() as int);
    let ghost v0 = variables@;
    let ghost hyp = env_wf(*constants, *variables, *aliases) && blockwf(*block);
    proof {
        lemma_exprs_model(block.statements, block.statements@.len() as int);
    }
    if block.multiple {
        let mut k: usize = 0;
        while k < block.statements.len()
            invariant
                block.multiple,
                !block.multiple ==> block.statements@.len() >= 1,
                k <= block.statements@.len(),
                stmts == exprs_model(block.statements, block.statements@.len() as int),
                stmts.len() == block.statements@.len(),
                forall|j: int| 0 <= j < stmts.len() ==> stmts[j] == expr_model(
                    #[trigger] block.statements@[j],
                ),
                v0 == old(variables)@,
                hyp == (env_wf(*constants, *old(variables), *aliases) && blockwf(*block)),
                hyp ==> match eval_stmts(stmts, 0, constants@, v0, aliases@) {
                    None => true,
                    Some(out) => {
                        &&& bwf(*variables)
                        &&& eval_stmts(stmts, k as int, constants@, variables@, aliases@) == Some(
                            out,
                        )
                    },
                },
            decreases block.statements@.len() - k,
        {
            let ghost v_pre = variables@;
            let res = run_expr(&block.statements[k], constants, variables, aliases, host);
            proof {
                if hyp {
                    assert(stmts[k as int] == expr_model(block.statements@[k as int]));
                    match eval_stmts(stmts, 0, constants@, v0, aliases@) {
                        Option::None => {},
                        Option::Some(out) => {
                            assert(eval_stmts(stmts, k as int, constants@, v_pre, aliases@)
                                == Some(out));
                            assert(eval_stmts(stmts, k as int, constants@, v_pre, aliases@)
                                == match eval_expr(stmts[k as int], constants@, v_pre, aliases@) {
                                Option::None => Option::None,
                                Option::Some(o) => match o.r {
                                    Result::Err(err) => Some((Result::Err(err), o.vars)),
                                    Result::Ok((val, true)) => Some((Result::Ok(val), o.vars)),
                                    Result::Ok((_, false)) => eval_stmts(
                                        stmts,
                                        k as int + 1,
                                        constants@,
                                        o.vars,
                                        aliases@,
                                    ),
                                },
                            });
                        },
                    }
                }
            }
            proof {
                if hyp {
                    assert(eval_block(blk_model(*block), constants@, v0, aliases@) == eval_stmts(
                        stmts,
                        0,
                        constants@,
                        v0,
                        aliases@,
                    ));
                    match eval_stmts(stmts, 0, constants@, v0, aliases@) {
                        Option::None => {},
                        Option::Some(out) => {
                            match &res {
                                Result::Err(e) => {
                                    assert(out.0 == Result::<ValueModel, ErrModel>::Err(
                                        emodel(*e),
                                    ));
                                    assert(variables@ == out.1);
                                    assert(bwf(*variables));
                                },
                                Result::Ok((v, true)) => {
                                    assert(out.0 == Result::<ValueModel, ErrModel>::Ok(
                                        vmodel(*v),
                                    ));
                                    assert(variables@ == out.1);
                                    assert(bwf(*variables));
                                    assert(vwf(*v));
                                },
                                Result::Ok((_, false)) => {},
                            }
                        },
                    }
                }
            }
            match res {
                Err(e) => {
                    return Err(e);
                },
                Ok((v, true)) => {
                    return Ok(v);
                },
                Ok((_, false)) => {},
            }
            k = k + 1;
        }
        Ok(Value::Number(0))
    } else {
        match run_expr(&block.statements[0], constants, variables, aliases, host) {
            Err(e) => Err(e),
            Ok((v, _)) => Ok(v),
        }
    }
}

} // verus!
