//! General laws of the evaluator, stated over the big-step semantics
//! and proved once and for all: how binary operators behave on
//! variables, that zero is the only falsy number, that the untaken
//! branch of a conditional and the unneeded fallback of a coalescing
//! are never evaluated, how names resolve, that constants are never
//! assignable, and that nothing after an early return runs.
use vstd::prelude::*;

use crate::interpreter::add_model;
use crate::interpreter::div_model;
use crate::interpreter::eval_expr;
use crate::interpreter::eval_stmts;
use crate::interpreter::mul_model;
use crate::interpreter::sub_model;
use crate::interpreter::ErrModel;
use crate::interpreter::EvalOut;
use crate::parser::AccessExprModel;
use crate::parser::ExprModel;
use crate::value::ValueModel;

verus! {

/// The expression that reads the single name `n`.
pub open spec fn var_ref(n: Seq<char>) -> ExprModel {
    ExprModel::Access(seq![AccessExprModel::Name(n)])
}

/// The canonical name a root name resolves to: its alias, if one is
/// declared, and otherwise the name itself.
pub open spec fn resolved(n: Seq<char>, aliases: Map<Seq<char>, Seq<char>>) -> Seq<char> {
    if aliases.contains_key(n) {
        aliases[n]
    } else {
        n
    }
}

/// Reading one name resolves it through the alias table, then looks it
/// up among the variables, then among the constants, and fails with
/// exactly `VariableNotFound` carrying the resolved name when both lack
/// it. This also pins the alias rule: the substitution applies once, at
/// the root of the chain.
pub proof fn law_variable_resolution(
    n: Seq<char>,
    consts: Map<Seq<char>, ValueModel>,
    vars: Map<Seq<char>, ValueModel>,
    aliases: Map<Seq<char>, Seq<char>>,
)
    ensures
        vars.contains_key(resolved(n, aliases)) ==> eval_expr(var_ref(n), consts, vars, aliases)
            == Some(EvalOut { r: Ok((vars[resolved(n, aliases)], false)), vars }),
        !vars.contains_key(resolved(n, aliases)) && consts.contains_key(resolved(n, aliases))
            ==> eval_expr(var_ref(n), consts, vars, aliases) == Some(
            EvalOut { r: Ok((consts[resolved(n, aliases)], false)), vars },
        ),
        !vars.contains_key(resolved(n, aliases)) && !consts.contains_key(resolved(n, aliases))
            ==> eval_expr(var_ref(n), consts, vars, aliases) == Some(
            EvalOut { r: Err(ErrModel::VariableNotFound(resolved(n, aliases))), vars },
        ),
{
    let steps = seq![AccessExprModel::Name(n)];
    assert(steps.len() == 1 && steps[0] == AccessExprModel::Name(n));
    let n2 = resolved(n, aliases);
    if vars.contains_key(n2) {
        assert(crate::interpreter::walk_access(steps, 1, vars[n2], consts, vars, aliases)
            == Some(Ok::<ValueModel, ErrModel>(vars[n2])));
    } else if consts.contains_key(n2) {
        assert(crate::interpreter::walk_access(steps, 1, consts[n2], consts, vars, aliases)
            == Some(Ok::<ValueModel, ErrModel>(consts[n2])));
    }
}

/// For all numbers bound as the variables `a` and `b`, each binary
/// arithmetic expression over them evaluates to the operator's
/// two's-complement operation applied to the two numbers, without an
/// error, an early return or any change to the variables.
pub proof fn law_binary_operators_on_variables(
    x: i64,
    y: i64,
    consts: Map<Seq<char>, ValueModel>,
    vars: Map<Seq<char>, ValueModel>,
    aliases: Map<Seq<char>, Seq<char>>,
)
    requires
        vars.contains_key("a"@),
        vars["a"@] == ValueModel::Number(x),
        vars.contains_key("b"@),
        vars["b"@] == ValueModel::Number(y),
        !aliases.contains_key("a"@),
        !aliases.contains_key("b"@),
    ensures
        eval_expr(
            ExprModel::Add(Box::new(var_ref("a"@)), Box::new(var_ref("b"@))),
            consts,
            vars,
            aliases,
        ) == Some(EvalOut { r: Ok((ValueModel::Number(add_model(x, y)), false)), vars }),
        eval_expr(
            ExprModel::Subtract(Box::new(var_ref("a"@)), Box::new(var_ref("b"@))),
            consts,
            vars,
            aliases,
        ) == Some(EvalOut { r: Ok((ValueModel::Number(sub_model(x, y)), false)), vars }),
        eval_expr(
            ExprModel::Multiply(Box::new(var_ref("a"@)), Box::new(var_ref("b"@))),
            consts,
            vars,
            aliases,
        ) == Some(EvalOut { r: Ok((ValueModel::Number(mul_model(x, y)), false)), vars }),
        eval_expr(
            ExprModel::Divide(Box::new(var_ref("a"@)), Box::new(var_ref("b"@))),
            consts,
            vars,
            aliases,
        ) == Some(EvalOut { r: Ok((ValueModel::Number(div_model(x, y)), false)), vars }),
{
    law_variable_resolution("a"@, consts, vars, aliases);
    law_variable_resolution("b"@, consts, vars, aliases);
}

/// Zero is the only falsy number: negating a number yields one exactly
/// when it is zero and zero otherwise, for every number including the
/// negative ones.
pub proof fn law_zero_is_the_only_falsy_number(
    n: i64,
    consts: Map<Seq<char>, ValueModel>,
    vars: Map<Seq<char>, ValueModel>,
    aliases: Map<Seq<char>, Seq<char>>,
)
    ensures
        eval_expr(
            ExprModel::Not(Box::new(ExprModel::Literal(ValueModel::Number(n)))),
            consts,
            vars,
            aliases,
        ) == Some(
            EvalOut {
                r: Ok(
                    (
                        ValueModel::Number(
                            if n == 0 {
                                1
                            } else {
                                0
                            },
                        ),
                        false,
                    ),
                ),
                vars,
            },
        ),
{
    assert(eval_expr(ExprModel::Literal(ValueModel::Number(n)), consts, vars, aliases) == Some(
        EvalOut { r: Ok((ValueModel::Number(n), false)), vars },
    ));
}

/// A conditional evaluates exactly one branch: when the condition is a
/// non-zero number the whole outcome is independent of the else branch,
/// and when it is zero the whole outcome is independent of the then
/// branch — so the untaken branch is never evaluated.
pub proof fn law_conditional_evaluates_one_branch(
    cond: ExprModel,
    t1: ExprModel,
    t2: ExprModel,
    e1: ExprModel,
    e2: ExprModel,
    n: i64,
    o1: EvalOut,
    consts: Map<Seq<char>, ValueModel>,
    vars: Map<Seq<char>, ValueModel>,
    aliases: Map<Seq<char>, Seq<char>>,
)
    requires
        eval_expr(cond, consts, vars, aliases) == Some(o1),
        o1.r == Ok::<(ValueModel, bool), ErrModel>((ValueModel::Number(n), false)),
    ensures
        n != 0 ==> eval_expr(
            ExprModel::Conditional(Box::new(cond), Box::new(ExprModel::Colon(Box::new(t1), Box::new(e1)))),
            consts,
            vars,
            aliases,
        ) == eval_expr(
            ExprModel::Conditional(Box::new(cond), Box::new(ExprModel::Colon(Box::new(t1), Box::new(e2)))),
            consts,
            vars,
            aliases,
        ),
        n != 0 ==> eval_expr(
            ExprModel::Conditional(Box::new(cond), Box::new(ExprModel::Colon(Box::new(t1), Box::new(e1)))),
            consts,
            vars,
            aliases,
        ) == eval_expr(t1, consts, o1.vars, aliases),
        n == 0 ==> eval_expr(
            ExprModel::Conditional(Box::new(cond), Box::new(ExprModel::Colon(Box::new(t1), Box::new(e1)))),
            consts,
            vars,
            aliases,
        ) == eval_expr(
            ExprModel::Conditional(Box::new(cond), Box::new(ExprModel::Colon(Box::new(t2), Box::new(e1)))),
            consts,
            vars,
            aliases,
        ),
        n == 0 ==> eval_expr(
            ExprModel::Conditional(Box::new(cond), Box::new(ExprModel::Colon(Box::new(t1), Box::new(e1)))),
            consts,
            vars,
            aliases,
        ) == eval_expr(e1, consts, o1.vars, aliases),
{
}

/// Nullish coalescing evaluates its fallback only when the primary is
/// null: a non-null primary is the whole value, and the outcome is then
/// independent of the fallback; a null primary hands the evaluation to
/// the fallback.
pub proof fn law_nullish_fallback_only_on_null(
    primary: ExprModel,
    f1: ExprModel,
    f2: ExprModel,
    pv: ValueModel,
    o1: EvalOut,
    consts: Map<Seq<char>, ValueModel>,
    vars: Map<Seq<char>, ValueModel>,
    aliases: Map<Seq<char>, Seq<char>>,
)
    requires
        eval_expr(primary, consts, vars, aliases) == Some(o1),
        o1.r == Ok::<(ValueModel, bool), ErrModel>((pv, false)),
    ensures
        pv != ValueModel::Null ==> eval_expr(
            ExprModel::NullishCoalescing(Box::new(primary), Box::new(f1)),
            consts,
            vars,
            aliases,
        ) == Some(EvalOut { r: Ok((pv, false)), vars: o1.vars }),
        pv != ValueModel::Null ==> eval_expr(
            ExprModel::NullishCoalescing(Box::new(primary), Box::new(f1)),
            consts,
            vars,
            aliases,
        ) == eval_expr(
            ExprModel::NullishCoalescing(Box::new(primary), Box::new(f2)),
            consts,
            vars,
            aliases,
        ),
        pv == ValueModel::Null ==> eval_expr(
            ExprModel::NullishCoalescing(Box::new(primary), Box::new(f1)),
            consts,
            vars,
            aliases,
        ) == eval_expr(f1, consts, o1.vars, aliases),
{
}

/// Assigning to a name that stands among the constants and not among
/// the variables fails with `NotAssignable`, naming the constant, and
/// leaves the variables untouched.
pub proof fn law_constants_are_not_assignable(
    n: Seq<char>,
    rv: ValueModel,
    consts: Map<Seq<char>, ValueModel>,
    vars: Map<Seq<char>, ValueModel>,
    aliases: Map<Seq<char>, Seq<char>>,
)
    requires
        !vars.contains_key(resolved(n, aliases)),
        consts.contains_key(resolved(n, aliases)),
    ensures
        eval_expr(
            ExprModel::Assignment(
                Box::new(var_ref(n)),
                Box::new(ExprModel::Literal(rv)),
            ),
            consts,
            vars,
            aliases,
        ) == Some(
            EvalOut {
                r: Err(ErrModel::NotAssignable("Constant "@ + resolved(n, aliases))),
                vars,
            },
        ),
{
    assert(eval_expr(ExprModel::Literal(rv), consts, vars, aliases) == Some(
        EvalOut { r: Ok((rv, false)), vars },
    ));
    let steps = seq![AccessExprModel::Name(n)];
    assert(steps.len() == 1 && steps[0] == AccessExprModel::Name(n));
}

/// Whether running the statements from position `k` falls off the end:
/// every remaining statement evaluates without an error, without an
/// early return and without reaching the host.
pub open spec fn falls_through(
    stmts: Seq<ExprModel>,
    k: int,
    consts: Map<Seq<char>, ValueModel>,
    vars: Map<Seq<char>, ValueModel>,
    aliases: Map<Seq<char>, Seq<char>>,
) -> bool
    decreases stmts.len() - k,
{
    if !(0 <= k <= stmts.len()) {
        arbitrary()
    } else if k >= stmts.len() {
        true
    } else {
        match eval_expr(stmts[k], consts, vars, aliases) {
            None => false,
            Some(o) => match o.r {
                Ok((_, false)) => falls_through(stmts, k + 1, consts, o.vars, aliases),
                _ => false,
            },
        }
    }
}

/// A statement standing after an early return or an error never runs:
/// whenever a statement sequence does not fall through to its end, one
/// more statement appended after it changes nothing about the block's
/// outcome.
pub proof fn law_nothing_runs_after_a_return(
    stmts: Seq<ExprModel>,
    extra: ExprModel,
    k: int,
    out: (Result<ValueModel, ErrModel>, Map<Seq<char>, ValueModel>),
    consts: Map<Seq<char>, ValueModel>,
    vars: Map<Seq<char>, ValueModel>,
    aliases: Map<Seq<char>, Seq<char>>,
)
    requires
        0 <= k <= stmts.len(),
        eval_stmts(stmts, k, consts, vars, aliases) == Some(out),
        !falls_through(stmts, k, consts, vars, aliases),
    ensures
        eval_stmts(stmts.push(extra), k, consts, vars, aliases) == Some(out),
    decreases stmts.len() - k,
{
    assert(stmts.push(extra).len() == stmts.len() + 1);
    if k < stmts.len() {
        assert(stmts.push(extra)[k] == stmts[k]);
        match eval_expr(stmts[k], consts, vars, aliases) {
            None => {},
            Some(o) => match o.r {
                Ok((_, false)) => {
                    law_nothing_runs_after_a_return(
                        stmts,
                        extra,
                        k + 1,
                        out,
                        consts,
                        o.vars,
                        aliases,
                    );
                },
                _ => {},
            },
        }
    }
}

} // verus!
