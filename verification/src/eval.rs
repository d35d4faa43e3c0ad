use vstd::math::abs;
use vstd::prelude::*;
use vstd::string::StringExecFns;
use vstd::wrapping::i64_specs;

use crate::ast::{expr_view, exprs_view, lemma_exprs_view, Expr, ExprV};
use crate::coin_manager::{CoinError, CoinType};
use crate::env::Env;
use crate::lexer::TokenTypes;
use crate::resource_validator::{
    costs_of, first_insufficient, CoinCost, ResourceValidator, ValidationError, ValidationErrorV,
};
use crate::text::{dec_digits, dec_int, i64_to_dec, usize_to_dec};

verus! {

/// The number of nested function calls one evaluation may make. The
/// evaluator reports an error instead of recursing past this depth.
pub const EVAL_FUEL: u64 = 1024;

/// The causes a runtime error can have.
pub enum RtErr {
    DivisionByZero,
    InvalidOperator,
    UndefinedFunction(Seq<char>),
    ArityMismatch { name: Seq<char>, expected: nat, got: nat },
    FunctionAsVariable(Seq<char>),
    NotANumber(Seq<char>),
    UndefinedVariable(Seq<char>),
    PrintUndefinedVariable(Seq<char>),
    DepthLimit,
}

/// The text each runtime error renders to.
pub open spec fn rt_message(e: RtErr) -> Seq<char> {
    match e {
        RtErr::DivisionByZero => "Division by zero"@,
        RtErr::InvalidOperator => "Invalid operator"@,
        RtErr::UndefinedFunction(name) => "Undefined function '"@ + name + "'"@,
        RtErr::ArityMismatch { name, expected, got } => "Function '"@ + name + "' expects "@
            + dec_digits(expected) + " arguments, got "@ + dec_digits(got),
        RtErr::FunctionAsVariable(name) => "Cannot use function '"@ + name
            + "' as a variable. Did you mean to call it with parentheses?"@,
        RtErr::NotANumber(name) => "Variable '"@ + name + "' is not a number"@,
        RtErr::UndefinedVariable(name) => "Undefined variable '"@ + name + "'"@,
        RtErr::PrintUndefinedVariable(name) => "Undefined variable: "@ + name,
        RtErr::DepthLimit => "Evaluation depth limit exceeded"@,
    }
}

/// What one evaluation leaves behind: its result, the environment after
/// it, and the lines it printed.
pub struct EvalOut {
    pub result: Result<i64, RtErr>,
    pub env: Map<Seq<char>, ExprV>,
    pub out: Seq<Seq<char>>,
}

/// What evaluating an argument list leaves behind.
pub struct ArgsOut {
    pub result: Result<Seq<i64>, RtErr>,
    pub env: Map<Seq<char>, ExprV>,
    pub out: Seq<Seq<char>>,
}

/// Truncating 64-bit division, the one overflowing quotient wrapping
/// around (the most negative value divided by minus one).
pub open spec fn div_trunc(a: i64, b: i64) -> i64 {
    let q: int = (abs(a as int) / abs(b as int)) as int;
    let signed: int = if (a < 0) != (b < 0) {
        -q
    } else {
        q
    };
    if signed > i64::MAX {
        i64::MIN
    } else {
        signed as i64
    }
}

/// One binary operator applied to two evaluated operands: wrapping
/// 64-bit arithmetic, truncating division, division by zero an error,
/// any other token an invariant violation.
pub open spec fn apply_op(op: TokenTypes, l: i64, r: i64) -> Result<i64, RtErr> {
    match op {
        TokenTypes::Plus => Ok(i64_specs::wrapping_add(l, r)),
        TokenTypes::Minus => Ok(i64_specs::wrapping_sub(l, r)),
        TokenTypes::Star => Ok(i64_specs::wrapping_mul(l, r)),
        TokenTypes::Slash => if r == 0 {
            Err(RtErr::DivisionByZero)
        } else {
            Ok(div_trunc(l, r))
        },
        _ => Err(RtErr::InvalidOperator),
    }
}

/// What a name denotes in numeric context: its number, or the error
/// that the binding's kind (or absence) causes.
pub open spec fn lookup_var(env: Map<Seq<char>, ExprV>, name: Seq<char>) -> Result<i64, RtErr> {
    if !env.dom().contains(name) {
        Err(RtErr::UndefinedVariable(name))
    } else {
        match env[name] {
            ExprV::Number(n) => Ok(n),
            ExprV::FnDef(_, _, _) => Err(RtErr::FunctionAsVariable(name)),
            _ => Err(RtErr::NotANumber(name)),
        }
    }
}

/// The callee frame: the snapshot with each parameter bound to its
/// argument value, left to right.
pub open spec fn bind_params(
    env: Map<Seq<char>, ExprV>,
    params: Seq<Seq<char>>,
    vals: Seq<i64>,
) -> Map<Seq<char>, ExprV>
    decreases params.len(),
{
    if params.len() == 0 || vals.len() == 0 {
        env
    } else {
        bind_params(
            env.insert(params[0], ExprV::Number(vals[0])),
            params.drop_first(),
            vals.drop_first(),
        )
    }
}

/// The evaluation relation: one expression against one environment,
/// with fuel bounding the depth of function calls.
pub open spec fn eval_expr(e: ExprV, env: Map<Seq<char>, ExprV>, fuel: nat) -> EvalOut
    decreases fuel, e,
{
    match e {
        ExprV::Number(n) => EvalOut { result: Ok(n), env, out: Seq::empty() },
        ExprV::StrLit(_) => EvalOut { result: Ok(0), env, out: Seq::empty() },
        ExprV::Binary(l, op, r) => {
            let lo = eval_expr(*l, env, fuel);
            match lo.result {
                Err(e1) => EvalOut { result: Err(e1), env: lo.env, out: lo.out },
                Ok(lval) => {
                    let ro = eval_expr(*r, lo.env, fuel);
                    match ro.result {
                        Err(e2) => EvalOut { result: Err(e2), env: ro.env, out: lo.out + ro.out },
                        Ok(rval) => EvalOut {
                            result: apply_op(op, lval, rval),
                            env: ro.env,
                            out: lo.out + ro.out,
                        },
                    }
                },
            }
        },
        ExprV::Let(name, v) => {
            let vo = eval_expr(*v, env, fuel);
            match vo.result {
                Err(e1) => EvalOut { result: Err(e1), env: vo.env, out: vo.out },
                Ok(val) => EvalOut {
                    result: Ok(val),
                    env: vo.env.insert(name, ExprV::Number(val)),
                    out: vo.out,
                },
            }
        },
        ExprV::FnDef(name, params, body) => EvalOut {
            result: Ok(0),
            env: env.insert(name, ExprV::FnDef(name, params, body)),
            out: Seq::empty(),
        },
        ExprV::Var(name) => EvalOut { result: lookup_var(env, name), env, out: Seq::empty() },
        ExprV::FnCall(name, args) => {
            if !env.dom().contains(name) {
                EvalOut { result: Err(RtErr::UndefinedFunction(name)), env, out: Seq::empty() }
            } else {
                match env[name] {
                    ExprV::FnDef(_, params, body) => {
                        if params.len() != args.len() {
                            EvalOut {
                                result: Err(
                                    RtErr::ArityMismatch {
                                        name,
                                        expected: params.len(),
                                        got: args.len(),
                                    },
                                ),
                                env,
                                out: Seq::empty(),
                            }
                        } else {
                            let ao = eval_args(args, env, fuel);
                            match ao.result {
                                Err(e1) => EvalOut { result: Err(e1), env: ao.env, out: ao.out },
                                Ok(vals) => {
                                    if fuel == 0 {
                                        EvalOut {
                                            result: Err(RtErr::DepthLimit),
                                            env: ao.env,
                                            out: ao.out,
                                        }
                                    } else {
                                        let bo = eval_expr(
                                            *body,
                                            bind_params(env, params, vals),
                                            (fuel - 1) as nat,
                                        );
                                        EvalOut {
                                            result: bo.result,
                                            env: ao.env,
                                            out: ao.out + bo.out,
                                        }
                                    }
                                },
                            }
                        }
                    },
                    _ => EvalOut {
                        result: Err(RtErr::UndefinedFunction(name)),
                        env,
                        out: Seq::empty(),
                    },
                }
            }
        },
        ExprV::Block(stmts) => eval_block(stmts, env, fuel, 0),
        ExprV::Print(inner) => {
            match *inner {
                ExprV::StrLit(s) => EvalOut { result: Ok(0), env, out: seq![s] },
                ExprV::Number(n) => EvalOut { result: Ok(0), env, out: seq![dec_int(n as int)] },
                ExprV::Var(name) => {
                    if env.dom().contains(name) && env[name] is Number {
                        EvalOut {
                            result: Ok(0),
                            env,
                            out: seq![dec_int(env[name]->Number_0 as int)],
                        }
                    } else {
                        EvalOut {
                            result: Err(RtErr::PrintUndefinedVariable(name)),
                            env,
                            out: Seq::empty(),
                        }
                    }
                },
                other => {
                    let io = eval_expr(other, env, fuel);
                    match io.result {
                        Err(e1) => EvalOut { result: Err(e1), env: io.env, out: io.out },
                        Ok(v) => EvalOut {
                            result: Ok(0),
                            env: io.env,
                            out: io.out + seq![dec_int(v as int)],
                        },
                    }
                },
            }
        },
    }
}

/// Argument lists evaluate left to right in the caller's environment,
/// threading it through, stopping at the first error.
pub open spec fn eval_args(args: Seq<ExprV>, env: Map<Seq<char>, ExprV>, fuel: nat) -> ArgsOut
    decreases fuel, args,
{
    if args.len() == 0 {
        ArgsOut { result: Ok(Seq::empty()), env, out: Seq::empty() }
    } else {
        let fo = eval_expr(args[0], env, fuel);
        match fo.result {
            Err(e1) => ArgsOut { result: Err(e1), env: fo.env, out: fo.out },
            Ok(v) => {
                let ro = eval_args(args.drop_first(), fo.env, fuel);
                match ro.result {
                    Err(e2) => ArgsOut { result: Err(e2), env: ro.env, out: fo.out + ro.out },
                    Ok(vs) => ArgsOut {
                        result: Ok(seq![v] + vs),
                        env: ro.env,
                        out: fo.out + ro.out,
                    },
                }
            },
        }
    }
}

/// A block evaluates its statements in order against the same
/// environment; its value is the last statement's (zero when empty).
pub open spec fn eval_block(
    stmts: Seq<ExprV>,
    env: Map<Seq<char>, ExprV>,
    fuel: nat,
    prev: i64,
) -> EvalOut
    decreases fuel, stmts,
{
    if stmts.len() == 0 {
        EvalOut { result: Ok(prev), env, out: Seq::empty() }
    } else {
        let fo = eval_expr(stmts[0], env, fuel);
        match fo.result {
            Err(e1) => EvalOut { result: Err(e1), env: fo.env, out: fo.out },
            Ok(v) => {
                let ro = eval_block(stmts.drop_first(), fo.env, fuel, v);
                EvalOut { result: ro.result, env: ro.env, out: fo.out + ro.out }
            },
        }
    }
}

/// How a run of evaluation changes the collected output: the lines
/// already there stay, the lines printed by the run follow them.
pub open spec fn output_extended(
    old_out: Seq<String>,
    new_out: Seq<String>,
    delta: Seq<Seq<char>>,
) -> bool {
    &&& new_out.len() == old_out.len() + delta.len()
    &&& forall|i: int| 0 <= i < old_out.len() ==> new_out[i] == old_out[i]
    &&& forall|i: int|
        0 <= i < delta.len() ==> (#[trigger] new_out[old_out.len() + i])@ == delta[i]
}

proof fn lemma_output_extended_trans(
    a: Seq<String>,
    b: Seq<String>,
    c: Seq<String>,
    d1: Seq<Seq<char>>,
    d2: Seq<Seq<char>>,
)
    requires
        output_extended(a, b, d1),
        output_extended(b, c, d2),
    ensures
        output_extended(a, c, d1 + d2),
{
    assert forall|i: int| 0 <= i < (d1 + d2).len() implies (#[trigger] c[a.len() + i])@ == (d1
        + d2)[i] by {
        if i < d1.len() {
            assert(c[a.len() + i] == b[a.len() + i]);
        } else {
            assert(c[a.len() + i] == c[b.len() + (i - d1.len())]);
        }
    }
}

/// Two fixed pieces of text around a name.
fn msg2(prefix: &str, name: &str, suffix: &str) -> (s: String)
    ensures
        s@ == prefix@ + name@ + suffix@,
{
    prefix.to_owned().concat(name).concat(suffix)
}

/// A fixed piece of text before a name.
fn msg1(prefix: &str, name: &str) -> (s: String)
    ensures
        s@ == prefix@ + name@,
{
    prefix.to_owned().concat(name)
}

fn arity_msg(name: &str, expected: usize, got: usize) -> (s: String)
    ensures
        s@ == rt_message(
            RtErr::ArityMismatch { name: name@, expected: expected as nat, got: got as nat },
        ),
{
    let e = usize_to_dec(expected);
    let g = usize_to_dec(got);
    "Function '".to_owned().concat(name).concat("' expects ").concat(e.as_str()).concat(
        " arguments, got ",
    ).concat(g.as_str())
}

/// One evaluation against the mutable environment, collecting printed
/// lines; fuel bounds the depth of function calls.
fn eval_rec(expr: &Expr, env: &mut Env, output: &mut Vec<String>, fuel: u64) -> (r: Result<
    i64,
    ValidationError,
>)
    ensures
        ({
            let o = eval_expr(expr_view(*expr), old(env)@, fuel as nat);
            &&& final(env)@ == o.env
            &&& output_extended(old(output)@, final(output)@, o.out)
            &&& match o.result {
                Ok(v) => r == Ok::<i64, ValidationError>(v),
                Err(se) => r matches Err(ve) && ve@ == ValidationErrorV::RuntimeError(
                    rt_message(se),
                ),
            }
        }),
    decreases fuel, *expr, 0int,
{
    match expr {
        Expr::Number(n) => Ok(*n),
        Expr::String(_) => Ok(0),
        Expr::Binary(lhs, op, rhs) => {
            let ghost out0 = output@;
            let lval = match eval_rec(&**lhs, env, output, fuel) {
                Ok(v) => v,
                Err(e) => {
                    return Err(e);
                },
            };
            let ghost out1 = output@;
            let rres = eval_rec(&**rhs, env, output, fuel);
            proof {
                let lo = eval_expr(expr_view(**lhs), old(env)@, fuel as nat);
                let ro = eval_expr(expr_view(**rhs), lo.env, fuel as nat);
                lemma_output_extended_trans(out0, out1, output@, lo.out, ro.out);
            }
            let rval = match rres {
                Ok(v) => v,
                Err(e) => {
                    return Err(e);
                },
            };
            match op {
                TokenTypes::Plus => Ok(lval.wrapping_add(rval)),
                TokenTypes::Minus => Ok(lval.wrapping_sub(rval)),
                TokenTypes::Star => Ok(lval.wrapping_mul(rval)),
                TokenTypes::Slash => {
                    if rval == 0 {
                        Err(ValidationError::RuntimeError("Division by zero".to_owned()))
                    } else {
                        Ok(div_trunc_exec(lval, rval))
                    }
                },
                _ => Err(ValidationError::RuntimeError("Invalid operator".to_owned())),
            }
        },
        Expr::Let(name, v) => {
            match eval_rec(&**v, env, output, fuel) {
                Err(e) => Err(e),
                Ok(val) => {
                    env.insert(name.clone(), Expr::Number(val));
                    Ok(val)
                },
            }
        },
        Expr::FnDef(name, _, _) => {
            let def = expr.clone();
            env.insert(name.clone(), def);
            Ok(0)
        },
        Expr::Var(name) => {
            match env.get(name.as_str()) {
                Some(e) => match e {
                    Expr::Number(n) => Ok(*n),
                    Expr::FnDef(_, _, _) => Err(
                        ValidationError::RuntimeError(
                            msg2(
                                "Cannot use function '",
                                name.as_str(),
                                "' as a variable. Did you mean to call it with parentheses?",
                            ),
                        ),
                    ),
                    _ => Err(
                        ValidationError::RuntimeError(
                            msg2("Variable '", name.as_str(), "' is not a number"),
                        ),
                    ),
                },
                None => Err(
                    ValidationError::RuntimeError(
                        msg2("Undefined variable '", name.as_str(), "'"),
                    ),
                ),
            }
        },
        Expr::FnCall(name, args) => {
            let func = match env.get(name.as_str()) {
                Some(e) => Some(e.clone()),
                None => None,
            };
            match func {
                Some(Expr::FnDef(_, params, body)) => {
                    proof {
                        assert(params.deep_view().len() == params@.len());
                        lemma_exprs_view(args@);
                    }
                    if params.len() != args.len() {
                        return Err(
                            ValidationError::RuntimeError(
                                arity_msg(name.as_str(), params.len(), args.len()),
                            ),
                        );
                    }
                    let mut local_env = env.clone();
                    let ghost out0 = output@;
                    let res = eval_args_bind(args, 0, &params, &mut local_env, env, output, fuel);
                    proof {
                        assert(exprs_view(args@).skip(0) =~= exprs_view(args@));
                        assert(params.deep_view().skip(0) =~= params.deep_view());
                    }
                    match res {
                        Err(e) => Err(e),
                        Ok(()) => {
                            if fuel == 0 {
                                return Err(
                                    ValidationError::RuntimeError(
                                        "Evaluation depth limit exceeded".to_owned(),
                                    ),
                                );
                            }
                            let ghost out1 = output@;
                            let r2 = eval_rec(&*body, &mut local_env, output, fuel - 1);
                            proof {
                                let ao = eval_args(exprs_view(args@), old(env)@, fuel as nat);
                                let bo = eval_expr(
                                    expr_view(*body),
                                    bind_params(old(env)@, params.deep_view(), ao.result->Ok_0),
                                    (fuel - 1) as nat,
                                );
                                lemma_output_extended_trans(out0, out1, output@, ao.out, bo.out);
                            }
                            r2
                        },
                    }
                },
                _ => Err(
                    ValidationError::RuntimeError(
                        msg2("Undefined function '", name.as_str(), "'"),
                    ),
                ),
            }
        },
        Expr::Block(stmts) => {
            let r = eval_block_rec(stmts, 0, 0, env, output, fuel);
            proof {
                assert(exprs_view(stmts@).skip(0) =~= exprs_view(stmts@));
            }
            r
        },
        Expr::Print(inner) => {
            match &**inner {
                Expr::String(s) => {
                    output.push(s.clone());
                    Ok(0)
                },
                Expr::Number(n) => {
                    output.push(i64_to_dec(*n));
                    Ok(0)
                },
                Expr::Var(name) => {
                    let bound: Option<i64> = match env.get(name.as_str()) {
                        Some(e) => match e {
                            Expr::Number(n) => Some(*n),
                            _ => None,
                        },
                        None => None,
                    };
                    match bound {
                        Some(n) => {
                            output.push(i64_to_dec(n));
                            Ok(0)
                        },
                        None => Err(
                            ValidationError::RuntimeError(
                                msg1("Undefined variable: ", name.as_str()),
                            ),
                        ),
                    }
                },
                other => {
                    let ghost out0 = output@;
                    match eval_rec(other, env, output, fuel) {
                        Err(e) => Err(e),
                        Ok(v) => {
                            let ghost out1 = output@;
                            output.push(i64_to_dec(v));
                            proof {
                                let io = eval_expr(expr_view(*other), old(env)@, fuel as nat);
                                lemma_output_extended_trans(
                                    out0,
                                    out1,
                                    output@,
                                    io.out,
                                    seq![dec_int(io.result->Ok_0 as int)],
                                );
                            }
                            Ok(0)
                        },
                    }
                },
            }
        },
    }
}

/// Evaluates the arguments from position idx on, in the caller's
/// environment, binding each parameter to its value in the callee frame.
fn eval_args_bind(
    args: &Vec<Expr>,
    idx: usize,
    params: &Vec<String>,
    local_env: &mut Env,
    env: &mut Env,
    output: &mut Vec<String>,
    fuel: u64,
) -> (r: Result<(), ValidationError>)
    requires
        idx <= args@.len(),
        params@.len() == args@.len(),
    ensures
        ({
            let ao = eval_args(exprs_view(args@).skip(idx as int), old(env)@, fuel as nat);
            &&& final(env)@ == ao.env
            &&& output_extended(old(output)@, final(output)@, ao.out)
            &&& match ao.result {
                Ok(vs) => r == Ok::<(), ValidationError>(()) && final(local_env)@ == bind_params(
                    old(local_env)@,
                    params.deep_view().skip(idx as int),
                    vs,
                ),
                Err(se) => r matches Err(ve) && ve@ == ValidationErrorV::RuntimeError(
                    rt_message(se),
                ),
            }
        }),
    decreases fuel, *args, args@.len() - idx,
{
    proof {
        lemma_exprs_view(args@);
        assert(params.deep_view().len() == params@.len());
    }
    if idx == args.len() {
        proof {
            assert(exprs_view(args@).skip(idx as int) =~= Seq::<ExprV>::empty());
            assert(params.deep_view().skip(idx as int) =~= Seq::<Seq<char>>::empty());
        }
        Ok(())
    } else {
        proof {
            assert(decreases_to!(*args => args@[idx as int]));
            assert(exprs_view(args@).skip(idx as int)[0] == expr_view(args@[idx as int]));
        }
        let ghost out0 = output@;
        match eval_rec(&args[idx], env, output, fuel) {
            Err(e) => Err(e),
            Ok(v) => {
                local_env.insert(params[idx].clone(), Expr::Number(v));
                let ghost out1 = output@;
                let ghost lenv1 = local_env@;
                let r2 = eval_args_bind(args, idx + 1, params, local_env, env, output, fuel);
                proof {
                    let fo = eval_expr(expr_view(args@[idx as int]), old(env)@, fuel as nat);
                    let ro = eval_args(
                        exprs_view(args@).skip(idx as int + 1),
                        fo.env,
                        fuel as nat,
                    );
                    assert(exprs_view(args@).skip(idx as int).drop_first() =~= exprs_view(
                        args@,
                    ).skip(idx as int + 1));
                    assert(params.deep_view().skip(idx as int)[0] == params@[idx as int]@);
                    assert(params.deep_view().skip(idx as int).drop_first() =~= params.deep_view()
                        .skip(idx as int + 1));
                    lemma_output_extended_trans(out0, out1, output@, fo.out, ro.out);
                    if ro.result is Ok {
                        let vs = ro.result->Ok_0;
                        assert((seq![v] + vs)[0] == v);
                        assert((seq![v] + vs).drop_first() =~= vs);
                    }
                }
                r2
            },
        }
    }
}

/// Evaluates the statements from position idx on, in order, against
/// the same environment; prev carries the value so far.
fn eval_block_rec(
    stmts: &Vec<Expr>,
    idx: usize,
    prev: i64,
    env: &mut Env,
    output: &mut Vec<String>,
    fuel: u64,
) -> (r: Result<i64, ValidationError>)
    requires
        idx <= stmts@.len(),
    ensures
        ({
            let o = eval_block(exprs_view(stmts@).skip(idx as int), old(env)@, fuel as nat, prev);
            &&& final(env)@ == o.env
            &&& output_extended(old(output)@, final(output)@, o.out)
            &&& match o.result {
                Ok(v) => r == Ok::<i64, ValidationError>(v),
                Err(se) => r matches Err(ve) && ve@ == ValidationErrorV::RuntimeError(
                    rt_message(se),
                ),
            }
        }),
    decreases fuel, *stmts, stmts@.len() - idx,
{
    proof {
        lemma_exprs_view(stmts@);
    }
    if idx == stmts.len() {
        proof {
            assert(exprs_view(stmts@).skip(idx as int) =~= Seq::<ExprV>::empty());
        }
        Ok(prev)
    } else {
        proof {
            assert(decreases_to!(*stmts => stmts@[idx as int]));
            assert(exprs_view(stmts@).skip(idx as int)[0] == expr_view(stmts@[idx as int]));
        }
        let ghost out0 = output@;
        match eval_rec(&stmts[idx], env, output, fuel) {
            Err(e) => Err(e),
            Ok(v) => {
                let ghost out1 = output@;
                let r2 = eval_block_rec(stmts, idx + 1, v, env, output, fuel);
                proof {
                    let fo = eval_expr(expr_view(stmts@[idx as int]), old(env)@, fuel as nat);
                    let ro = eval_block(
                        exprs_view(stmts@).skip(idx as int + 1),
                        fo.env,
                        fuel as nat,
                        v,
                    );
                    assert(exprs_view(stmts@).skip(idx as int).drop_first() =~= exprs_view(
                        stmts@,
                    ).skip(idx as int + 1));
                    lemma_output_extended_trans(out0, out1, output@, fo.out, ro.out);
                }
                r2
            },
        }
    }
}

/// Evaluates one statement against the session environment, appending
/// every printed line to the output vector.
pub fn eval_with_output(expr: &Expr, env: &mut Env, output: &mut Vec<String>) -> (r: Result<
    i64,
    ValidationError,
>)
    ensures
        ({
            let o = eval_expr(expr_view(*expr), old(env)@, EVAL_FUEL as nat);
            &&& final(env)@ == o.env
            &&& output_extended(old(output)@, final(output)@, o.out)
            &&& match o.result {
                Ok(v) => r == Ok::<i64, ValidationError>(v),
                Err(se) => r matches Err(ve) && ve@ == ValidationErrorV::RuntimeError(
                    rt_message(se),
                ),
            }
        }),
{
    eval_rec(expr, env, output, EVAL_FUEL)
}

/// Evaluates one statement against the session environment, discarding
/// printed lines.
pub fn eval(expr: &Expr, env: &mut Env) -> (r: Result<i64, ValidationError>)
    ensures
        ({
            let o = eval_expr(expr_view(*expr), old(env)@, EVAL_FUEL as nat);
            &&& final(env)@ == o.env
            &&& match o.result {
                Ok(v) => r == Ok::<i64, ValidationError>(v),
                Err(se) => r matches Err(ve) && ve@ == ValidationErrorV::RuntimeError(
                    rt_message(se),
                ),
            }
        }),
{
    let mut output: Vec<String> = Vec::new();
    eval_rec(expr, env, &mut output, EVAL_FUEL)
}

/// What spending a cost list, entry by entry and one unit at a time,
/// does to the two balances: each entry debits while its balance lasts;
/// the first unit that finds an empty balance stops everything, with no
/// rollback of what was already spent.
pub open spec fn spend_all_s(costs: Seq<CoinCost>, v: int, f: int) -> (Result<(), CoinError>, int, int)
    decreases costs.len(),
{
    if costs.len() == 0 {
        (Ok(()), v, f)
    } else {
        let c = costs[0];
        let bal: int = if c.coin_type == CoinType::Variable {
            v
        } else {
            f
        };
        if bal >= c.amt {
            if c.coin_type == CoinType::Variable {
                spend_all_s(costs.drop_first(), v - c.amt, f)
            } else {
                spend_all_s(costs.drop_first(), v, f - c.amt)
            }
        } else {
            let e = CoinError::InsufficientFunds {
                required: 1,
                available: 0,
                coin_type: c.coin_type,
            };
            if c.coin_type == CoinType::Variable {
                (Err(e), 0, f)
            } else {
                (Err(e), v, 0)
            }
        }
    }
}

/// The validate-then-spend-then-evaluate protocol: validation first,
/// reading only; then every cost entry is spent in order, one unit at a
/// time, with no rollback on failure; the evaluator runs only when all
/// spending succeeded.
pub fn eval_with_validation(
    expr: &Expr,
    validator: &mut ResourceValidator,
    env: &mut Env,
) -> (r: Result<(i64, Vec<String>), ValidationError>)
    ensures
        ({
            let costs = costs_of(expr_view(*expr));
            let m0 = old(validator).spec_coin_manager();
            let v0 = m0.spec_balance(CoinType::Variable) as int;
            let f0 = m0.spec_balance(CoinType::Function) as int;
            match first_insufficient(costs, m0) {
                Some(c) => {
                    &&& r matches Err(e) && e@ == ValidationErrorV::CoinError(
                        CoinError::InsufficientFunds {
                            required: c.amt,
                            available: m0.spec_balance(c.coin_type),
                            coin_type: c.coin_type,
                        },
                    )
                    &&& final(validator).spec_coin_manager() == m0
                    &&& final(env)@ == old(env)@
                },
                None => {
                    let spent = spend_all_s(costs, v0, f0);
                    &&& final(validator).spec_coin_manager().spec_balance(CoinType::Variable)
                        == spent.1
                    &&& final(validator).spec_coin_manager().spec_balance(CoinType::Function)
                        == spent.2
                    &&& match spent.0 {
                        Err(ce) => {
                            &&& r matches Err(e) && e@ == ValidationErrorV::CoinError(ce)
                            &&& final(env)@ == old(env)@
                        },
                        Ok(u) => {
                            let o = eval_expr(expr_view(*expr), old(env)@, EVAL_FUEL as nat);
                            &&& final(env)@ == o.env
                            &&& match o.result {
                                Ok(v) => r matches Ok(p) && p.0 == v && p.1@.len() == o.out.len()
                                    && (forall|i: int|
                                    0 <= i < o.out.len() ==> (#[trigger] p.1@[i])@ == o.out[i]),
                                Err(se) => r matches Err(e) && e@
                                    == ValidationErrorV::RuntimeError(rt_message(se)),
                            }
                        },
                    }
                },
            }
        }),
{
    let costs = match validator.validate_expression(expr) {
        Ok(c) => c,
        Err(e) => {
            return Err(e);
        },
    };

    let ghost v0 = validator.spec_coin_manager().spec_balance(CoinType::Variable) as int;
    let ghost f0 = validator.spec_coin_manager().spec_balance(CoinType::Function) as int;
    let n = costs.len();
    let mut i: usize = 0;
    proof {
        assert(costs@.skip(0) =~= costs@);
    }
    while i < n
        invariant
            i <= n,
            n == costs@.len(),
            costs@ == costs_of(expr_view(*expr)),
            first_insufficient(costs@, old(validator).spec_coin_manager()) is None,
            v0 == old(validator).spec_coin_manager().spec_balance(CoinType::Variable) as int,
            f0 == old(validator).spec_coin_manager().spec_balance(CoinType::Function) as int,
            spend_all_s(
                costs@.skip(i as int),
                validator.spec_coin_manager().spec_balance(CoinType::Variable) as int,
                validator.spec_coin_manager().spec_balance(CoinType::Function) as int,
            ) == spend_all_s(costs@, v0, f0),
        decreases n - i,
    {
        let cost = costs[i];
        proof {
            assert(costs@.skip(i as int)[0] == cost);
            assert(costs@.skip(i as int).drop_first() =~= costs@.skip(i + 1));
        }
        let ghost ve = validator.spec_coin_manager().spec_balance(CoinType::Variable) as int;
        let ghost fe = validator.spec_coin_manager().spec_balance(CoinType::Function) as int;
        match cost.coin_type {
            CoinType::Variable => {
                let mut j: u32 = 0;
                while j < cost.amt
                    invariant
                        j <= cost.amt,
                        j <= ve,
                        i < n,
                        n == costs@.len(),
                        cost == costs@[i as int],
                        cost.coin_type == CoinType::Variable,
                        costs@ == costs_of(expr_view(*expr)),
                        first_insufficient(costs@, old(validator).spec_coin_manager()) is None,
                        v0 == old(validator).spec_coin_manager().spec_balance(CoinType::Variable)
                            as int,
                        f0 == old(validator).spec_coin_manager().spec_balance(CoinType::Function)
                            as int,
                        spend_all_s(costs@.skip(i as int), ve, fe) == spend_all_s(costs@, v0, f0),
                        validator.spec_coin_manager().spec_balance(CoinType::Variable) as int == ve
                            - j,
                        validator.spec_coin_manager().spec_balance(CoinType::Function) as int
                            == fe,
                    decreases cost.amt - j,
                {
                    proof {
                        assert(costs@.skip(i as int)[0] == cost);
                    }
                    match validator.coin_manager_mut().spend_var_coin() {
                        Ok(u) => {},
                        Err(ce) => {
                            return Err(ValidationError::CoinError(ce));
                        },
                    }
                    j = j + 1;
                }
            },
            CoinType::Function => {
                let mut j: u32 = 0;
                while j < cost.amt
                    invariant
                        j <= cost.amt,
                        j <= fe,
                        i < n,
                        n == costs@.len(),
                        cost == costs@[i as int],
                        cost.coin_type == CoinType::Function,
                        costs@ == costs_of(expr_view(*expr)),
                        first_insufficient(costs@, old(validator).spec_coin_manager()) is None,
                        v0 == old(validator).spec_coin_manager().spec_balance(CoinType::Variable)
                            as int,
                        f0 == old(validator).spec_coin_manager().spec_balance(CoinType::Function)
                            as int,
                        spend_all_s(costs@.skip(i as int), ve, fe) == spend_all_s(costs@, v0, f0),
                        validator.spec_coin_manager().spec_balance(CoinType::Function) as int == fe
                            - j,
                        validator.spec_coin_manager().spec_balance(CoinType::Variable) as int
                            == ve,
                    decreases cost.amt - j,
                {
                    proof {
                        assert(costs@.skip(i as int)[0] == cost);
                    }
                    match validator.coin_manager_mut().spend_func_coin() {
                        Ok(u) => {},
                        Err(ce) => {
                            return Err(ValidationError::CoinError(ce));
                        },
                    }
                    j = j + 1;
                }
            },
        }
        i = i + 1;
    }
    proof {
        assert(costs@.skip(n as int) =~= Seq::<CoinCost>::empty());
    }

    let mut output: Vec<String> = Vec::new();
    let ghost out_before = output@;
    let result = match eval_rec(expr, env, &mut output, EVAL_FUEL) {
        Ok(v) => v,
        Err(e) => {
            return Err(e);
        },
    };
    proof {
        let o = eval_expr(expr_view(*expr), old(env)@, EVAL_FUEL as nat);
        assert(forall|i: int|
            0 <= i < o.out.len() ==> (#[trigger] output@[out_before.len() + i])@ == o.out[i]);
        assert(forall|i: int| 0 <= i < o.out.len() ==> (#[trigger] output@[i])@ == o.out[i]) by {
            assert(forall|i: int|
                0 <= i < o.out.len() ==> #[trigger] output@[i] == output@[out_before.len() + i]);
        }
    }
    Ok((result, output))
}

/// Snapshot scoping: a function call leaves the session environment
/// exactly as the argument evaluations left it. Whatever the body bound
/// in the callee frame — parameters, its own let bindings, even nested
/// definitions — never escapes back to the caller.
pub proof fn lemma_call_bindings_do_not_escape(
    name: Seq<char>,
    args: Seq<ExprV>,
    env: Map<Seq<char>, ExprV>,
    fuel: nat,
)
    ensures
        eval_expr(ExprV::FnCall(name, args), env, fuel).env == (
        if env.dom().contains(name) && (env[name] matches ExprV::FnDef(_, params, _)
            && params.len() == args.len()) {
            eval_args(args, env, fuel).env
        } else {
            env
        }),
{
    if env.dom().contains(name) {
        match env[name] {
            ExprV::FnDef(_, params, body) => {},
            _ => {},
        }
    }
}

/// The magnitude of a 64-bit signed value.
fn abs_mag(a: i64) -> (r: u64)
    ensures
        r == abs(a as int),
{
    if a >= 0 {
        a as u64
    } else {
        ((-(a + 1)) as u64) + 1
    }
}

/// Truncating division, computed on magnitudes.
pub fn div_trunc_exec(a: i64, b: i64) -> (r: i64)
    requires
        b != 0,
    ensures
        r == div_trunc(a, b),
{
    let neg = (a < 0) != (b < 0);
    let ua = abs_mag(a);
    let ub = abs_mag(b);
    let q = ua / ub;
    proof {
        assert(ua / ub <= ua) by (nonlinear_arith)
            requires
                ub >= 1,
        ;
    }
    if neg {
        if q == 0 {
            0
        } else {
            -((q - 1) as i64) - 1
        }
    } else {
        if q >= 9223372036854775808u64 {
            i64::MIN
        } else {
            q as i64
        }
    }
}

} // verus!
