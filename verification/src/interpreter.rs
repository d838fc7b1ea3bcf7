//! The evaluator: a tree walker dispatching on node kind.
//!
//! Evaluation is defined by `spec_eval` and implemented by `eval_env` /
//! `eval`, which are proved to follow it.  The walker threads the
//! process-outcome trace cursor through every step; after each block
//! statement it inspects the statement's value and, if it is a deferred
//! process, replays one run from the trace with the output discarded —
//! that is how bare command statements run.
//!
//! Decisions this module fixes where the surface behaviour leaves room:
//! a type literal is not a value and evaluates to a type mismatch; a call
//! whose argument count differs from the parameter count is a type
//! mismatch; arithmetic whose result falls outside the 64-bit signed
//! range, and division by zero, are conversion failures; an `if` branch
//! or infix operand evaluates against a snapshot of the environment, so
//! bindings it makes stay local to it; assignment re-runs the conversion
//! to the variable's declared type before storing.

use vstd::prelude::*;
use vstd::string::*;

use crate::ast::{AstNode, CommandToken, InfixVerb};
use crate::convert::{extends, lemma_convert_extend, lemma_run_extend, lemma_to_text_extend, run_proc, spec_convert, to_text, ConvRes, Converted, RunRes, TextRes};
use crate::display::{display_text, display_value};
use crate::env::{env_assign, env_lookup, env_lookup_fn, Env, EnvM, FnDecl, FnDeclM};
use crate::types::Type;
use crate::value::{
    lemma_field_models_index, lemma_models_index, outs_model, texts_model, EvalError, POut,
    ProcOutcome, ProcRequest, ReqM, ValM, Value,
};

verus! {

broadcast use vstd::seq::group_seq_axioms, vstd::std_specs::vec::group_vec_axioms, lemma_models_index, lemma_field_models_index;

// ------------------------------------------------------------------
// Spec: evaluation results

pub ghost enum EvalRes {
    /// A value, the environment after the node (only bindings,
    /// assignments and function definitions change it), and the trace
    /// cursor after any process runs.
    Done { v: ValM, env: EnvM, pos: nat },
    Fail { err: EvalError },
    Pending { req: ReqM },
    /// The fuel bound on call depth ran out; evaluate again with more.
    OutOfFuel,
}

pub ghost enum TextsEvalRes {
    Done { texts: Seq<Seq<char>>, pos: nat },
    Fail { err: EvalError },
    Pending { req: ReqM },
    OutOfFuel,
}

pub ghost enum ValsEvalRes {
    Done { vs: Seq<ValM>, pos: nat },
    Fail { err: EvalError },
    Pending { req: ReqM },
    OutOfFuel,
}

pub ghost enum FieldsEvalRes {
    Done { fs: Seq<(Seq<char>, ValM)>, pos: nat },
    Fail { err: EvalError },
    Pending { req: ReqM },
    OutOfFuel,
}

/// The environment a program starts in.
pub open spec fn empty_env() -> EnvM {
    EnvM { vars: Seq::empty(), fns: Seq::empty() }
}

/// All the texts concatenated, with nothing between them.
pub open spec fn concat_texts(ts: Seq<Seq<char>>) -> Seq<char>
    decreases ts.len(),
{
    if ts.len() == 0 {
        Seq::empty()
    } else {
        ts[0] + concat_texts(ts.drop_first())
    }
}

pub open spec fn abs_i(a: int) -> int {
    if a < 0 {
        -a
    } else {
        a
    }
}

/// Truncating division: magnitude quotient with the usual sign rule.
pub open spec fn trunc_div(a: int, b: int) -> int {
    if (a < 0) == (b < 0) {
        abs_i(a) / abs_i(b)
    } else {
        -(abs_i(a) / abs_i(b))
    }
}

/// The integer result of one arithmetic verb, before the range check;
/// `None` is a type mismatch or a division by zero.
pub open spec fn infix_value(verb: InfixVerb, a: int, b: int) -> Option<int> {
    match verb {
        InfixVerb::Plus => Option::Some(a + b),
        InfixVerb::Minus => Option::Some(a - b),
        InfixVerb::Times => Option::Some(a * b),
        InfixVerb::Divide => if b == 0 {
            Option::None
        } else {
            Option::Some(trunc_div(a, b))
        },
    }
}

/// Call-parameter bindings, positionally, oldest first.
pub open spec fn bind_params(params: Seq<(String, Type)>, vs: Seq<ValM>) -> Seq<
    (Seq<char>, Type, ValM),
> {
    Seq::new(params.len(), |i: int| (params[i].0@, params[i].1, vs[i]))
}

// ------------------------------------------------------------------
// Spec: the evaluator

/// Evaluation of one node against an environment, an outcome trace with
/// its cursor, and a fuel bound on user-function call depth.
pub open spec fn spec_eval(exp: AstNode, env: EnvM, tr: Seq<POut>, pos: nat, fuel: nat) -> EvalRes
    decreases fuel, exp, 0nat, 0nat,
{
    match exp {
        AstNode::Unit => EvalRes::Done { v: ValM::Unit, env, pos },
        AstNode::Integer(x) => EvalRes::Done { v: ValM::Int(x as int), env, pos },
        AstNode::Boolean(b) => EvalRes::Done { v: ValM::Bool(b), env, pos },
        AstNode::StringLiteral(s) => EvalRes::Done { v: ValM::Str(s@), env, pos },
        AstNode::Ident(name) => match env_lookup(env.vars, name@) {
            Option::Some((t, v)) => EvalRes::Done { v, env, pos },
            Option::None => EvalRes::Fail { err: EvalError::UnboundIdentifier },
        },
        AstNode::Type(_) => EvalRes::Fail { err: EvalError::TypeMismatch },
        AstNode::InfixExpr { verb, lhs, rhs } => match spec_eval(*lhs, env, tr, pos, fuel) {
            EvalRes::Done { v: v1, env: _, pos: p1 } => match spec_eval(*rhs, env, tr, p1, fuel) {
                EvalRes::Done { v: v2, env: _, pos: p2 } => match (v1, v2) {
                    (ValM::Int(a), ValM::Int(b)) => match infix_value(verb, a, b) {
                        Option::Some(x) => if i64::MIN <= x <= i64::MAX {
                            EvalRes::Done { v: ValM::Int(x), env, pos: p2 }
                        } else {
                            EvalRes::Fail { err: EvalError::ConversionFailure }
                        },
                        Option::None => EvalRes::Fail { err: EvalError::ConversionFailure },
                    },
                    _ => EvalRes::Fail { err: EvalError::TypeMismatch },
                },
                r => r,
            },
            r => r,
        },
        AstNode::QuoteString(parts) => match eval_parts(parts@, 0, env, tr, pos, fuel) {
            TextsEvalRes::Done { texts, pos: p } => EvalRes::Done {
                v: ValM::Str(concat_texts(texts)),
                env,
                pos: p,
            },
            TextsEvalRes::Fail { err } => EvalRes::Fail { err },
            TextsEvalRes::Pending { req } => EvalRes::Pending { req },
            TextsEvalRes::OutOfFuel => EvalRes::OutOfFuel,
        },
        AstNode::Command(toks) => if toks@.len() == 0 {
            EvalRes::Fail { err: EvalError::TypeMismatch }
        } else {
            match eval_tokens(toks@, 0, env, tr, pos, fuel) {
                TextsEvalRes::Done { texts, pos: p } => EvalRes::Done {
                    v: ValM::Process { program: texts[0], args: texts.drop_first() },
                    env,
                    pos: p,
                },
                TextsEvalRes::Fail { err } => EvalRes::Fail { err },
                TextsEvalRes::Pending { req } => EvalRes::Pending { req },
                TextsEvalRes::OutOfFuel => EvalRes::OutOfFuel,
            }
        },
        AstNode::Block(es) => match eval_stmts(es@, 0, ValM::Unit, env, tr, pos, fuel) {
            // the caller's environment is untouched: the block worked on a copy
            EvalRes::Done { v, env: _, pos: p } => EvalRes::Done { v, env, pos: p },
            r => r,
        },
        AstNode::Binding { ident, ty, expr } => match spec_eval(*expr, env, tr, pos, fuel) {
            EvalRes::Done { v, env: _, pos: p } => match spec_convert(v, ty, tr, p) {
                ConvRes::Done { v: cv, pos: p2 } => EvalRes::Done {
                    v: ValM::Unit,
                    env: EnvM { vars: env.vars.insert(0, (ident@, ty, cv)), fns: env.fns },
                    pos: p2,
                },
                ConvRes::Fail { err } => EvalRes::Fail { err },
                ConvRes::Pending { req } => EvalRes::Pending { req },
            },
            r => r,
        },
        AstNode::Assign { ident, expr } => match env_lookup(env.vars, ident@) {
            Option::None => EvalRes::Fail { err: EvalError::UnboundIdentifier },
            Option::Some((ty, _)) => match spec_eval(*expr, env, tr, pos, fuel) {
                // store only what converts to the declared type
                EvalRes::Done { v, env: _, pos: p } => match spec_convert(v, ty, tr, p) {
                    ConvRes::Done { v: cv, pos: p2 } => EvalRes::Done {
                        v: ValM::Unit,
                        env: EnvM { vars: env_assign(env.vars, ident@, cv), fns: env.fns },
                        pos: p2,
                    },
                    ConvRes::Fail { err } => EvalRes::Fail { err },
                    ConvRes::Pending { req } => EvalRes::Pending { req },
                },
                r => r,
            },
        },
        AstNode::Function { name, params, out, block } => EvalRes::Done {
            v: ValM::Unit,
            env: EnvM {
                vars: env.vars,
                fns: env.fns.insert(
                    0,
                    (name@, FnDeclM { params: params@, ret: out, body: *block }),
                ),
            },
            pos,
        },
        AstNode::IfThenElse { cond, t_block, f_block } => match spec_eval(*cond, env, tr, pos, fuel) {
            EvalRes::Done { v, env: _, pos: p } => match v {
                ValM::Bool(b) => {
                    let branch = if b {
                        spec_eval(*t_block, env, tr, p, fuel)
                    } else {
                        spec_eval(*f_block, env, tr, p, fuel)
                    };
                    match branch {
                        EvalRes::Done { v: bv, env: _, pos: p2 } => EvalRes::Done {
                            v: bv,
                            env,
                            pos: p2,
                        },
                        r => r,
                    }
                },
                _ => EvalRes::Fail { err: EvalError::TypeMismatch },
            },
            r => r,
        },
        AstNode::RecordValue(fields) => match eval_fields(fields@, 0, env, tr, pos, fuel) {
            FieldsEvalRes::Done { fs, pos: p } => EvalRes::Done { v: ValM::Record(fs), env, pos: p },
            FieldsEvalRes::Fail { err } => EvalRes::Fail { err },
            FieldsEvalRes::Pending { req } => EvalRes::Pending { req },
            FieldsEvalRes::OutOfFuel => EvalRes::OutOfFuel,
        },
        AstNode::Call { name, args } => if name@ == "display"@ && args@.len() == 1 {
            match spec_eval(args@[0], env, tr, pos, fuel) {
                EvalRes::Done { v, env: _, pos: p } => EvalRes::Done {
                    v: ValM::Str(display_text(v)),
                    env,
                    pos: p,
                },
                r => r,
            }
        } else {
            match env_lookup_fn(env.fns, name@) {
                Option::None => EvalRes::Fail { err: EvalError::UnboundFunction },
                Option::Some(d) => if args@.len() != d.params.len() {
                    EvalRes::Fail { err: EvalError::TypeMismatch }
                } else {
                    match eval_args(args@, 0, d.params, env, tr, pos, fuel) {
                        ValsEvalRes::Done { vs, pos: p } => if fuel == 0 {
                            EvalRes::OutOfFuel
                        } else {
                            let fn_env = EnvM { vars: bind_params(d.params, vs), fns: env.fns };
                            match spec_eval(d.body, fn_env, tr, p, (fuel - 1) as nat) {
                                EvalRes::Done { v: rv, env: _, pos: p2 } => match spec_convert(
                                    rv,
                                    d.ret,
                                    tr,
                                    p2,
                                ) {
                                    ConvRes::Done { v: cv, pos: p3 } => EvalRes::Done {
                                        v: cv,
                                        env,
                                        pos: p3,
                                    },
                                    ConvRes::Fail { err } => EvalRes::Fail { err },
                                    ConvRes::Pending { req } => EvalRes::Pending { req },
                                },
                                r => r,
                            }
                        },
                        ValsEvalRes::Fail { err } => EvalRes::Fail { err },
                        ValsEvalRes::Pending { req } => EvalRes::Pending { req },
                        ValsEvalRes::OutOfFuel => EvalRes::OutOfFuel,
                    }
                },
            }
        },
    }
}

/// The statements of a block from index `i` on, threading one mutable
/// environment.  `last` is the value of the newest statement already run:
/// the block's value is its last statement's, `unit` when it has none.
/// After each statement, a deferred-process value triggers one run with
/// the output discarded.
pub open spec fn eval_stmts(
    stmts: Seq<AstNode>,
    i: int,
    last: ValM,
    env: EnvM,
    tr: Seq<POut>,
    pos: nat,
    fuel: nat,
) -> EvalRes
    decreases fuel, stmts, 2nat, stmts.len() - i,
{
    if i < 0 || i >= stmts.len() {
        EvalRes::Done { v: last, env, pos }
    } else {
        match spec_eval(stmts[i], env, tr, pos, fuel) {
            EvalRes::Done { v, env: env2, pos: p } => match v {
                ValM::Process { program, args } => match run_proc(program, args, tr, p) {
                    RunRes::Out { text: _, pos: p2 } => eval_stmts(
                        stmts,
                        i + 1,
                        v,
                        env2,
                        tr,
                        p2,
                        fuel,
                    ),
                    RunRes::Fail { err } => EvalRes::Fail { err },
                    RunRes::Pending { req } => EvalRes::Pending { req },
                },
                _ => eval_stmts(stmts, i + 1, v, env2, tr, p, fuel),
            },
            r => r,
        }
    }
}

/// Quote-string or command-token parts from index `i` on, each evaluated
/// and converted to text.
pub open spec fn eval_parts(
    parts: Seq<AstNode>,
    i: int,
    env: EnvM,
    tr: Seq<POut>,
    pos: nat,
    fuel: nat,
) -> TextsEvalRes
    decreases fuel, parts, 2nat, parts.len() - i,
{
    if i < 0 || i >= parts.len() {
        TextsEvalRes::Done { texts: Seq::empty(), pos }
    } else {
        match spec_eval(parts[i], env, tr, pos, fuel) {
            EvalRes::Done { v, env: _, pos: p } => match to_text(v, tr, p) {
                TextRes::Done { text, pos: p2 } => match eval_parts(parts, i + 1, env, tr, p2, fuel) {
                    TextsEvalRes::Done { texts, pos: p3 } => TextsEvalRes::Done {
                        texts: texts.insert(0, text),
                        pos: p3,
                    },
                    r => r,
                },
                TextRes::Fail { err } => TextsEvalRes::Fail { err },
                TextRes::Pending { req } => TextsEvalRes::Pending { req },
            },
            EvalRes::Fail { err } => TextsEvalRes::Fail { err },
            EvalRes::Pending { req } => TextsEvalRes::Pending { req },
            EvalRes::OutOfFuel => TextsEvalRes::OutOfFuel,
        }
    }
}

/// Command tokens from index `i` on, each token's parts concatenated
/// into one argument string.
pub open spec fn eval_tokens(
    toks: Seq<CommandToken>,
    i: int,
    env: EnvM,
    tr: Seq<POut>,
    pos: nat,
    fuel: nat,
) -> TextsEvalRes
    decreases fuel, toks, 2nat, toks.len() - i,
{
    if i < 0 || i >= toks.len() {
        TextsEvalRes::Done { texts: Seq::empty(), pos }
    } else {
        match eval_parts(toks[i].0@, 0, env, tr, pos, fuel) {
            TextsEvalRes::Done { texts: parts, pos: p } => match eval_tokens(
                toks,
                i + 1,
                env,
                tr,
                p,
                fuel,
            ) {
                TextsEvalRes::Done { texts, pos: p2 } => TextsEvalRes::Done {
                    texts: texts.insert(0, concat_texts(parts)),
                    pos: p2,
                },
                r => r,
            },
            r => r,
        }
    }
}

/// Call arguments from index `i` on, each evaluated in the caller's
/// environment and converted to the matching parameter's declared type.
pub open spec fn eval_args(
    args: Seq<AstNode>,
    i: int,
    params: Seq<(String, Type)>,
    env: EnvM,
    tr: Seq<POut>,
    pos: nat,
    fuel: nat,
) -> ValsEvalRes
    decreases fuel, args, 2nat, args.len() - i,
{
    if i < 0 || i >= args.len() {
        ValsEvalRes::Done { vs: Seq::empty(), pos }
    } else {
        match spec_eval(args[i], env, tr, pos, fuel) {
            EvalRes::Done { v, env: _, pos: p } => match spec_convert(v, params[i].1, tr, p) {
                ConvRes::Done { v: cv, pos: p2 } => match eval_args(
                    args,
                    i + 1,
                    params,
                    env,
                    tr,
                    p2,
                    fuel,
                ) {
                    ValsEvalRes::Done { vs, pos: p3 } => ValsEvalRes::Done {
                        vs: vs.insert(0, cv),
                        pos: p3,
                    },
                    r => r,
                },
                ConvRes::Fail { err } => ValsEvalRes::Fail { err },
                ConvRes::Pending { req } => ValsEvalRes::Pending { req },
            },
            EvalRes::Fail { err } => ValsEvalRes::Fail { err },
            EvalRes::Pending { req } => ValsEvalRes::Pending { req },
            EvalRes::OutOfFuel => ValsEvalRes::OutOfFuel,
        }
    }
}

/// Record-literal fields from index `i` on, each expression evaluated in
/// order.
pub open spec fn eval_fields(
    fields: Seq<(String, AstNode)>,
    i: int,
    env: EnvM,
    tr: Seq<POut>,
    pos: nat,
    fuel: nat,
) -> FieldsEvalRes
    decreases fuel, fields, 2nat, fields.len() - i,
{
    if i < 0 || i >= fields.len() {
        FieldsEvalRes::Done { fs: Seq::empty(), pos }
    } else {
        match spec_eval(fields[i].1, env, tr, pos, fuel) {
            EvalRes::Done { v, env: _, pos: p } => match eval_fields(fields, i + 1, env, tr, p, fuel) {
                FieldsEvalRes::Done { fs, pos: p2 } => FieldsEvalRes::Done {
                    fs: fs.insert(0, (fields[i].0@, v)),
                    pos: p2,
                },
                r => r,
            },
            EvalRes::Fail { err } => FieldsEvalRes::Fail { err },
            EvalRes::Pending { req } => FieldsEvalRes::Pending { req },
            EvalRes::OutOfFuel => FieldsEvalRes::OutOfFuel,
        }
    }
}

/// A block never changes its caller's environment: whatever its
/// statements bind or assign lives in the block's own copy, so after the
/// block closes, an enclosing scope's lookup still sees what it saw
/// before.
pub proof fn lemma_block_keeps_caller_env(
    es: Vec<AstNode>,
    env: EnvM,
    tr: Seq<POut>,
    pos: nat,
    fuel: nat,
)
    ensures
        spec_eval(AstNode::Block(es), env, tr, pos, fuel) is Done ==> spec_eval(
            AstNode::Block(es),
            env,
            tr,
            pos,
            fuel,
        )->Done_env == env,
{
}


// ------------------------------------------------------------------
// Trace extension: settled results stand

/// Evaluation that settled against the trace — a value, an error, or
/// running out of fuel — settles the same way against any extension of
/// the trace.  This is what the driving loop relies on: it may re-run
/// the evaluator with one more outcome appended and every step already
/// taken comes out the same, so the new outcome is consumed exactly where
/// the previous round stopped.
pub proof fn lemma_eval_extend(
    exp: AstNode,
    env: EnvM,
    tr: Seq<POut>,
    tr2: Seq<POut>,
    pos: nat,
    fuel: nat,
)
    requires
        extends(tr2, tr),
    ensures
        !(spec_eval(exp, env, tr, pos, fuel) is Pending) ==> spec_eval(exp, env, tr2, pos, fuel)
            == spec_eval(exp, env, tr, pos, fuel),
    decreases fuel, exp, 0nat, 0nat,
{
    match exp {
        AstNode::InfixExpr { verb, lhs, rhs } => {
            lemma_eval_extend(*lhs, env, tr, tr2, pos, fuel);
            match spec_eval(*lhs, env, tr, pos, fuel) {
                EvalRes::Done { v: v1, env: _, pos: p1 } => {
                    lemma_eval_extend(*rhs, env, tr, tr2, p1, fuel);
                }
                _ => {}
            }
        }
        AstNode::QuoteString(parts) => {
            lemma_eval_parts_extend(parts@, 0, env, tr, tr2, pos, fuel);
        }
        AstNode::Command(toks) => {
            if toks@.len() > 0 {
                lemma_eval_tokens_extend(toks@, 0, env, tr, tr2, pos, fuel);
            }
        }
        AstNode::Block(es) => {
            lemma_eval_stmts_extend(es@, 0, ValM::Unit, env, tr, tr2, pos, fuel);
        }
        AstNode::Binding { ident, ty, expr } => {
            lemma_eval_extend(*expr, env, tr, tr2, pos, fuel);
            match spec_eval(*expr, env, tr, pos, fuel) {
                EvalRes::Done { v, env: _, pos: p } => {
                    lemma_convert_extend(v, ty, tr, tr2, p);
                }
                _ => {}
            }
        }
        AstNode::Assign { ident, expr } => {
            match env_lookup(env.vars, ident@) {
                Option::Some((ty, _)) => {
                    lemma_eval_extend(*expr, env, tr, tr2, pos, fuel);
                    match spec_eval(*expr, env, tr, pos, fuel) {
                        EvalRes::Done { v, env: _, pos: p } => {
                            lemma_convert_extend(v, ty, tr, tr2, p);
                        }
                        _ => {}
                    }
                }
                Option::None => {}
            }
        }
        AstNode::IfThenElse { cond, t_block, f_block } => {
            lemma_eval_extend(*cond, env, tr, tr2, pos, fuel);
            match spec_eval(*cond, env, tr, pos, fuel) {
                EvalRes::Done { v, env: _, pos: p } => {
                    lemma_eval_extend(*t_block, env, tr, tr2, p, fuel);
                    lemma_eval_extend(*f_block, env, tr, tr2, p, fuel);
                }
                _ => {}
            }
        }
        AstNode::RecordValue(fields) => {
            lemma_eval_fields_extend(fields@, 0, env, tr, tr2, pos, fuel);
        }
        AstNode::Call { name, args } => {
            if name@ == "display"@ && args@.len() == 1 {
                lemma_eval_extend(args@[0], env, tr, tr2, pos, fuel);
            } else {
                match env_lookup_fn(env.fns, name@) {
                    Option::Some(d) => {
                        if args@.len() == d.params.len() {
                            lemma_eval_args_extend(args@, 0, d.params, env, tr, tr2, pos, fuel);
                            match eval_args(args@, 0, d.params, env, tr, pos, fuel) {
                                ValsEvalRes::Done { vs, pos: p } => {
                                    if fuel > 0 {
                                        let fn_env = EnvM {
                                            vars: bind_params(d.params, vs),
                                            fns: env.fns,
                                        };
                                        lemma_eval_extend(
                                            d.body,
                                            fn_env,
                                            tr,
                                            tr2,
                                            p,
                                            (fuel - 1) as nat,
                                        );
                                        match spec_eval(d.body, fn_env, tr, p, (fuel - 1) as nat) {
                                            EvalRes::Done { v: rv, env: _, pos: p2 } => {
                                                lemma_convert_extend(rv, d.ret, tr, tr2, p2);
                                            }
                                            _ => {}
                                        }
                                    }
                                }
                                _ => {}
                            }
                        }
                    }
                    Option::None => {}
                }
            }
        }
        _ => {}
    }
}

proof fn lemma_eval_stmts_extend(
    stmts: Seq<AstNode>,
    i: int,
    last: ValM,
    env: EnvM,
    tr: Seq<POut>,
    tr2: Seq<POut>,
    pos: nat,
    fuel: nat,
)
    requires
        extends(tr2, tr),
    ensures
        !(eval_stmts(stmts, i, last, env, tr, pos, fuel) is Pending) ==> eval_stmts(
            stmts,
            i,
            last,
            env,
            tr2,
            pos,
            fuel,
        ) == eval_stmts(stmts, i, last, env, tr, pos, fuel),
    decreases fuel, stmts, 2nat, stmts.len() - i,
{
    if 0 <= i < stmts.len() {
        lemma_eval_extend(stmts[i], env, tr, tr2, pos, fuel);
        match spec_eval(stmts[i], env, tr, pos, fuel) {
            EvalRes::Done { v, env: env2, pos: p } => match v {
                ValM::Process { program, args } => {
                    lemma_run_extend(program, args, tr, tr2, p);
                    match run_proc(program, args, tr, p) {
                        RunRes::Out { text: _, pos: p2 } => {
                            lemma_eval_stmts_extend(stmts, i + 1, v, env2, tr, tr2, p2, fuel);
                        }
                        _ => {}
                    }
                }
                _ => {
                    lemma_eval_stmts_extend(stmts, i + 1, v, env2, tr, tr2, p, fuel);
                }
            },
            _ => {}
        }
    }
}

proof fn lemma_eval_parts_extend(
    parts: Seq<AstNode>,
    i: int,
    env: EnvM,
    tr: Seq<POut>,
    tr2: Seq<POut>,
    pos: nat,
    fuel: nat,
)
    requires
        extends(tr2, tr),
    ensures
        !(eval_parts(parts, i, env, tr, pos, fuel) is Pending) ==> eval_parts(
            parts,
            i,
            env,
            tr2,
            pos,
            fuel,
        ) == eval_parts(parts, i, env, tr, pos, fuel),
    decreases fuel, parts, 2nat, parts.len() - i,
{
    if 0 <= i < parts.len() {
        lemma_eval_extend(parts[i], env, tr, tr2, pos, fuel);
        match spec_eval(parts[i], env, tr, pos, fuel) {
            EvalRes::Done { v, env: _, pos: p } => {
                lemma_to_text_extend(v, tr, tr2, p);
                match to_text(v, tr, p) {
                    TextRes::Done { text, pos: p2 } => {
                        lemma_eval_parts_extend(parts, i + 1, env, tr, tr2, p2, fuel);
                    }
                    _ => {}
                }
            }
            _ => {}
        }
    }
}

proof fn lemma_eval_tokens_extend(
    toks: Seq<CommandToken>,
    i: int,
    env: EnvM,
    tr: Seq<POut>,
    tr2: Seq<POut>,
    pos: nat,
    fuel: nat,
)
    requires
        extends(tr2, tr),
    ensures
        !(eval_tokens(toks, i, env, tr, pos, fuel) is Pending) ==> eval_tokens(
            toks,
            i,
            env,
            tr2,
            pos,
            fuel,
        ) == eval_tokens(toks, i, env, tr, pos, fuel),
    decreases fuel, toks, 2nat, toks.len() - i,
{
    if 0 <= i < toks.len() {
        lemma_eval_parts_extend(toks[i].0@, 0, env, tr, tr2, pos, fuel);
        match eval_parts(toks[i].0@, 0, env, tr, pos, fuel) {
            TextsEvalRes::Done { texts, pos: p } => {
                lemma_eval_tokens_extend(toks, i + 1, env, tr, tr2, p, fuel);
            }
            _ => {}
        }
    }
}

proof fn lemma_eval_args_extend(
    args: Seq<AstNode>,
    i: int,
    params: Seq<(String, Type)>,
    env: EnvM,
    tr: Seq<POut>,
    tr2: Seq<POut>,
    pos: nat,
    fuel: nat,
)
    requires
        extends(tr2, tr),
    ensures
        !(eval_args(args, i, params, env, tr, pos, fuel) is Pending) ==> eval_args(
            args,
            i,
            params,
            env,
            tr2,
            pos,
            fuel,
        ) == eval_args(args, i, params, env, tr, pos, fuel),
    decreases fuel, args, 2nat, args.len() - i,
{
    if 0 <= i < args.len() {
        lemma_eval_extend(args[i], env, tr, tr2, pos, fuel);
        match spec_eval(args[i], env, tr, pos, fuel) {
            EvalRes::Done { v, env: _, pos: p } => {
                lemma_convert_extend(v, params[i].1, tr, tr2, p);
                match spec_convert(v, params[i].1, tr, p) {
                    ConvRes::Done { v: cv, pos: p2 } => {
                        lemma_eval_args_extend(args, i + 1, params, env, tr, tr2, p2, fuel);
                    }
                    _ => {}
                }
            }
            _ => {}
        }
    }
}

proof fn lemma_eval_fields_extend(
    fields: Seq<(String, AstNode)>,
    i: int,
    env: EnvM,
    tr: Seq<POut>,
    tr2: Seq<POut>,
    pos: nat,
    fuel: nat,
)
    requires
        extends(tr2, tr),
    ensures
        !(eval_fields(fields, i, env, tr, pos, fuel) is Pending) ==> eval_fields(
            fields,
            i,
            env,
            tr2,
            pos,
            fuel,
        ) == eval_fields(fields, i, env, tr, pos, fuel),
    decreases fuel, fields, 2nat, fields.len() - i,
{
    if 0 <= i < fields.len() {
        lemma_eval_extend(fields[i].1, env, tr, tr2, pos, fuel);
        match spec_eval(fields[i].1, env, tr, pos, fuel) {
            EvalRes::Done { v, env: _, pos: p } => {
                lemma_eval_fields_extend(fields, i + 1, env, tr, tr2, p, fuel);
            }
            _ => {}
        }
    }
}


// ------------------------------------------------------------------
// Fuel: a higher bound changes nothing that finished

/// Evaluation that did not run out of fuel gives the same result under
/// any higher fuel bound.  This is the other half of what the driving
/// loop relies on: after raising the bound it replays the same steps,
/// the same process requests included.
pub proof fn lemma_eval_fuel(
    exp: AstNode,
    env: EnvM,
    tr: Seq<POut>,
    pos: nat,
    fuel: nat,
    fuel2: nat,
)
    requires
        fuel <= fuel2,
    ensures
        !(spec_eval(exp, env, tr, pos, fuel) is OutOfFuel) ==> spec_eval(exp, env, tr, pos, fuel2)
            == spec_eval(exp, env, tr, pos, fuel),
    decreases fuel, exp, 0nat, 0nat,
{
    match exp {
        AstNode::InfixExpr { verb, lhs, rhs } => {
            lemma_eval_fuel(*lhs, env, tr, pos, fuel, fuel2);
            match spec_eval(*lhs, env, tr, pos, fuel) {
                EvalRes::Done { v: v1, env: _, pos: p1 } => {
                    lemma_eval_fuel(*rhs, env, tr, p1, fuel, fuel2);
                }
                _ => {}
            }
        }
        AstNode::QuoteString(parts) => {
            lemma_eval_parts_fuel(parts@, 0, env, tr, pos, fuel, fuel2);
        }
        AstNode::Command(toks) => {
            if toks@.len() > 0 {
                lemma_eval_tokens_fuel(toks@, 0, env, tr, pos, fuel, fuel2);
            }
        }
        AstNode::Block(es) => {
            lemma_eval_stmts_fuel(es@, 0, ValM::Unit, env, tr, pos, fuel, fuel2);
        }
        AstNode::Binding { ident, ty, expr } => {
            lemma_eval_fuel(*expr, env, tr, pos, fuel, fuel2);
        }
        AstNode::Assign { ident, expr } => {
            match env_lookup(env.vars, ident@) {
                Option::Some((ty, _)) => {
                    lemma_eval_fuel(*expr, env, tr, pos, fuel, fuel2);
                }
                Option::None => {}
            }
        }
        AstNode::IfThenElse { cond, t_block, f_block } => {
            lemma_eval_fuel(*cond, env, tr, pos, fuel, fuel2);
            match spec_eval(*cond, env, tr, pos, fuel) {
                EvalRes::Done { v, env: _, pos: p } => {
                    lemma_eval_fuel(*t_block, env, tr, p, fuel, fuel2);
                    lemma_eval_fuel(*f_block, env, tr, p, fuel, fuel2);
                }
                _ => {}
            }
        }
        AstNode::RecordValue(fields) => {
            lemma_eval_fields_fuel(fields@, 0, env, tr, pos, fuel, fuel2);
        }
        AstNode::Call { name, args } => {
            if name@ == "display"@ && args@.len() == 1 {
                lemma_eval_fuel(args@[0], env, tr, pos, fuel, fuel2);
            } else {
                match env_lookup_fn(env.fns, name@) {
                    Option::Some(d) => {
                        if args@.len() == d.params.len() {
                            lemma_eval_args_fuel(args@, 0, d.params, env, tr, pos, fuel, fuel2);
                            match eval_args(args@, 0, d.params, env, tr, pos, fuel) {
                                ValsEvalRes::Done { vs, pos: p } => {
                                    if fuel > 0 {
                                        let fn_env = EnvM {
                                            vars: bind_params(d.params, vs),
                                            fns: env.fns,
                                        };
                                        lemma_eval_fuel(
                                            d.body,
                                            fn_env,
                                            tr,
                                            p,
                                            (fuel - 1) as nat,
                                            (fuel2 - 1) as nat,
                                        );
                                    }
                                }
                                _ => {}
                            }
                        }
                    }
                    Option::None => {}
                }
            }
        }
        _ => {}
    }
}

proof fn lemma_eval_stmts_fuel(
    stmts: Seq<AstNode>,
    i: int,
    last: ValM,
    env: EnvM,
    tr: Seq<POut>,
    pos: nat,
    fuel: nat,
    fuel2: nat,
)
    requires
        fuel <= fuel2,
    ensures
        !(eval_stmts(stmts, i, last, env, tr, pos, fuel) is OutOfFuel) ==> eval_stmts(
            stmts,
            i,
            last,
            env,
            tr,
            pos,
            fuel2,
        ) == eval_stmts(stmts, i, last, env, tr, pos, fuel),
    decreases fuel, stmts, 2nat, stmts.len() - i,
{
    if 0 <= i < stmts.len() {
        lemma_eval_fuel(stmts[i], env, tr, pos, fuel, fuel2);
        match spec_eval(stmts[i], env, tr, pos, fuel) {
            EvalRes::Done { v, env: env2, pos: p } => match v {
                ValM::Process { program, args } => match run_proc(program, args, tr, p) {
                    RunRes::Out { text: _, pos: p2 } => {
                        lemma_eval_stmts_fuel(stmts, i + 1, v, env2, tr, p2, fuel, fuel2);
                    }
                    _ => {}
                },
                _ => {
                    lemma_eval_stmts_fuel(stmts, i + 1, v, env2, tr, p, fuel, fuel2);
                }
            },
            _ => {}
        }
    }
}

proof fn lemma_eval_parts_fuel(
    parts: Seq<AstNode>,
    i: int,
    env: EnvM,
    tr: Seq<POut>,
    pos: nat,
    fuel: nat,
    fuel2: nat,
)
    requires
        fuel <= fuel2,
    ensures
        !(eval_parts(parts, i, env, tr, pos, fuel) is OutOfFuel) ==> eval_parts(
            parts,
            i,
            env,
            tr,
            pos,
            fuel2,
        ) == eval_parts(parts, i, env, tr, pos, fuel),
    decreases fuel, parts, 2nat, parts.len() - i,
{
    if 0 <= i < parts.len() {
        lemma_eval_fuel(parts[i], env, tr, pos, fuel, fuel2);
        match spec_eval(parts[i], env, tr, pos, fuel) {
            EvalRes::Done { v, env: _, pos: p } => match to_text(v, tr, p) {
                TextRes::Done { text, pos: p2 } => {
                    lemma_eval_parts_fuel(parts, i + 1, env, tr, p2, fuel, fuel2);
                }
                _ => {}
            },
            _ => {}
        }
    }
}

proof fn lemma_eval_tokens_fuel(
    toks: Seq<CommandToken>,
    i: int,
    env: EnvM,
    tr: Seq<POut>,
    pos: nat,
    fuel: nat,
    fuel2: nat,
)
    requires
        fuel <= fuel2,
    ensures
        !(eval_tokens(toks, i, env, tr, pos, fuel) is OutOfFuel) ==> eval_tokens(
            toks,
            i,
            env,
            tr,
            pos,
            fuel2,
        ) == eval_tokens(toks, i, env, tr, pos, fuel),
    decreases fuel, toks, 2nat, toks.len() - i,
{
    if 0 <= i < toks.len() {
        lemma_eval_parts_fuel(toks[i].0@, 0, env, tr, pos, fuel, fuel2);
        match eval_parts(toks[i].0@, 0, env, tr, pos, fuel) {
            TextsEvalRes::Done { texts, pos: p } => {
                lemma_eval_tokens_fuel(toks, i + 1, env, tr, p, fuel, fuel2);
            }
            _ => {}
        }
    }
}

proof fn lemma_eval_args_fuel(
    args: Seq<AstNode>,
    i: int,
    params: Seq<(String, Type)>,
    env: EnvM,
    tr: Seq<POut>,
    pos: nat,
    fuel: nat,
    fuel2: nat,
)
    requires
        fuel <= fuel2,
    ensures
        !(eval_args(args, i, params, env, tr, pos, fuel) is OutOfFuel) ==> eval_args(
            args,
            i,
            params,
            env,
            tr,
            pos,
            fuel2,
        ) == eval_args(args, i, params, env, tr, pos, fuel),
    decreases fuel, args, 2nat, args.len() - i,
{
    if 0 <= i < args.len() {
        lemma_eval_fuel(args[i], env, tr, pos, fuel, fuel2);
        match spec_eval(args[i], env, tr, pos, fuel) {
            EvalRes::Done { v, env: _, pos: p } => match spec_convert(v, params[i].1, tr, p) {
                ConvRes::Done { v: cv, pos: p2 } => {
                    lemma_eval_args_fuel(args, i + 1, params, env, tr, p2, fuel, fuel2);
                }
                _ => {}
            },
            _ => {}
        }
    }
}

proof fn lemma_eval_fields_fuel(
    fields: Seq<(String, AstNode)>,
    i: int,
    env: EnvM,
    tr: Seq<POut>,
    pos: nat,
    fuel: nat,
    fuel2: nat,
)
    requires
        fuel <= fuel2,
    ensures
        !(eval_fields(fields, i, env, tr, pos, fuel) is OutOfFuel) ==> eval_fields(
            fields,
            i,
            env,
            tr,
            pos,
            fuel2,
        ) == eval_fields(fields, i, env, tr, pos, fuel),
    decreases fuel, fields, 2nat, fields.len() - i,
{
    if 0 <= i < fields.len() {
        lemma_eval_fuel(fields[i].1, env, tr, pos, fuel, fuel2);
        match spec_eval(fields[i].1, env, tr, pos, fuel) {
            EvalRes::Done { v, env: _, pos: p } => {
                lemma_eval_fields_fuel(fields, i + 1, env, tr, p, fuel, fuel2);
            }
            _ => {}
        }
    }
}

// ------------------------------------------------------------------
// Exec: outcomes

/// Result of running the evaluator.
pub enum EvalOutcome {
    Done(Value),
    Fail(EvalError),
    /// Evaluation needs the outcome of this process run appended to the
    /// trace before it can continue.
    Pending(ProcRequest),
    OutOfFuel,
}

pub open spec fn eval_matches(r: EvalOutcome, p: nat, c: EvalRes) -> bool {
    match c {
        EvalRes::Done { v, env, pos } => r is Done && r->Done_0.model() == v && p == pos,
        EvalRes::Fail { err } => r == EvalOutcome::Fail(err),
        EvalRes::Pending { req } => r is Pending && r->Pending_0.model() == req,
        EvalRes::OutOfFuel => r is OutOfFuel,
    }
}

enum PartsOut {
    Done(Vec<String>),
    Fail(EvalError),
    Pending(ProcRequest),
    OutOfFuel,
}

spec fn parts_matches(r: PartsOut, p: nat, c: TextsEvalRes) -> bool {
    match c {
        TextsEvalRes::Done { texts, pos } => r is Done && texts_model(r->Done_0@) == texts && p
            == pos,
        TextsEvalRes::Fail { err } => r == PartsOut::Fail(err),
        TextsEvalRes::Pending { req } => r is Pending && r->Pending_0.model() == req,
        TextsEvalRes::OutOfFuel => r is OutOfFuel,
    }
}

enum ArgsOut {
    Done(Vec<Value>),
    Fail(EvalError),
    Pending(ProcRequest),
    OutOfFuel,
}

spec fn args_matches(r: ArgsOut, p: nat, c: ValsEvalRes) -> bool {
    match c {
        ValsEvalRes::Done { vs, pos } => r is Done && Value::models(r->Done_0@) == vs && p == pos,
        ValsEvalRes::Fail { err } => r == ArgsOut::Fail(err),
        ValsEvalRes::Pending { req } => r is Pending && r->Pending_0.model() == req,
        ValsEvalRes::OutOfFuel => r is OutOfFuel,
    }
}

enum FldsOut {
    Done(Vec<(String, Value)>),
    Fail(EvalError),
    Pending(ProcRequest),
    OutOfFuel,
}

spec fn flds_matches(r: FldsOut, p: nat, c: FieldsEvalRes) -> bool {
    match c {
        FieldsEvalRes::Done { fs, pos } => r is Done && Value::field_models(r->Done_0@) == fs && p
            == pos,
        FieldsEvalRes::Fail { err } => r == FldsOut::Fail(err),
        FieldsEvalRes::Pending { req } => r is Pending && r->Pending_0.model() == req,
        FieldsEvalRes::OutOfFuel => r is OutOfFuel,
    }
}

// ------------------------------------------------------------------
// Exec: small helpers

/// A node that is not a binding, an assignment or a function definition
/// leaves the environment as it found it.
proof fn lemma_eval_env_unchanged(exp: AstNode, env: EnvM, tr: Seq<POut>, pos: nat, fuel: nat)
    requires
        !(exp is Binding),
        !(exp is Assign),
        !(exp is Function),
    ensures
        spec_eval(exp, env, tr, pos, fuel) is Done ==> spec_eval(exp, env, tr, pos, fuel)->Done_env
            == env,
{
    match exp {
        AstNode::Unit => {}
        AstNode::Integer(_) => {}
        AstNode::Boolean(_) => {}
        AstNode::StringLiteral(_) => {}
        AstNode::Ident(_) => {}
        AstNode::Type(_) => {}
        AstNode::InfixExpr { .. } => {}
        AstNode::QuoteString(_) => {}
        AstNode::Command(_) => {}
        AstNode::Block(_) => {}
        AstNode::IfThenElse { .. } => {}
        AstNode::RecordValue(_) => {}
        AstNode::Call { .. } => {}
        AstNode::Binding { .. } => {}
        AstNode::Assign { .. } => {}
        AstNode::Function { .. } => {}
    }
}

fn name_is_display(name: &String) -> (r: bool)
    ensures
        r == (name@ == "display"@),
{
    let d = "display".to_owned();
    name.eq(&d)
}

/// All the strings concatenated, with nothing between them.
fn concat_strings(v: &Vec<String>) -> (r: String)
    ensures
        r@ == concat_texts(texts_model(v@)),
{
    let ghost model = texts_model(v@);
    let mut r = String::new();
    let mut i: usize = 0;
    while i < v.len()
        invariant
            i <= v.len(),
            model == texts_model(v@),
            r@ == concat_texts(model.take(i as int)),
        decreases v.len() - i,
    {
        r.append(v[i].as_str());
        proof {
            lemma_concat_push(model.take(i as int), model[i as int]);
            assert(model.take(i as int).push(model[i as int]) =~= model.take(i as int + 1));
        }
        i = i + 1;
    }
    proof {
        assert(model.take(v@.len() as int) =~= model);
    }
    r
}

proof fn lemma_concat_push(ts: Seq<Seq<char>>, x: Seq<char>)
    ensures
        concat_texts(ts.push(x)) == concat_texts(ts) + x,
    decreases ts.len(),
{
    if ts.len() == 0 {
        assert(ts.push(x).drop_first() =~= Seq::<Seq<char>>::empty());
        assert(ts.push(x)[0] == x);
        assert(concat_texts(ts.push(x).drop_first()) =~= Seq::<char>::empty());
        assert(concat_texts(ts.push(x)) == ts.push(x)[0] + concat_texts(ts.push(x).drop_first()));
        assert(x + Seq::<char>::empty() =~= x);
        assert(concat_texts(ts) + x =~= x);
    } else {
        assert(ts.push(x).drop_first() =~= ts.drop_first().push(x));
        lemma_concat_push(ts.drop_first(), x);
        assert(concat_texts(ts.push(x)) =~= concat_texts(ts) + x);
    }
}

/// One arithmetic step on two integers.
fn apply_infix(verb: &InfixVerb, a: i64, b: i64) -> (r: EvalOutcome)
    ensures
        (match infix_value(*verb, a as int, b as int) {
            Option::Some(x) => if i64::MIN <= x <= i64::MAX {
                r is Done && r->Done_0.model() == ValM::Int(x)
            } else {
                r == EvalOutcome::Fail(EvalError::ConversionFailure)
            },
            Option::None => r == EvalOutcome::Fail(EvalError::ConversionFailure),
        }),
{
    match verb {
        InfixVerb::Plus => {
            let s: i128 = a as i128 + b as i128;
            if s < i64::MIN as i128 || s > i64::MAX as i128 {
                EvalOutcome::Fail(EvalError::ConversionFailure)
            } else {
                EvalOutcome::Done(Value::Int(s as i64))
            }
        }
        InfixVerb::Minus => {
            let s: i128 = a as i128 - b as i128;
            if s < i64::MIN as i128 || s > i64::MAX as i128 {
                EvalOutcome::Fail(EvalError::ConversionFailure)
            } else {
                EvalOutcome::Done(Value::Int(s as i64))
            }
        }
        InfixVerb::Times => {
            proof {
                assert((a as i128) * (b as i128) <= i128::MAX && (a as i128) * (b as i128)
                    >= i128::MIN) by (nonlinear_arith)
                    requires
                        -(0x8000_0000_0000_0000i128) <= a as i128 <= 0x7fff_ffff_ffff_ffffi128,
                        -(0x8000_0000_0000_0000i128) <= b as i128 <= 0x7fff_ffff_ffff_ffffi128,
                ;
            }
            let s: i128 = (a as i128) * (b as i128);
            if s < i64::MIN as i128 || s > i64::MAX as i128 {
                EvalOutcome::Fail(EvalError::ConversionFailure)
            } else {
                EvalOutcome::Done(Value::Int(s as i64))
            }
        }
        InfixVerb::Divide => {
            if b == 0 {
                return EvalOutcome::Fail(EvalError::ConversionFailure);
            }
            let neg_a = a < 0;
            let neg_b = b < 0;
            let ma: u64 = if a >= 0 {
                a as u64
            } else {
                ((-(a + 1)) as u64) + 1
            };
            let mb: u64 = if b >= 0 {
                b as u64
            } else {
                ((-(b + 1)) as u64) + 1
            };
            proof {
                assert(ma as int == abs_i(a as int));
                assert(mb as int == abs_i(b as int));
                vstd::arithmetic::div_mod::lemma_div_nonincreasing(ma as int, mb as int);
                vstd::arithmetic::div_mod::lemma_div_pos_is_pos(ma as int, mb as int);
            }
            let q: u64 = ma / mb;
            if neg_a == neg_b {
                if q > 0x7fff_ffff_ffff_ffffu64 {
                    EvalOutcome::Fail(EvalError::ConversionFailure)
                } else {
                    EvalOutcome::Done(Value::Int(q as i64))
                }
            } else {
                if q == 0x8000_0000_0000_0000u64 {
                    EvalOutcome::Done(Value::Int(i64::MIN))
                } else {
                    EvalOutcome::Done(Value::Int(-(q as i64)))
                }
            }
        }
    }
}

/// Successful argument evaluation yields one value per argument.
proof fn lemma_eval_args_len(
    args: Seq<AstNode>,
    i: int,
    params: Seq<(String, Type)>,
    env: EnvM,
    tr: Seq<POut>,
    pos: nat,
    fuel: nat,
)
    requires
        0 <= i <= args.len(),
    ensures
        eval_args(args, i, params, env, tr, pos, fuel) is Done ==> eval_args(
            args,
            i,
            params,
            env,
            tr,
            pos,
            fuel,
        )->Done_vs.len() == args.len() - i,
    decreases args.len() - i,
{
    if i < args.len() {
        match spec_eval(args[i], env, tr, pos, fuel) {
            EvalRes::Done { v, env: _, pos: p } => match spec_convert(v, params[i].1, tr, p) {
                ConvRes::Done { v: cv, pos: p2 } => {
                    lemma_eval_args_len(args, i + 1, params, env, tr, p2, fuel);
                }
                _ => {}
            },
            _ => {}
        }
    }
}

// ------------------------------------------------------------------
// Exec: the evaluator

/// Evaluate a whole program in an empty environment.
pub fn eval<'a>(exp: &'a AstNode, outcomes: &Vec<ProcOutcome>, fuel: u64) -> (r: EvalOutcome)
    ensures
        (match spec_eval(*exp, empty_env(), outs_model(outcomes@), 0, fuel as nat) {
            EvalRes::Done { v, env: _, pos: _ } => r is Done && r->Done_0.model() == v,
            EvalRes::Fail { err } => r == EvalOutcome::Fail(err),
            EvalRes::Pending { req } => r is Pending && r->Pending_0.model() == req,
            EvalRes::OutOfFuel => r is OutOfFuel,
        }),
{
    let env = Env::new();
    let mut pos: usize = 0;
    proof {
        assert(env@.vars =~= empty_env().vars);
        assert(env@.fns =~= empty_env().fns);
    }
    eval_env(exp, &env, outcomes, &mut pos, fuel)
}

/// Evaluate one node.  The environment is read, never changed: what a
/// naked binding, assignment or function definition would bind is
/// dropped with the local copy it lived in.
#[verifier::rlimit(100)]
pub fn eval_env<'a>(
    exp: &'a AstNode,
    env: &Env<'a>,
    outcomes: &Vec<ProcOutcome>,
    pos: &mut usize,
    fuel: u64,
) -> (r: EvalOutcome)
    ensures
        eval_matches(
            r,
            *final(pos) as nat,
            spec_eval(*exp, env@, outs_model(outcomes@), *old(pos) as nat, fuel as nat),
        ),
    decreases fuel, *exp, 3nat, 0nat,
{
    let ghost tr = outs_model(outcomes@);
    match exp {
        AstNode::Unit => EvalOutcome::Done(Value::Unit),
        AstNode::Integer(x) => EvalOutcome::Done(Value::Int(*x)),
        AstNode::Boolean(b) => EvalOutcome::Done(Value::Bool(*b)),
        AstNode::StringLiteral(s) => EvalOutcome::Done(Value::Str(s.clone())),
        AstNode::Ident(name) => match env.lookup(name) {
            Some(v) => EvalOutcome::Done(v),
            None => EvalOutcome::Fail(EvalError::UnboundIdentifier),
        },
        AstNode::Type(_) => EvalOutcome::Fail(EvalError::TypeMismatch),
        AstNode::InfixExpr { verb, lhs, rhs } => {
            proof {
                assert(decreases_to!(*exp => (*exp)->InfixExpr_lhs));
                assert(decreases_to!(*exp => (*exp)->InfixExpr_rhs));
            }
            match eval_env(lhs, env, outcomes, pos, fuel) {
                EvalOutcome::Done(v1) => match eval_env(rhs, env, outcomes, pos, fuel) {
                    EvalOutcome::Done(v2) => match (v1, v2) {
                        (Value::Int(a), Value::Int(b)) => apply_infix(verb, a, b),
                        (_, _) => EvalOutcome::Fail(EvalError::TypeMismatch),
                    },
                    r => r,
                },
                r => r,
            }
        }
        AstNode::QuoteString(parts) => {
            proof {
                assert(decreases_to!(*exp => (*exp)->QuoteString_0));
            }
            match eval_parts_exec(parts, 0, env, outcomes, pos, fuel) {
                PartsOut::Done(texts) => EvalOutcome::Done(Value::Str(concat_strings(&texts))),
                PartsOut::Fail(e) => EvalOutcome::Fail(e),
                PartsOut::Pending(q) => EvalOutcome::Pending(q),
                PartsOut::OutOfFuel => EvalOutcome::OutOfFuel,
            }
        }
        AstNode::Command(toks) => {
            if toks.len() == 0 {
                return EvalOutcome::Fail(EvalError::TypeMismatch);
            }
            proof {
                assert(decreases_to!(*exp => (*exp)->Command_0));
            }
            match eval_tokens_exec(toks, 0, env, outcomes, pos, fuel) {
                PartsOut::Done(mut texts) => {
                    let ghost spec_texts = texts_model(texts@);
                    let program = texts.remove(0);
                    proof {
                        assert(texts_model(texts@) =~= spec_texts.drop_first());
                    }
                    EvalOutcome::Done(Value::Process { program, args: texts })
                }
                PartsOut::Fail(e) => EvalOutcome::Fail(e),
                PartsOut::Pending(q) => EvalOutcome::Pending(q),
                PartsOut::OutOfFuel => EvalOutcome::OutOfFuel,
            }
        }
        AstNode::Block(es) => {
            proof {
                assert(decreases_to!(*exp => (*exp)->Block_0));
            }
            let mut block_env = env.duplicate();
            eval_block(es, 0, Value::Unit, &mut block_env, outcomes, pos, fuel)
        }
        AstNode::Binding { ident: _, ty, expr } => {
            proof {
                assert(decreases_to!(*exp => (*exp)->Binding_expr));
            }
            match eval_env(expr, env, outcomes, pos, fuel) {
                EvalOutcome::Done(v) => match v.convert(ty, outcomes, pos) {
                    Converted::Done(_) => EvalOutcome::Done(Value::Unit),
                    Converted::Fail(e) => EvalOutcome::Fail(e),
                    Converted::Pending(q) => EvalOutcome::Pending(q),
                },
                r => r,
            }
        }
        AstNode::Assign { ident, expr } => {
            proof {
                assert(decreases_to!(*exp => (*exp)->Assign_expr));
            }
            match env.lookup_type(ident) {
                None => EvalOutcome::Fail(EvalError::UnboundIdentifier),
                Some(ty) => match eval_env(expr, env, outcomes, pos, fuel) {
                    EvalOutcome::Done(v) => match v.convert(ty, outcomes, pos) {
                        Converted::Done(_) => EvalOutcome::Done(Value::Unit),
                        Converted::Fail(e) => EvalOutcome::Fail(e),
                        Converted::Pending(q) => EvalOutcome::Pending(q),
                    },
                    r => r,
                },
            }
        }
        AstNode::Function { .. } => EvalOutcome::Done(Value::Unit),
        AstNode::IfThenElse { cond, t_block, f_block } => {
            proof {
                assert(decreases_to!(*exp => (*exp)->IfThenElse_cond));
                assert(decreases_to!(*exp => (*exp)->IfThenElse_t_block));
                assert(decreases_to!(*exp => (*exp)->IfThenElse_f_block));
            }
            match eval_env(cond, env, outcomes, pos, fuel) {
                EvalOutcome::Done(v) => match v {
                    Value::Bool(b) => {
                        let r = if b {
                            eval_env(t_block, env, outcomes, pos, fuel)
                        } else {
                            eval_env(f_block, env, outcomes, pos, fuel)
                        };
                        r
                    }
                    _ => EvalOutcome::Fail(EvalError::TypeMismatch),
                },
                r => r,
            }
        }
        AstNode::RecordValue(fields) => {
            proof {
                assert(decreases_to!(*exp => (*exp)->RecordValue_0));
            }
            match eval_fields_exec(fields, 0, env, outcomes, pos, fuel) {
                FldsOut::Done(fs) => EvalOutcome::Done(Value::Record(fs)),
                FldsOut::Fail(e) => EvalOutcome::Fail(e),
                FldsOut::Pending(q) => EvalOutcome::Pending(q),
                FldsOut::OutOfFuel => EvalOutcome::OutOfFuel,
            }
        }
        AstNode::Call { name, args } => {
            proof {
                assert(decreases_to!(*exp => (*exp)->Call_args));
            }
            eval_call(name, args, env, outcomes, pos, fuel)
        }
    }
}
/// A call: the `display` builtin at one argument, or a user-defined
/// function applied positionally in a fresh scope that shares only the
/// function table.
#[verifier::rlimit(100)]
fn eval_call<'a>(
    name: &'a String,
    args: &'a Vec<AstNode>,
    env: &Env<'a>,
    outcomes: &Vec<ProcOutcome>,
    pos: &mut usize,
    fuel: u64,
) -> (r: EvalOutcome)
    ensures
        eval_matches(
            r,
            *final(pos) as nat,
            spec_eval(
                AstNode::Call { name: *name, args: *args },
                env@,
                outs_model(outcomes@),
                *old(pos) as nat,
                fuel as nat,
            ),
        ),
    decreases fuel, *args, 9nat, 0nat,
{
    let ghost tr = outs_model(outcomes@);
    if name_is_display(name) && args.len() == 1 {
        proof {
            assert(decreases_to!(*args => args@));
            assert(decreases_to!(args@ => args@[0]));
        }
        match eval_env(&args[0], env, outcomes, pos, fuel) {
            EvalOutcome::Done(v) => EvalOutcome::Done(Value::Str(display_value(&v))),
            r => r,
        }
    } else {
        match env.lookup_function(name) {
            None => EvalOutcome::Fail(EvalError::UnboundFunction),
            Some(d) => {
                if args.len() != d.params.len() {
                    return EvalOutcome::Fail(EvalError::TypeMismatch);
                }
                match eval_args_exec(args, 0, d.params, env, outcomes, pos, fuel) {
                    ArgsOut::Done(vs) => {
                        if fuel == 0 {
                            return EvalOutcome::OutOfFuel;
                        }
                        proof {
                            lemma_eval_args_len(
                                args@,
                                0,
                                d.params@,
                                env@,
                                tr,
                                *old(pos) as nat,
                                fuel as nat,
                            );
                        }
                        let mut fn_env = env.call_scope();
                        let mut i: usize = 0;
                        while i < vs.len()
                            invariant
                                i <= vs.len(),
                                vs@.len() == d.params@.len(),
                                fn_env@.fns == env@.fns,
                                fn_env@.vars =~= bind_params(
                                    d.params@.take(i as int),
                                    Value::models(vs@).take(i as int),
                                ),
                            decreases vs.len() - i,
                        {
                            fn_env.push_binding(&d.params[i].0, &d.params[i].1, vs[i].duplicate());
                            proof {
                                assert(fn_env@.vars =~= bind_params(
                                    d.params@.take(i as int + 1),
                                    Value::models(vs@).take(i as int + 1),
                                ));
                            }
                            i = i + 1;
                        }
                        proof {
                            assert(d.params@.take(vs@.len() as int) =~= d.params@);
                            assert(Value::models(vs@).take(vs@.len() as int) =~= Value::models(
                                vs@,
                            ));
                            assert(fn_env@.vars =~= bind_params(d.params@, Value::models(vs@)));
                        }
                        match eval_env(d.body, &fn_env, outcomes, pos, fuel - 1) {
                            EvalOutcome::Done(rv) => match rv.convert(d.ret, outcomes, pos) {
                                Converted::Done(cv) => EvalOutcome::Done(cv),
                                Converted::Fail(e) => EvalOutcome::Fail(e),
                                Converted::Pending(q) => EvalOutcome::Pending(q),
                            },
                            r => r,
                        }
                    }
                    ArgsOut::Fail(e) => EvalOutcome::Fail(e),
                    ArgsOut::Pending(q) => EvalOutcome::Pending(q),
                    ArgsOut::OutOfFuel => EvalOutcome::OutOfFuel,
                }
            }
        }
    }
}

/// One block statement: bindings, assignments and function definitions
/// change the block's environment; everything else evaluates normally.
fn eval_stmt<'a>(
    stmt: &'a AstNode,
    env: &mut Env<'a>,
    outcomes: &Vec<ProcOutcome>,
    pos: &mut usize,
    fuel: u64,
) -> (r: EvalOutcome)
    ensures
        eval_matches(
            r,
            *final(pos) as nat,
            spec_eval(*stmt, old(env)@, outs_model(outcomes@), *old(pos) as nat, fuel as nat),
        ),
        spec_eval(*stmt, old(env)@, outs_model(outcomes@), *old(pos) as nat, fuel as nat) is Done
            ==> final(env)@ == spec_eval(
            *stmt,
            old(env)@,
            outs_model(outcomes@),
            *old(pos) as nat,
            fuel as nat,
        )->Done_env,
    decreases fuel, *stmt, 4nat, 0nat,
{
    let ghost tr = outs_model(outcomes@);
    match stmt {
        AstNode::Binding { ident, ty, expr } => {
            proof {
                assert(decreases_to!(*stmt => (*stmt)->Binding_expr));
            }
            match eval_env(expr, env, outcomes, pos, fuel) {
                EvalOutcome::Done(v) => match v.convert(ty, outcomes, pos) {
                    Converted::Done(cv) => {
                        env.bind(ident, ty, cv);
                        EvalOutcome::Done(Value::Unit)
                    }
                    Converted::Fail(e) => EvalOutcome::Fail(e),
                    Converted::Pending(q) => EvalOutcome::Pending(q),
                },
                r => r,
            }
        }
        AstNode::Assign { ident, expr } => {
            proof {
                assert(decreases_to!(*stmt => (*stmt)->Assign_expr));
            }
            match env.lookup_type(ident) {
                None => EvalOutcome::Fail(EvalError::UnboundIdentifier),
                Some(ty) => match eval_env(expr, env, outcomes, pos, fuel) {
                    EvalOutcome::Done(v) => match v.convert(ty, outcomes, pos) {
                        Converted::Done(cv) => {
                            let asg = env.assign(ident, cv);
                            proof {
                                assert(asg is Ok);
                            }
                            EvalOutcome::Done(Value::Unit)
                        }
                        Converted::Fail(e) => EvalOutcome::Fail(e),
                        Converted::Pending(q) => EvalOutcome::Pending(q),
                    },
                    r => r,
                },
            }
        }
        AstNode::Function { name, params, out, block } => {
            env.define_function(name, FnDecl { params, ret: out, body: block });
            EvalOutcome::Done(Value::Unit)
        }
        _ => {
            proof {
                lemma_eval_env_unchanged(*stmt, old(env)@, tr, *old(pos) as nat, fuel as nat);
            }
            eval_env(stmt, env, outcomes, pos, fuel)
        }
    }
}

/// The statements of a block from index `i` on, with the deferred-process
/// statement effect after each one.
fn eval_block<'a>(
    stmts: &'a Vec<AstNode>,
    i: usize,
    last: Value,
    env: &mut Env<'a>,
    outcomes: &Vec<ProcOutcome>,
    pos: &mut usize,
    fuel: u64,
) -> (r: EvalOutcome)
    requires
        i <= stmts@.len(),
    ensures
        eval_matches(
            r,
            *final(pos) as nat,
            eval_stmts(
                stmts@,
                i as int,
                last.model(),
                old(env)@,
                outs_model(outcomes@),
                *old(pos) as nat,
                fuel as nat,
            ),
        ),
    decreases fuel, *stmts, 5nat, stmts@.len() - i,
{
    let ghost tr = outs_model(outcomes@);
    if i == stmts.len() {
        EvalOutcome::Done(last)
    } else {
        proof {
            assert(decreases_to!(*stmts => stmts@));
            assert(decreases_to!(stmts@ => stmts@[i as int]));
        }
        match eval_stmt(&stmts[i], env, outcomes, pos, fuel) {
            EvalOutcome::Done(v) => {
                match &v {
                    Value::Process { program, args } => {
                        match crate::convert::replay_run(program, args, outcomes, pos) {
                            crate::convert::Replay::Out(_) => eval_block(
                                stmts,
                                i + 1,
                                v,
                                env,
                                outcomes,
                                pos,
                                fuel,
                            ),
                            crate::convert::Replay::Fail(e) => EvalOutcome::Fail(e),
                            crate::convert::Replay::Pending(q) => EvalOutcome::Pending(q),
                        }
                    }
                    _ => eval_block(stmts, i + 1, v, env, outcomes, pos, fuel),
                }
            }
            r => r,
        }
    }
}

/// Quote-string or command-token parts from index `i` on.
fn eval_parts_exec<'a>(
    parts: &'a Vec<AstNode>,
    i: usize,
    env: &Env<'a>,
    outcomes: &Vec<ProcOutcome>,
    pos: &mut usize,
    fuel: u64,
) -> (r: PartsOut)
    requires
        i <= parts@.len(),
    ensures
        parts_matches(
            r,
            *final(pos) as nat,
            eval_parts(parts@, i as int, env@, outs_model(outcomes@), *old(pos) as nat, fuel as nat),
        ),
    decreases fuel, *parts, 5nat, parts@.len() - i,
{
    if i == parts.len() {
        let empty_texts: Vec<String> = Vec::new();
        proof {
            assert(texts_model(empty_texts@) =~= Seq::<Seq<char>>::empty());
        }
        PartsOut::Done(empty_texts)
    } else {
        proof {
            assert(decreases_to!(*parts => parts@));
            assert(decreases_to!(parts@ => parts@[i as int]));
        }
        match eval_env(&parts[i], env, outcomes, pos, fuel) {
            EvalOutcome::Done(v) => match crate::convert::to_text_value(&v, outcomes, pos) {
                crate::convert::TextOut::Done(text) => {
                    match eval_parts_exec(parts, i + 1, env, outcomes, pos, fuel) {
                        PartsOut::Done(mut texts) => {
                            let ghost before = texts_model(texts@);
                            texts.insert(0, text);
                            proof {
                                assert(texts_model(texts@) =~= before.insert(0, text@));
                            }
                            PartsOut::Done(texts)
                        }
                        r => r,
                    }
                }
                crate::convert::TextOut::Fail(e) => PartsOut::Fail(e),
                crate::convert::TextOut::Pending(q) => PartsOut::Pending(q),
            },
            EvalOutcome::Fail(e) => PartsOut::Fail(e),
            EvalOutcome::Pending(q) => PartsOut::Pending(q),
            EvalOutcome::OutOfFuel => PartsOut::OutOfFuel,
        }
    }
}

/// Command tokens from index `i` on.
fn eval_tokens_exec<'a>(
    toks: &'a Vec<CommandToken>,
    i: usize,
    env: &Env<'a>,
    outcomes: &Vec<ProcOutcome>,
    pos: &mut usize,
    fuel: u64,
) -> (r: PartsOut)
    requires
        i <= toks@.len(),
    ensures
        parts_matches(
            r,
            *final(pos) as nat,
            eval_tokens(toks@, i as int, env@, outs_model(outcomes@), *old(pos) as nat, fuel as nat),
        ),
    decreases fuel, *toks, 6nat, toks@.len() - i,
{
    if i == toks.len() {
        let empty_texts: Vec<String> = Vec::new();
        proof {
            assert(texts_model(empty_texts@) =~= Seq::<Seq<char>>::empty());
        }
        PartsOut::Done(empty_texts)
    } else {
        proof {
            assert(decreases_to!(*toks => toks@));
            assert(decreases_to!(toks@ => toks@[i as int]));
            assert(decreases_to!(toks@[i as int] => toks@[i as int].0));
        }
        match eval_parts_exec(&toks[i].0, 0, env, outcomes, pos, fuel) {
            PartsOut::Done(parts) => {
                let tok = concat_strings(&parts);
                match eval_tokens_exec(toks, i + 1, env, outcomes, pos, fuel) {
                    PartsOut::Done(mut texts) => {
                        let ghost before = texts_model(texts@);
                        texts.insert(0, tok);
                        proof {
                            assert(texts_model(texts@) =~= before.insert(0, tok@));
                        }
                        PartsOut::Done(texts)
                    }
                    r => r,
                }
            }
            r => r,
        }
    }
}

/// Call arguments from index `i` on, converted to the parameters' types.
fn eval_args_exec<'a>(
    args: &'a Vec<AstNode>,
    i: usize,
    params: &'a Vec<(String, Type)>,
    env: &Env<'a>,
    outcomes: &Vec<ProcOutcome>,
    pos: &mut usize,
    fuel: u64,
) -> (r: ArgsOut)
    requires
        i <= args@.len(),
        args@.len() == params@.len(),
    ensures
        args_matches(
            r,
            *final(pos) as nat,
            eval_args(
                args@,
                i as int,
                params@,
                env@,
                outs_model(outcomes@),
                *old(pos) as nat,
                fuel as nat,
            ),
        ),
    decreases fuel, *args, 5nat, args@.len() - i,
{
    if i == args.len() {
        let empty_vals: Vec<Value> = Vec::new();
        proof {
            assert(Value::models(empty_vals@) =~= Seq::<ValM>::empty());
        }
        ArgsOut::Done(empty_vals)
    } else {
        proof {
            assert(decreases_to!(*args => args@));
            assert(decreases_to!(args@ => args@[i as int]));
        }
        match eval_env(&args[i], env, outcomes, pos, fuel) {
            EvalOutcome::Done(v) => match v.convert(&params[i].1, outcomes, pos) {
                Converted::Done(cv) => match eval_args_exec(
                    args,
                    i + 1,
                    params,
                    env,
                    outcomes,
                    pos,
                    fuel,
                ) {
                    ArgsOut::Done(mut vs) => {
                        let ghost before = Value::models(vs@);
                        let ghost cv_m = cv.model();
                        vs.insert(0, cv);
                        proof {
                            assert(Value::models(vs@) =~= before.insert(0, cv_m));
                        }
                        ArgsOut::Done(vs)
                    }
                    r => r,
                },
                Converted::Fail(e) => ArgsOut::Fail(e),
                Converted::Pending(q) => ArgsOut::Pending(q),
            },
            EvalOutcome::Fail(e) => ArgsOut::Fail(e),
            EvalOutcome::Pending(q) => ArgsOut::Pending(q),
            EvalOutcome::OutOfFuel => ArgsOut::OutOfFuel,
        }
    }
}

/// Record-literal fields from index `i` on.
fn eval_fields_exec<'a>(
    fields: &'a Vec<(String, AstNode)>,
    i: usize,
    env: &Env<'a>,
    outcomes: &Vec<ProcOutcome>,
    pos: &mut usize,
    fuel: u64,
) -> (r: FldsOut)
    requires
        i <= fields@.len(),
    ensures
        flds_matches(
            r,
            *final(pos) as nat,
            eval_fields(
                fields@,
                i as int,
                env@,
                outs_model(outcomes@),
                *old(pos) as nat,
                fuel as nat,
            ),
        ),
    decreases fuel, *fields, 5nat, fields@.len() - i,
{
    if i == fields.len() {
        let empty_fields: Vec<(String, Value)> = Vec::new();
        proof {
            assert(Value::field_models(empty_fields@) =~= Seq::<(Seq<char>, ValM)>::empty());
        }
        FldsOut::Done(empty_fields)
    } else {
        proof {
            assert(decreases_to!(*fields => fields@));
            assert(decreases_to!(fields@ => fields@[i as int]));
        }
        let (name, e) = &fields[i];
        match eval_env(e, env, outcomes, pos, fuel) {
            EvalOutcome::Done(v) => match eval_fields_exec(fields, i + 1, env, outcomes, pos, fuel) {
                FldsOut::Done(mut fs) => {
                    let ghost before = Value::field_models(fs@);
                    let ghost v_m = v.model();
                    fs.insert(0, (name.clone(), v));
                    proof {
                        assert(Value::field_models(fs@) =~= before.insert(0, (name@, v_m)));
                    }
                    FldsOut::Done(fs)
                }
                r => r,
            },
            EvalOutcome::Fail(e2) => FldsOut::Fail(e2),
            EvalOutcome::Pending(q) => FldsOut::Pending(q),
            EvalOutcome::OutOfFuel => FldsOut::OutOfFuel,
        }
    }
}

} // verus!
