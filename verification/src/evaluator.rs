//! The tree-walking evaluator. Its meaning is pinned down by a spec-level
//! definitional interpreter over the views of the AST, the value model and
//! the scope arena; every executable evaluation function is proved to
//! produce exactly what the definitional interpreter says.

use crate::ast::{render_expr, view_stmt, view_stmts, ExprV, Expression, Program, Statement, StmtV};
use crate::environment::{env_lookup, env_wf, Environment, ScopeV};
use crate::object::{kind_name, obj_wf, view_objs, BuiltinKind, ObjV, Object};
use crate::strutil::{int_rep, push_dec_i64, str_eq};
use vstd::prelude::*;

verus! {

/// Why an evaluation aborted with a fault rather than produce a value:
/// these conditions surface as process faults, never as language-level
/// `Error` values.
#[derive(Clone, Copy, PartialEq, Eq, Structural, Debug)]
pub enum FaultKind {
    /// Integer division by zero.
    DivideByZero,
    /// Arithmetic outside the 64-bit signed range.
    IntegerOverflow,
    /// A call handed a function fewer arguments than it has parameters.
    ArityMismatch,
    /// The evaluation depth budget ran out.
    DepthLimit,
}

/// What evaluating one node produced: a value, no value at all, or a
/// fault that aborts the whole evaluation.
pub enum EvalResult {
    Value(Object),
    NoValue,
    Fault(FaultKind),
}

/// The mathematical form of an evaluation result.
pub enum ROut {
    Val(ObjV),
    NoVal,
    Fault(FaultKind),
}

pub open spec fn view_res(r: EvalResult) -> ROut {
    match r {
        EvalResult::Value(o) => ROut::Val(o@),
        EvalResult::NoValue => ROut::NoVal,
        EvalResult::Fault(k) => ROut::Fault(k),
    }
}

/// A result is well formed when any value it carries is.
pub open spec fn r_wf(r: ROut, n: int) -> bool {
    match r {
        ROut::Val(o) => obj_wf(o, n),
        _ => true,
    }
}

/// What `provide_source` stored for a path: the parsed program, or the
/// diagnostic text of a failed parse.
pub enum SourceEntry {
    Parsed(Program),
    Failed(String),
}

/// The mathematical form of a stored source.
pub enum SrcV {
    Parsed(Seq<StmtV>),
    Failed(Seq<char>),
}

pub open spec fn view_source(s: SourceEntry) -> SrcV {
    match s {
        SourceEntry::Parsed(p) => SrcV::Parsed(view_stmts(p.statements@)),
        SourceEntry::Failed(m) => SrcV::Failed(m@),
    }
}

pub open spec fn view_sources(v: Seq<(String, SourceEntry)>) -> Seq<(Seq<char>, SrcV)>
    decreases v,
{
    if v.len() == 0 {
        Seq::empty()
    } else {
        seq![(v[0].0@, view_source(v[0].1))] + view_sources(v.drop_first())
    }
}

pub proof fn lemma_view_sources(v: Seq<(String, SourceEntry)>)
    ensures
        view_sources(v).len() == v.len(),
        forall|i: int| 0 <= i < v.len() ==> view_sources(v)[i] == (v[i].0@, view_source(v[i].1)),
    decreases v,
{
    if v.len() > 0 {
        lemma_view_sources(v.drop_first());
    }
}

/// Find the newest entry stored for `path`.
pub open spec fn src_lookup(srcs: Seq<(Seq<char>, SrcV)>, path: Seq<char>) -> Option<SrcV>
    decreases srcs,
{
    if srcs.len() == 0 {
        None
    } else if srcs.last().0 == path {
        Some(srcs.last().1)
    } else {
        src_lookup(srcs.drop_last(), path)
    }
}

/// The truthiness rule: `Null` is false, a boolean is itself, and every
/// other value, zero included, is true.
pub open spec fn truthy(o: ObjV) -> bool {
    match o {
        ObjV::Null => false,
        ObjV::Bool { value } => value,
        _ => true,
    }
}

pub open spec fn is_error_v(o: ObjV) -> bool {
    match o {
        ObjV::Error { .. } => true,
        _ => false,
    }
}

/// `!` on a value: booleans invert, `Null` turns true, everything else
/// turns false.
pub open spec fn bang_s(o: ObjV) -> ObjV {
    match o {
        ObjV::Bool { value } => ObjV::Bool { value: !value },
        ObjV::Null => ObjV::Bool { value: true },
        _ => ObjV::Bool { value: false },
    }
}

/// `-` on a value: only integers negate; negating the minimum is a fault.
pub open spec fn minus_s(o: ObjV) -> ROut {
    match o {
        ObjV::Int { value } => if value == i64::MIN {
            ROut::Fault(FaultKind::IntegerOverflow)
        } else {
            ROut::Val(ObjV::Int { value: -value })
        },
        _ => ROut::Val(
            ObjV::Error { msg: "unknown operator: -"@ + kind_name(o) },
        ),
    }
}

/// A prefix operator applied to an evaluated operand.
pub open spec fn prefix_s(op: Seq<char>, o: ObjV) -> ROut {
    if op == "!"@ {
        ROut::Val(bang_s(o))
    } else if op == "-"@ {
        minus_s(o)
    } else {
        ROut::Val(ObjV::Error { msg: "unknown operator: "@ + op + kind_name(o) })
    }
}

/// Truncating division, as the machine's division instruction rounds.
pub open spec fn div_trunc(x: int, d: int) -> int {
    if x == 0 {
        0
    } else if x > 0 && d > 0 {
        x / d
    } else if x < 0 && d < 0 {
        (x * -1) / (d * -1)
    } else if x < 0 {
        ((x * -1) / d) * -1
    } else {
        (x / (d * -1)) * -1
    }
}

/// An infix operator on two integers. Arithmetic that leaves the 64-bit
/// signed range, and division by zero, are faults.
pub open spec fn int_infix_s(op: Seq<char>, l: int, r: int) -> ROut {
    if op == "+"@ {
        if l + r > i64::MAX || l + r < i64::MIN {
            ROut::Fault(FaultKind::IntegerOverflow)
        } else {
            ROut::Val(ObjV::Int { value: l + r })
        }
    } else if op == "-"@ {
        if l - r > i64::MAX || l - r < i64::MIN {
            ROut::Fault(FaultKind::IntegerOverflow)
        } else {
            ROut::Val(ObjV::Int { value: l - r })
        }
    } else if op == "*"@ {
        if l * r > i64::MAX || l * r < i64::MIN {
            ROut::Fault(FaultKind::IntegerOverflow)
        } else {
            ROut::Val(ObjV::Int { value: l * r })
        }
    } else if op == "/"@ {
        if r == 0 {
            ROut::Fault(FaultKind::DivideByZero)
        } else if div_trunc(l, r) > i64::MAX || div_trunc(l, r) < i64::MIN {
            ROut::Fault(FaultKind::IntegerOverflow)
        } else {
            ROut::Val(ObjV::Int { value: div_trunc(l, r) })
        }
    } else if op == "<"@ {
        ROut::Val(ObjV::Bool { value: l < r })
    } else if op == ">"@ {
        ROut::Val(ObjV::Bool { value: l > r })
    } else if op == "=="@ {
        ROut::Val(ObjV::Bool { value: l == r })
    } else if op == "!="@ {
        ROut::Val(ObjV::Bool { value: l != r })
    } else {
        ROut::Val(
            ObjV::Error {
                msg: "unknown operator: "@ + int_rep(l) + " "@ + op + " "@ + int_rep(r),
            },
        )
    }
}

/// An infix operator on two strings.
pub open spec fn str_infix_s(op: Seq<char>, l: Seq<char>, r: Seq<char>) -> ROut {
    if op == "+"@ {
        ROut::Val(ObjV::Str { value: l + r })
    } else if op == "=="@ {
        ROut::Val(ObjV::Bool { value: l == r })
    } else if op == "!="@ {
        ROut::Val(ObjV::Bool { value: l != r })
    } else {
        ROut::Val(ObjV::Error { msg: "unknown operator: STRING "@ + op + " STRING"@ })
    }
}

/// An infix operator on two evaluated operands. Operands whose type names
/// differ are a type mismatch; a same-type pairing with no defined
/// operator yields a descriptive error.
pub open spec fn infix_s(op: Seq<char>, l: ObjV, r: ObjV) -> ROut {
    if kind_name(l) != kind_name(r) {
        ROut::Val(
            ObjV::Error {
                msg: "type mismatch: "@ + kind_name(l) + " "@ + op + " "@ + kind_name(r),
            },
        )
    } else {
        match (l, r) {
            (ObjV::Int { value: lv }, ObjV::Int { value: rv }) => int_infix_s(op, lv, rv),
            (ObjV::Str { value: lv }, ObjV::Str { value: rv }) => str_infix_s(op, lv, rv),
            (ObjV::Bool { value: lv }, ObjV::Bool { value: rv }) => {
                if op == "=="@ {
                    ROut::Val(ObjV::Bool { value: lv == rv })
                } else if op == "!="@ {
                    ROut::Val(ObjV::Bool { value: lv != rv })
                } else {
                    ROut::Val(
                        ObjV::Error {
                            msg: "unknown operator: "@ + kind_name(l) + " "@ + op + " "@
                                + kind_name(r),
                        },
                    )
                }
            },
            _ => ROut::Val(
                ObjV::Error {
                    msg: "unknown operator: "@ + kind_name(l) + " "@ + op + " "@ + kind_name(r),
                },
            ),
        }
    }
}

/// The arity-complaint message shared by the built-ins.
pub open spec fn msg_wrong_args(got: int, want: Seq<char>) -> Seq<char> {
    "wrong number of arguments. got="@ + int_rep(got) + ", want="@ + want
}

/// What a built-in function returns for fully evaluated arguments.
/// `puts` and `import` touch the world and are handled by the evaluator
/// itself, not here.
pub open spec fn apply_builtin_s(kind: BuiltinKind, args: Seq<ObjV>) -> ROut {
    match kind {
        BuiltinKind::Len => if args.len() != 1 {
            ROut::Val(ObjV::Error { msg: msg_wrong_args(args.len() as int, "1"@) })
        } else {
            match args[0] {
                ObjV::Str { value } => if value.len() > i64::MAX {
                    ROut::Fault(FaultKind::IntegerOverflow)
                } else {
                    ROut::Val(ObjV::Int { value: value.len() as int })
                },
                ObjV::Array { elems } => if elems.len() > i64::MAX {
                    ROut::Fault(FaultKind::IntegerOverflow)
                } else {
                    ROut::Val(ObjV::Int { value: elems.len() as int })
                },
                _ => ROut::Val(
                    ObjV::Error {
                        msg: "argument to `len` not supported, got "@ + kind_name(args[0]),
                    },
                ),
            }
        },
        BuiltinKind::First => if args.len() != 1 {
            ROut::Val(ObjV::Error { msg: msg_wrong_args(args.len() as int, "1"@) })
        } else {
            match args[0] {
                ObjV::Array { elems } => if elems.len() > 0 {
                    ROut::Val(elems[0])
                } else {
                    ROut::Val(ObjV::Null)
                },
                _ => ROut::Val(
                    ObjV::Error {
                        msg: "argument to `first` must be array. got "@ + kind_name(args[0]),
                    },
                ),
            }
        },
        BuiltinKind::Last => if args.len() != 1 {
            ROut::Val(ObjV::Error { msg: msg_wrong_args(args.len() as int, "1"@) })
        } else {
            match args[0] {
                ObjV::Array { elems } => if elems.len() > 0 {
                    ROut::Val(elems.last())
                } else {
                    ROut::Val(ObjV::Null)
                },
                _ => ROut::Val(
                    ObjV::Error {
                        msg: "argument to `last` must be array. got "@ + kind_name(args[0]),
                    },
                ),
            }
        },
        BuiltinKind::Rest => if args.len() != 1 {
            ROut::Val(ObjV::Error { msg: msg_wrong_args(args.len() as int, "1"@) })
        } else {
            match args[0] {
                ObjV::Array { elems } => if elems.len() > 0 {
                    ROut::Val(ObjV::Array { elems: elems.drop_first() })
                } else {
                    ROut::Val(ObjV::Null)
                },
                _ => ROut::Val(
                    ObjV::Error {
                        msg: "argument to `rest` must be array. got "@ + kind_name(args[0]),
                    },
                ),
            }
        },
        BuiltinKind::Push => if args.len() != 2 {
            ROut::Val(ObjV::Error { msg: msg_wrong_args(args.len() as int, "2"@) })
        } else {
            match args[0] {
                ObjV::Array { elems } => ROut::Val(ObjV::Array { elems: elems.push(args[1]) }),
                _ => ROut::Val(
                    ObjV::Error {
                        msg: "argument to `push` must be array. got "@ + kind_name(args[0]),
                    },
                ),
            }
        },
        BuiltinKind::Exit => if args.len() > 1 {
            ROut::Val(ObjV::Error { msg: msg_wrong_args(args.len() as int, "1"@) })
        } else if args.len() == 0 {
            ROut::Val(ObjV::Exit)
        } else {
            match args[0] {
                ObjV::Int { .. } => ROut::Val(ObjV::Exit),
                _ => ROut::Val(
                    ObjV::Error {
                        msg: "argument to `len` not supported, got "@ + kind_name(args[0]),
                    },
                ),
            }
        },
        BuiltinKind::Puts => ROut::Val(ObjV::Null),
        BuiltinKind::Import => ROut::NoVal,
    }
}

/// Bind `name` to `v` in scope `idx` of the arena.
pub open spec fn env_set_s(sc: Seq<ScopeV>, idx: int, name: Seq<char>, v: ObjV) -> Seq<ScopeV> {
    sc.update(
        idx,
        ScopeV { bindings: sc[idx].bindings.push((name, v)), outer: sc[idx].outer },
    )
}

/// Bind parameters `params[i..]` to `args[i..]` in scope `idx`, in order.
/// A parameter that is not an identifier stops the application with no
/// value; a missing argument is an arity fault.
pub open spec fn bind_params_s(
    sc: Seq<ScopeV>,
    idx: int,
    params: Seq<ExprV>,
    args: Seq<ObjV>,
    i: int,
) -> (Seq<ScopeV>, Option<ROut>)
    decreases params.len() - i,
{
    if i < 0 || i >= params.len() {
        (sc, None)
    } else {
        match params[i] {
            ExprV::Ident { name } => if i < args.len() {
                bind_params_s(env_set_s(sc, idx, name, args[i]), idx, params, args, i + 1)
            } else {
                (sc, Some(ROut::Fault(FaultKind::ArityMismatch)))
            },
            _ => (sc, Some(ROut::NoVal)),
        }
    }
}

/// The outcome of evaluating an argument list.
pub enum ArgsOut {
    /// Every argument produced a non-error value (arguments producing no
    /// value are skipped).
    Vals(Seq<ObjV>),
    /// An argument evaluated to an error, which becomes the call's result.
    Stopped(ObjV),
    /// An argument faulted.
    Fault(FaultKind),
}

/// The definitional interpreter: a whole program. Statements run in
/// order; a `Return` unwraps and ends the program, an `Error` ends it
/// as-is, and the last statement's result is the program's.
pub open spec fn eval_program_s(
    sc: Seq<ScopeV>,
    cur: int,
    srcs: Seq<(Seq<char>, SrcV)>,
    stmts: Seq<StmtV>,
    fuel: nat,
) -> (Seq<ScopeV>, ROut)
    decreases fuel, stmts, 2int,
{
    if stmts.len() == 0 {
        (sc, ROut::NoVal)
    } else {
        let (sc1, r) = eval_stmt_s(sc, cur, srcs, stmts[0], fuel);
        match r {
            ROut::Val(v) => match v {
                ObjV::Return { value } => (sc1, ROut::Val(*value)),
                ObjV::Error { msg } => (sc1, ROut::Val(ObjV::Error { msg })),
                _ => if stmts.len() == 1 {
                    (sc1, r)
                } else {
                    eval_program_s(sc1, cur, srcs, stmts.drop_first(), fuel)
                },
            },
            ROut::Fault(k) => (sc1, ROut::Fault(k)),
            ROut::NoVal => if stmts.len() == 1 {
                (sc1, r)
            } else {
                eval_program_s(sc1, cur, srcs, stmts.drop_first(), fuel)
            },
        }
    }
}

/// A block: like a program, but a `Return` stays wrapped so it can keep
/// unwinding outward.
pub open spec fn eval_block_s(
    sc: Seq<ScopeV>,
    cur: int,
    srcs: Seq<(Seq<char>, SrcV)>,
    stmts: Seq<StmtV>,
    fuel: nat,
) -> (Seq<ScopeV>, ROut)
    decreases fuel, stmts, 2int,
{
    if stmts.len() == 0 {
        (sc, ROut::NoVal)
    } else {
        let (sc1, r) = eval_stmt_s(sc, cur, srcs, stmts[0], fuel);
        match r {
            ROut::Val(v) => match v {
                ObjV::Return { value } => (sc1, ROut::Val(ObjV::Return { value })),
                ObjV::Error { msg } => (sc1, ROut::Val(ObjV::Error { msg })),
                _ => if stmts.len() == 1 {
                    (sc1, r)
                } else {
                    eval_block_s(sc1, cur, srcs, stmts.drop_first(), fuel)
                },
            },
            ROut::Fault(k) => (sc1, ROut::Fault(k)),
            ROut::NoVal => if stmts.len() == 1 {
                (sc1, r)
            } else {
                eval_block_s(sc1, cur, srcs, stmts.drop_first(), fuel)
            },
        }
    }
}

/// One statement.
pub open spec fn eval_stmt_s(
    sc: Seq<ScopeV>,
    cur: int,
    srcs: Seq<(Seq<char>, SrcV)>,
    stmt: StmtV,
    fuel: nat,
) -> (Seq<ScopeV>, ROut)
    decreases fuel, stmt, 2int,
{
    match stmt {
        StmtV::Let { name, value } => {
            let (sc1, r) = eval_expr_s(sc, cur, srcs, *value, fuel);
            match r {
                ROut::Val(v) => if is_error_v(v) {
                    (sc1, ROut::Val(v))
                } else {
                    (env_set_s(sc1, cur, render_expr(*name), v), ROut::Val(v))
                },
                _ => (sc1, r),
            }
        },
        StmtV::Return { value } => {
            let (sc1, r) = eval_expr_s(sc, cur, srcs, *value, fuel);
            match r {
                ROut::Val(v) => if is_error_v(v) {
                    (sc1, ROut::Val(v))
                } else {
                    (sc1, ROut::Val(ObjV::Return { value: Box::new(v) }))
                },
                _ => (sc1, r),
            }
        },
        StmtV::Expr { expression } => eval_expr_s(sc, cur, srcs, *expression, fuel),
        StmtV::Block { statements } => eval_block_s(sc, cur, srcs, statements, fuel),
    }
}

/// An argument list, left to right; the first error stops it.
pub open spec fn eval_exprs_s(
    sc: Seq<ScopeV>,
    cur: int,
    srcs: Seq<(Seq<char>, SrcV)>,
    es: Seq<ExprV>,
    fuel: nat,
) -> (Seq<ScopeV>, ArgsOut)
    decreases fuel, es, 2int,
{
    if es.len() == 0 {
        (sc, ArgsOut::Vals(Seq::empty()))
    } else {
        let (sc1, r) = eval_expr_s(sc, cur, srcs, es[0], fuel);
        match r {
            ROut::Val(v) => if is_error_v(v) {
                (sc1, ArgsOut::Stopped(v))
            } else {
                let (sc2, rest) = eval_exprs_s(sc1, cur, srcs, es.drop_first(), fuel);
                match rest {
                    ArgsOut::Vals(vs) => (sc2, ArgsOut::Vals(seq![v] + vs)),
                    _ => (sc2, rest),
                }
            },
            ROut::NoVal => eval_exprs_s(sc1, cur, srcs, es.drop_first(), fuel),
            ROut::Fault(k) => (sc1, ArgsOut::Fault(k)),
        }
    }
}

/// One expression. Applying a closure pushes a fresh scope whose outer
/// link is the closure's captured scope, binds the parameters, runs the
/// body, and unwraps a `Return`; each application spends one unit of
/// evaluation depth.
pub open spec fn eval_expr_s(
    sc: Seq<ScopeV>,
    cur: int,
    srcs: Seq<(Seq<char>, SrcV)>,
    e: ExprV,
    fuel: nat,
) -> (Seq<ScopeV>, ROut)
    decreases fuel, e, 2int,
{
    match e {
        ExprV::Ident { name } => (
            sc,
            match env_lookup(sc, cur, name) {
                Some(v) => ROut::Val(v),
                None => ROut::Val(ObjV::Error { msg: "identifier not found: "@ + name }),
            },
        ),
        ExprV::Int { value } => (sc, ROut::Val(ObjV::Int { value })),
        ExprV::Str { value } => (sc, ROut::Val(ObjV::Str { value })),
        ExprV::Bool { value } => (sc, ROut::Val(ObjV::Bool { value })),
        ExprV::Prefix { op, right } => {
            let (sc1, r) = eval_expr_s(sc, cur, srcs, *right, fuel);
            match r {
                ROut::Val(v) => if is_error_v(v) {
                    (sc1, ROut::Val(v))
                } else {
                    (sc1, prefix_s(op, v))
                },
                _ => (sc1, r),
            }
        },
        ExprV::Infix { left, op, right } => {
            let (sc1, r) = eval_expr_s(sc, cur, srcs, *right, fuel);
            match r {
                ROut::Val(rv) => if is_error_v(rv) {
                    (sc1, ROut::Val(rv))
                } else {
                    let (sc2, l) = eval_expr_s(sc1, cur, srcs, *left, fuel);
                    match l {
                        ROut::Val(lv) => if is_error_v(lv) {
                            (sc2, ROut::Val(lv))
                        } else {
                            (sc2, infix_s(op, lv, rv))
                        },
                        _ => (sc2, l),
                    }
                },
                _ => (sc1, r),
            }
        },
        ExprV::If { cond, cons, alt } => {
            let (sc1, r) = eval_expr_s(sc, cur, srcs, *cond, fuel);
            match r {
                ROut::Val(cv) => if is_error_v(cv) {
                    (sc1, ROut::Val(cv))
                } else if truthy(cv) {
                    eval_stmt_s(sc1, cur, srcs, *cons, fuel)
                } else {
                    match alt {
                        Some(a) => eval_stmt_s(sc1, cur, srcs, *a, fuel),
                        None => (sc1, ROut::Val(ObjV::Null)),
                    }
                },
                _ => (sc1, r),
            }
        },
        ExprV::Func { params, body } => (
            sc,
            ROut::Val(ObjV::Func { params, body, env: cur }),
        ),
        ExprV::Call { func, args } => {
            let (sc1, fr) = eval_expr_s(sc, cur, srcs, *func, fuel);
            match fr {
                ROut::Val(fv) => {
                    let (sc2, ar) = eval_exprs_s(sc1, cur, srcs, args, fuel);
                    match ar {
                        ArgsOut::Stopped(err) => (sc2, ROut::Val(err)),
                        ArgsOut::Fault(k) => (sc2, ROut::Fault(k)),
                        ArgsOut::Vals(vs) => match fv {
                            ObjV::Func { .. } | ObjV::Builtin { .. } => if fuel == 0 {
                                (sc2, ROut::Fault(FaultKind::DepthLimit))
                            } else {
                                apply_function_s(sc2, cur, srcs, fv, vs, (fuel - 1) as nat)
                            },
                            _ => (sc2, ROut::NoVal),
                        },
                    }
                },
                _ => (sc1, fr),
            }
        },
    }
}

/// Apply an evaluated callee to evaluated arguments. A closure gets a
/// fresh scope chained to its captured one and runs its body there, the
/// caller's current scope untouched; a built-in runs natively. Anything
/// else produces no value.
pub open spec fn apply_function_s(
    sc: Seq<ScopeV>,
    cur: int,
    srcs: Seq<(Seq<char>, SrcV)>,
    f: ObjV,
    args: Seq<ObjV>,
    fuel: nat,
) -> (Seq<ScopeV>, ROut)
    decreases fuel, args, 1int,
{
    match f {
        ObjV::Func { params, body, env } => {
            let fresh = sc.len() as int;
            let sc1 = sc.push(ScopeV { bindings: Seq::empty(), outer: Some(env) });
            let (sc2, stop) = bind_params_s(sc1, fresh, params, args, 0);
            match stop {
                Some(r) => (sc2, r),
                None => if fuel == 0 {
                    (sc2, ROut::Fault(FaultKind::DepthLimit))
                } else {
                    let (sc3, br) = eval_stmt_s(sc2, fresh, srcs, *body, (fuel - 1) as nat);
                    match br {
                        ROut::Val(bv) => match bv {
                            ObjV::Return { value } => (sc3, ROut::Val(*value)),
                            _ => (sc3, ROut::Val(bv)),
                        },
                        _ => (sc3, br),
                    }
                },
            }
        },
        ObjV::Builtin { kind } => match kind {
            BuiltinKind::Import => eval_import_s(sc, cur, srcs, args, fuel),
            _ => (sc, apply_builtin_s(kind, args)),
        },
        _ => (sc, ROut::NoVal),
    }
}

/// The `import` built-in: the embedder has read and parsed the file
/// beforehand; its program runs here, in the same environment, and the
/// call's result is the program's final value or its error.
pub open spec fn eval_import_s(
    sc: Seq<ScopeV>,
    cur: int,
    srcs: Seq<(Seq<char>, SrcV)>,
    args: Seq<ObjV>,
    fuel: nat,
) -> (Seq<ScopeV>, ROut)
    decreases fuel, args, 0int,
{
    if args.len() != 1 {
        (sc, ROut::Val(ObjV::Error { msg: msg_wrong_args(args.len() as int, "1"@) }))
    } else {
        match args[0] {
            ObjV::Str { value } => match src_lookup(srcs, value) {
                None => (
                    sc,
                    ROut::Val(ObjV::Error { msg: "Could not open or find file: "@ + value }),
                ),
                Some(SrcV::Failed(msg)) => (sc, ROut::Val(ObjV::Error { msg })),
                Some(SrcV::Parsed(stmts)) => if fuel == 0 {
                    (sc, ROut::Fault(FaultKind::DepthLimit))
                } else {
                    let (sc1, r) = eval_program_s(sc, cur, srcs, stmts, (fuel - 1) as nat);
                    match r {
                        ROut::Val(v) => (sc1, ROut::Val(v)),
                        ROut::NoVal => (
                            sc1,
                            ROut::Val(ObjV::Error { msg: "cannot evaluate error!\r\n"@ }),
                        ),
                        ROut::Fault(k) => (sc1, ROut::Fault(k)),
                    }
                },
            },
            _ => (
                sc,
                ROut::Val(
                    ObjV::Error {
                        msg: "argument to `len` not supported, got "@ + kind_name(args[0]),
                    },
                ),
            ),
        }
    }
}



/// The evaluator: the scope arena, the index of the current scope, and
/// the sources the embedder has provided for `import`.
pub struct Evaluator {
    pub env: Environment,
    pub cur: usize,
    pub sources: Vec<(String, SourceEntry)>,
}

impl Evaluator {
    /// The view of the provided sources.
    pub open spec fn srcs_v(&self) -> Seq<(Seq<char>, SrcV)> {
        view_sources(self.sources@)
    }

    /// The evaluator is sound to run: the arena is well formed and the
    /// current scope exists.
    pub open spec fn wf(&self) -> bool {
        &&& env_wf(self.env@)
        &&& (self.cur as int) < self.env@.len()
    }

    /// A fresh evaluator: one global scope holding the language constants
    /// and the builtin table, and no sources yet.
    pub fn new() -> (r: Evaluator)
        ensures
            r.wf(),
            r.cur == 0,
            r.srcs_v() == Seq::<(Seq<char>, SrcV)>::empty(),
            r.env@ == seq![
                ScopeV { bindings: crate::environment::base_bindings() + crate::builtin::builtin_bindings(), outer: None },
            ],
    {
        let mut env = Environment::new();
        let table = crate::builtin::new_builtins();
        let n = table.len();
        let mut i: usize = 0;
        proof {
            assert(crate::builtin::builtin_bindings().take(0) =~= Seq::<(Seq<char>, ObjV)>::empty());
            assert(env@[0].bindings =~= crate::environment::base_bindings()
                + crate::builtin::builtin_bindings().take(0));
        }
        while i < n
            invariant
                i <= n,
                n == table@.len(),
                n == crate::builtin::builtin_bindings().len(),
                forall|j: int| 0 <= j < n ==> (table@[j].0@, table@[j].1@)
                    == crate::builtin::builtin_bindings()[j],
                env@.len() == 1,
                env@[0].outer.is_none(),
                env@[0].bindings == crate::environment::base_bindings()
                    + crate::builtin::builtin_bindings().take(i as int),
                env_wf(env@),
            decreases n - i,
        {
            let entry = &table[i];
            let ghost pre = env@;
            env.set(0, entry.0.clone(), entry.1.clone());
            proof {
                let bb = crate::builtin::builtin_bindings();
                assert(env@ =~= pre.update(0, ScopeV {
                    bindings: pre[0].bindings.push((table@[i as int].0@, table@[i as int].1@)),
                    outer: pre[0].outer,
                }));
                assert(bb.take(i + 1) =~= bb.take(i as int).push(bb[i as int]));
                assert((crate::environment::base_bindings() + bb.take(i as int)).push(bb[i as int])
                    =~= crate::environment::base_bindings() + bb.take(i + 1));
                assert(env@[0].bindings =~= crate::environment::base_bindings() + bb.take(i + 1));
            }
            i += 1;
        }
        proof {
            assert(crate::builtin::builtin_bindings().take(n as int)
                =~= crate::builtin::builtin_bindings());
        }
        let r = Evaluator { env, cur: 0, sources: Vec::new() };
        proof {
            assert(r.env@ =~= seq![
                ScopeV {
                    bindings: crate::environment::base_bindings()
                        + crate::builtin::builtin_bindings(),
                    outer: None,
                },
            ]);
            assert(view_sources(r.sources@) =~= Seq::<(Seq<char>, SrcV)>::empty());
        }
        r
    }

    /// `true`/`false` as runtime values.
    pub fn eval_boolean(value: bool) -> (r: Object)
        ensures
            r@ == (ObjV::Bool { value }),
    {
        Object::Boolean(value)
    }

    /// The truthiness rule.
    pub fn is_truthy(obj: &Object) -> (r: bool)
        ensures
            r == truthy(obj@),
    {
        match obj {
            Object::Null => false,
            Object::Boolean(value) => *value,
            _ => true,
        }
    }

    /// Whether a value is the error signal.
    pub fn is_error(obj: &Object) -> (r: bool)
        ensures
            r == is_error_v(obj@),
    {
        match obj {
            Object::Error(_) => true,
            _ => false,
        }
    }

    /// `!` on an evaluated operand.
    pub fn eval_bang_operator_expression(right: Object) -> (r: Object)
        ensures
            r@ == bang_s(right@),
    {
        match right {
            Object::Boolean(value) => Object::Boolean(!value),
            Object::Null => Object::Boolean(true),
            _ => Object::Boolean(false),
        }
    }

    /// `-` on an evaluated operand.
    pub fn eval_minus_prefix_operator_expression(right: Object) -> (r: EvalResult)
        ensures
            view_res(r) == minus_s(right@),
    {
        match right {
            Object::Integer(value) => {
                if value == i64::MIN {
                    EvalResult::Fault(FaultKind::IntegerOverflow)
                } else {
                    EvalResult::Value(Object::Integer(-value))
                }
            },
            other => {
                let mut m = String::from_str("unknown operator: -");
                m.append(other.kind_name_str());
                EvalResult::Value(Object::Error(m))
            },
        }
    }

    /// A prefix operator on an evaluated operand.
    pub fn eval_prefix_expression(operator: &String, right: Object) -> (r: EvalResult)
        ensures
            view_res(r) == prefix_s(operator@, right@),
    {
        if str_eq(operator.as_str(), "!") {
            EvalResult::Value(Self::eval_bang_operator_expression(right))
        } else if str_eq(operator.as_str(), "-") {
            Self::eval_minus_prefix_operator_expression(right)
        } else {
            let mut m = String::from_str("unknown operator: ");
            m.append(operator.as_str());
            m.append(right.kind_name_str());
            EvalResult::Value(Object::Error(m))
        }
    }

    /// An infix operator on two evaluated integers.
    pub fn eval_integer_infix_expression(operator: &String, left_value: i64, right_value: i64) -> (r:
        EvalResult)
        ensures
            view_res(r) == int_infix_s(operator@, left_value as int, right_value as int),
    {
        let op = operator.as_str();
        if str_eq(op, "+") {
            match left_value.checked_add(right_value) {
                Some(v) => EvalResult::Value(Object::Integer(v)),
                None => EvalResult::Fault(FaultKind::IntegerOverflow),
            }
        } else if str_eq(op, "-") {
            match left_value.checked_sub(right_value) {
                Some(v) => EvalResult::Value(Object::Integer(v)),
                None => EvalResult::Fault(FaultKind::IntegerOverflow),
            }
        } else if str_eq(op, "*") {
            match left_value.checked_mul(right_value) {
                Some(v) => EvalResult::Value(Object::Integer(v)),
                None => EvalResult::Fault(FaultKind::IntegerOverflow),
            }
        } else if str_eq(op, "/") {
            if right_value == 0 {
                EvalResult::Fault(FaultKind::DivideByZero)
            } else {
                match left_value.checked_div(right_value) {
                    Some(v) => {
                        proof {
                            assert(v as int == div_trunc(left_value as int, right_value as int));
                        }
                        EvalResult::Value(Object::Integer(v))
                    },
                    None => EvalResult::Fault(FaultKind::IntegerOverflow),
                }
            }
        } else if str_eq(op, "<") {
            EvalResult::Value(Self::eval_boolean(left_value < right_value))
        } else if str_eq(op, ">") {
            EvalResult::Value(Self::eval_boolean(left_value > right_value))
        } else if str_eq(op, "==") {
            EvalResult::Value(Self::eval_boolean(left_value == right_value))
        } else if str_eq(op, "!=") {
            EvalResult::Value(Self::eval_boolean(left_value != right_value))
        } else {
            let mut m = String::from_str("unknown operator: ");
            push_dec_i64(&mut m, left_value);
            m.append(" ");
            m.append(op);
            m.append(" ");
            push_dec_i64(&mut m, right_value);
            EvalResult::Value(Object::Error(m))
        }
    }

    /// An infix operator on two evaluated strings.
    pub fn eval_string_infix_expression(operator: &String, left_value: String, right_value: String)
        -> (r: EvalResult)
        ensures
            view_res(r) == str_infix_s(operator@, left_value@, right_value@),
    {
        let op = operator.as_str();
        if str_eq(op, "+") {
            EvalResult::Value(Object::String(left_value.concat(right_value.as_str())))
        } else if str_eq(op, "==") {
            EvalResult::Value(Self::eval_boolean(str_eq(left_value.as_str(), right_value.as_str())))
        } else if str_eq(op, "!=") {
            EvalResult::Value(
                Self::eval_boolean(!str_eq(left_value.as_str(), right_value.as_str())),
            )
        } else {
            let mut m = String::from_str("unknown operator: STRING ");
            m.append(op);
            m.append(" STRING");
            EvalResult::Value(Object::Error(m))
        }
    }

    /// An infix operator on two evaluated operands.
    pub fn eval_infix_expression(operator: &String, left: Object, right: Object) -> (r: EvalResult)
        ensures
            view_res(r) == infix_s(operator@, left@, right@),
    {
        let ln = left.kind_name_str();
        let rn = right.kind_name_str();
        if !str_eq(ln, rn) {
            let mut m = String::from_str("type mismatch: ");
            m.append(ln);
            m.append(" ");
            m.append(operator.as_str());
            m.append(" ");
            m.append(rn);
            return EvalResult::Value(Object::Error(m));
        }
        match (left, right) {
            (Object::Integer(lv), Object::Integer(rv)) => Self::eval_integer_infix_expression(
                operator,
                lv,
                rv,
            ),
            (Object::String(lv), Object::String(rv)) => Self::eval_string_infix_expression(
                operator,
                lv,
                rv,
            ),
            (Object::Boolean(lv), Object::Boolean(rv)) => {
                if str_eq(operator.as_str(), "==") {
                    EvalResult::Value(Self::eval_boolean(lv == rv))
                } else if str_eq(operator.as_str(), "!=") {
                    EvalResult::Value(Self::eval_boolean(lv != rv))
                } else {
                    let mut m = String::from_str("unknown operator: ");
                    m.append(ln);
                    m.append(" ");
                    m.append(operator.as_str());
                    m.append(" ");
                    m.append(rn);
                    EvalResult::Value(Object::Error(m))
                }
            },
            (_, _) => {
                let mut m = String::from_str("unknown operator: ");
                m.append(ln);
                m.append(" ");
                m.append(operator.as_str());
                m.append(" ");
                m.append(rn);
                EvalResult::Value(Object::Error(m))
            },
        }
    }

    /// Resolve an identifier through the scope chain.
    pub fn eval_identifier(&self, ident: &String) -> (r: EvalResult)
        requires
            self.wf(),
        ensures
            view_res(r) == (match env_lookup(self.env@, self.cur as int, ident@) {
                Some(v) => ROut::Val(v),
                None => ROut::Val(ObjV::Error { msg: "identifier not found: "@ + ident@ }),
            }),
            r_wf(view_res(r), self.env@.len() as int),
    {
        match self.env.get(self.cur, ident.as_str()) {
            Some(o) => EvalResult::Value(o),
            None => {
                let mut m = String::from_str("identifier not found: ");
                m.append(ident.as_str());
                EvalResult::Value(Object::Error(m))
            },
        }
    }
}


/// The outcome of evaluating an argument list.
pub enum ArgsResult {
    Vals(Vec<Object>),
    Stopped(Object),
    Fault(FaultKind),
}

pub open spec fn view_args(r: ArgsResult) -> ArgsOut {
    match r {
        ArgsResult::Vals(v) => ArgsOut::Vals(view_objs(v@)),
        ArgsResult::Stopped(o) => ArgsOut::Stopped(o@),
        ArgsResult::Fault(k) => ArgsOut::Fault(k),
    }
}

/// A prefix operation's result carries no closure, so it is well formed
/// against any arena.
pub proof fn lemma_prefix_wf(op: Seq<char>, o: ObjV, n: int)
    ensures
        r_wf(prefix_s(op, o), n),
{
}

/// An infix operation's result carries no closure, so it is well formed
/// against any arena.
pub proof fn lemma_infix_wf(op: Seq<char>, l: ObjV, r: ObjV, n: int)
    ensures
        r_wf(infix_s(op, l, r), n),
{
}

/// Deep-copy a stored source, preserving its view.
fn clone_source(s: &SourceEntry) -> (r: SourceEntry)
    ensures
        view_source(r) == view_source(*s),
{
    match s {
        SourceEntry::Parsed(p) => SourceEntry::Parsed(p.duplicate()),
        SourceEntry::Failed(m) => SourceEntry::Failed(m.clone()),
    }
}

impl Evaluator {
    /// Find the newest source stored for `path`.
    fn find_source(&self, path: &String) -> (r: Option<SourceEntry>)
        ensures
            match r {
                Some(e) => src_lookup(self.srcs_v(), path@) == Some(view_source(e)),
                None => src_lookup(self.srcs_v(), path@).is_none(),
            },
    {
        proof {
            lemma_view_sources(self.sources@);
        }
        let n = self.sources.len();
        let mut k: usize = n;
        proof {
            assert(self.srcs_v().take(n as int) =~= self.srcs_v());
        }
        while k > 0
            invariant
                k <= n,
                n == self.sources@.len(),
                self.srcs_v().len() == n,
                forall|i: int| 0 <= i < n ==> self.srcs_v()[i] == (
                    self.sources@[i].0@,
                    view_source(self.sources@[i].1),
                ),
                src_lookup(self.srcs_v(), path@) == src_lookup(
                    self.srcs_v().take(k as int),
                    path@,
                ),
            decreases k,
        {
            let entry = &self.sources[k - 1];
            proof {
                let svs = self.srcs_v();
                assert(svs.take(k as int).last() == svs[k - 1]);
                assert(svs.take(k as int).drop_last() =~= svs.take(k - 1));
            }
            if str_eq(entry.0.as_str(), path.as_str()) {
                return Some(clone_source(&entry.1));
            }
            k = k - 1;
        }
        proof {
            assert(self.srcs_v().take(0) =~= Seq::<(Seq<char>, SrcV)>::empty());
        }
        None
    }

    /// Evaluate a whole program with the given depth budget.
    fn eval_program_inner(&mut self, program: &Program, fuel: u64) -> (r: EvalResult)
        requires
            old(self).wf(),
        ensures
            final(self).wf(),
            final(self).cur == old(self).cur,
            final(self).sources == old(self).sources,
            old(self).env@.len() <= final(self).env@.len(),
            eval_program_s(
                old(self).env@,
                old(self).cur as int,
                old(self).srcs_v(),
                program@,
                fuel as nat,
            ) == (final(self).env@, view_res(r)),
            r_wf(view_res(r), final(self).env@.len() as int),
        decreases fuel, program.statements@, 2int,
    {
        let ghost svs = program@;
        let ghost target = eval_program_s(
            old(self).env@,
            old(self).cur as int,
            old(self).srcs_v(),
            svs,
            fuel as nat,
        );
        let n = program.statements.len();
        proof {
            crate::ast::lemma_view_stmts(program.statements@);
            assert(svs.subrange(0, n as int) =~= svs);
        }
        let mut result = EvalResult::NoValue;
        let mut i: usize = 0;
        while i < n
            invariant
                self.wf(),
                self.cur == old(self).cur,
                self.sources == old(self).sources,
                old(self).env@.len() <= self.env@.len(),
                i <= n,
                n == program.statements@.len(),
                svs == program@,
                svs.len() == n,
                forall|j: int| 0 <= j < n ==> svs[j] == view_stmt(program.statements@[j]),
                target == eval_program_s(
                    old(self).env@,
                    old(self).cur as int,
                    old(self).srcs_v(),
                    svs,
                    fuel as nat,
                ),
                i < n ==> eval_program_s(
                    self.env@,
                    old(self).cur as int,
                    old(self).srcs_v(),
                    svs.subrange(i as int, n as int),
                    fuel as nat,
                ) == target,
                i == n ==> target == (self.env@, view_res(result)),
                r_wf(view_res(result), self.env@.len() as int),
            decreases n - i,
        {
            proof {
                let suffix = svs.subrange(i as int, n as int);
                assert(suffix[0] == svs[i as int]);
                assert(suffix.drop_first() =~= svs.subrange(i + 1, n as int));
            }
            let r1 = self.eval_statement(&program.statements[i], fuel);
            match r1 {
                EvalResult::Value(v) => match v {
                    Object::Return(inner) => {
                        return EvalResult::Value(*inner);
                    },
                    Object::Error(m) => {
                        return EvalResult::Value(Object::Error(m));
                    },
                    other => {
                        result = EvalResult::Value(other);
                    },
                },
                EvalResult::NoValue => {
                    result = EvalResult::NoValue;
                },
                EvalResult::Fault(k) => {
                    return EvalResult::Fault(k);
                },
            }
            i += 1;
        }
        result
    }

    /// Evaluate the statements of a block in order.
    fn eval_block_statement(&mut self, statements: &Vec<Statement>, fuel: u64) -> (r: EvalResult)
        requires
            old(self).wf(),
        ensures
            final(self).wf(),
            final(self).cur == old(self).cur,
            final(self).sources == old(self).sources,
            old(self).env@.len() <= final(self).env@.len(),
            eval_block_s(
                old(self).env@,
                old(self).cur as int,
                old(self).srcs_v(),
                view_stmts(statements@),
                fuel as nat,
            ) == (final(self).env@, view_res(r)),
            r_wf(view_res(r), final(self).env@.len() as int),
        decreases fuel, statements@, 2int,
    {
        let ghost svs = view_stmts(statements@);
        let ghost target = eval_block_s(
            old(self).env@,
            old(self).cur as int,
            old(self).srcs_v(),
            svs,
            fuel as nat,
        );
        let n = statements.len();
        proof {
            crate::ast::lemma_view_stmts(statements@);
            assert(svs.subrange(0, n as int) =~= svs);
        }
        let mut result = EvalResult::NoValue;
        let mut i: usize = 0;
        while i < n
            invariant
                self.wf(),
                self.cur == old(self).cur,
                self.sources == old(self).sources,
                old(self).env@.len() <= self.env@.len(),
                i <= n,
                n == statements@.len(),
                svs == view_stmts(statements@),
                svs.len() == n,
                forall|j: int| 0 <= j < n ==> svs[j] == view_stmt(statements@[j]),
                target == eval_block_s(
                    old(self).env@,
                    old(self).cur as int,
                    old(self).srcs_v(),
                    svs,
                    fuel as nat,
                ),
                i < n ==> eval_block_s(
                    self.env@,
                    old(self).cur as int,
                    old(self).srcs_v(),
                    svs.subrange(i as int, n as int),
                    fuel as nat,
                ) == target,
                i == n ==> target == (self.env@, view_res(result)),
                r_wf(view_res(result), self.env@.len() as int),
            decreases n - i,
        {
            proof {
                let suffix = svs.subrange(i as int, n as int);
                assert(suffix[0] == svs[i as int]);
                assert(suffix.drop_first() =~= svs.subrange(i + 1, n as int));
            }
            let r1 = self.eval_statement(&statements[i], fuel);
            match r1 {
                EvalResult::Value(v) => match v {
                    Object::Return(inner) => {
                        return EvalResult::Value(Object::Return(inner));
                    },
                    Object::Error(m) => {
                        return EvalResult::Value(Object::Error(m));
                    },
                    other => {
                        result = EvalResult::Value(other);
                    },
                },
                EvalResult::NoValue => {
                    result = EvalResult::NoValue;
                },
                EvalResult::Fault(k) => {
                    return EvalResult::Fault(k);
                },
            }
            i += 1;
        }
        result
    }

    /// Evaluate one statement.
    fn eval_statement(&mut self, stmt: &Statement, fuel: u64) -> (r: EvalResult)
        requires
            old(self).wf(),
        ensures
            final(self).wf(),
            final(self).cur == old(self).cur,
            final(self).sources == old(self).sources,
            old(self).env@.len() <= final(self).env@.len(),
            eval_stmt_s(
                old(self).env@,
                old(self).cur as int,
                old(self).srcs_v(),
                stmt@,
                fuel as nat,
            ) == (final(self).env@, view_res(r)),
            r_wf(view_res(r), final(self).env@.len() as int),
        decreases fuel, *stmt, 2int,
    {
        match stmt {
            Statement::LetStatement { name, value } => {
                let r = self.eval_expression(value, fuel);
                match r {
                    EvalResult::Value(val) => {
                        if !Self::is_error(&val) {
                            let key = name.string();
                            self.env.set(self.cur, key, val.clone());
                        }
                        EvalResult::Value(val)
                    },
                    EvalResult::NoValue => EvalResult::NoValue,
                    EvalResult::Fault(k) => EvalResult::Fault(k),
                }
            },
            Statement::ReturnStatement { return_value } => {
                let r = self.eval_expression(return_value, fuel);
                match r {
                    EvalResult::Value(val) => {
                        if Self::is_error(&val) {
                            EvalResult::Value(val)
                        } else {
                            EvalResult::Value(Object::Return(Box::new(val)))
                        }
                    },
                    EvalResult::NoValue => EvalResult::NoValue,
                    EvalResult::Fault(k) => EvalResult::Fault(k),
                }
            },
            Statement::ExpressionStatement { expression } => self.eval_expression(expression, fuel),
            Statement::BlockStatement { statements } => self.eval_block_statement(statements, fuel),
        }
    }

    /// Evaluate one expression.
    fn eval_expression(&mut self, exp: &Expression, fuel: u64) -> (r: EvalResult)
        requires
            old(self).wf(),
        ensures
            final(self).wf(),
            final(self).cur == old(self).cur,
            final(self).sources == old(self).sources,
            old(self).env@.len() <= final(self).env@.len(),
            eval_expr_s(
                old(self).env@,
                old(self).cur as int,
                old(self).srcs_v(),
                exp@,
                fuel as nat,
            ) == (final(self).env@, view_res(r)),
            r_wf(view_res(r), final(self).env@.len() as int),
        decreases fuel, *exp, 2int,
    {
        match exp {
            Expression::Identifier { value } => self.eval_identifier(value),
            Expression::IntegerLiteral { value } => EvalResult::Value(Object::Integer(*value)),
            Expression::StringLiteral { value } => EvalResult::Value(Object::String(value.clone())),
            Expression::Boolean { value } => EvalResult::Value(Self::eval_boolean(*value)),
            Expression::PrefixExpression { operator, right } => {
                let r = self.eval_expression(right, fuel);
                match r {
                    EvalResult::Value(rv) => {
                        if Self::is_error(&rv) {
                            EvalResult::Value(rv)
                        } else {
                            proof {
                                lemma_prefix_wf(operator@, rv@, self.env@.len() as int);
                            }
                            Self::eval_prefix_expression(operator, rv)
                        }
                    },
                    EvalResult::NoValue => EvalResult::NoValue,
                    EvalResult::Fault(k) => EvalResult::Fault(k),
                }
            },
            Expression::InfixExpression { left, operator, right } => {
                let r = self.eval_expression(right, fuel);
                match r {
                    EvalResult::Value(rv) => {
                        if Self::is_error(&rv) {
                            EvalResult::Value(rv)
                        } else {
                            let l = self.eval_expression(left, fuel);
                            match l {
                                EvalResult::Value(lv) => {
                                    if Self::is_error(&lv) {
                                        EvalResult::Value(lv)
                                    } else {
                                        proof {
                                            lemma_infix_wf(
                                                operator@,
                                                lv@,
                                                rv@,
                                                self.env@.len() as int,
                                            );
                                        }
                                        Self::eval_infix_expression(operator, lv, rv)
                                    }
                                },
                                EvalResult::NoValue => EvalResult::NoValue,
                                EvalResult::Fault(k) => EvalResult::Fault(k),
                            }
                        }
                    },
                    EvalResult::NoValue => EvalResult::NoValue,
                    EvalResult::Fault(k) => EvalResult::Fault(k),
                }
            },
            Expression::IfExpression { .. } => self.eval_if_expression(exp, fuel),
            Expression::FunctionLiteral { parameters, body } => {
                let ps = crate::ast::clone_expr_vec(parameters);
                let b = (**body).clone();
                EvalResult::Value(Object::Function { parameters: ps, body: b, env: self.cur })
            },
            Expression::CallExpression { function, arguments } => {
                let fr = self.eval_expression(function, fuel);
                match fr {
                    EvalResult::Value(fv) => {
                        let ar = self.eval_expressions(arguments, fuel);
                        let ghost arv = view_args(ar);
                        let ghost post_len = self.env@.len() as int;
                        proof {
                            assert(match arv {
                                ArgsOut::Vals(vsq) => forall|j: int|
                                    0 <= j < vsq.len() ==> obj_wf(#[trigger] vsq[j], post_len),
                                ArgsOut::Stopped(o) => obj_wf(o, post_len),
                                ArgsOut::Fault(_) => true,
                            });
                        }
                        match ar {
                            ArgsResult::Stopped(err) => EvalResult::Value(err),
                            ArgsResult::Fault(k) => EvalResult::Fault(k),
                            ArgsResult::Vals(vs) => {
                                let applicable = match &fv {
                                    Object::Function { .. } => true,
                                    Object::Builtin(_) => true,
                                    _ => false,
                                };
                                if applicable {
                                    if fuel == 0 {
                                        EvalResult::Fault(FaultKind::DepthLimit)
                                    } else {
                                        proof {
                                            crate::object::lemma_view_objs(vs@);
                                            assert(arv == ArgsOut::Vals(view_objs(vs@)));
                                            assert forall|j: int|
                                                0 <= j < vs@.len() implies obj_wf(
                                                #[trigger] vs@[j]@,
                                                self.env@.len() as int,
                                            ) by {
                                                assert(view_objs(vs@)[j] == vs@[j]@);
                                                assert(obj_wf(
                                                    view_objs(vs@)[j],
                                                    self.env@.len() as int,
                                                ));
                                            }
                                        }
                                        self.apply_function(fv, vs, fuel - 1)
                                    }
                                } else {
                                    EvalResult::NoValue
                                }
                            },
                        }
                    },
                    EvalResult::NoValue => EvalResult::NoValue,
                    EvalResult::Fault(k) => EvalResult::Fault(k),
                }
            },
        }
    }

    /// Evaluate an `if` expression: the condition picks the branch, and a
    /// false condition with no alternative yields `Null`.
    fn eval_if_expression(&mut self, exp: &Expression, fuel: u64) -> (r: EvalResult)
        requires
            old(self).wf(),
            exp matches Expression::IfExpression { .. },
        ensures
            final(self).wf(),
            final(self).cur == old(self).cur,
            final(self).sources == old(self).sources,
            old(self).env@.len() <= final(self).env@.len(),
            eval_expr_s(
                old(self).env@,
                old(self).cur as int,
                old(self).srcs_v(),
                exp@,
                fuel as nat,
            ) == (final(self).env@, view_res(r)),
            r_wf(view_res(r), final(self).env@.len() as int),
        decreases fuel, *exp, 1int,
    {
        match exp {
            Expression::IfExpression { condition, consequence, alternative } => {
                let c = self.eval_expression(condition, fuel);
                match c {
                    EvalResult::Value(cv) => {
                        if Self::is_error(&cv) {
                            EvalResult::Value(cv)
                        } else if Self::is_truthy(&cv) {
                            self.eval_statement(consequence, fuel)
                        } else {
                            match alternative {
                                Some(alt) => self.eval_statement(alt, fuel),
                                None => EvalResult::Value(Object::Null),
                            }
                        }
                    },
                    EvalResult::NoValue => EvalResult::NoValue,
                    EvalResult::Fault(k) => EvalResult::Fault(k),
                }
            },
            _ => EvalResult::NoValue,
        }
    }

    /// Evaluate call arguments left to right.
    fn eval_expressions(&mut self, exps: &Vec<Expression>, fuel: u64) -> (r: ArgsResult)
        requires
            old(self).wf(),
        ensures
            final(self).wf(),
            final(self).cur == old(self).cur,
            final(self).sources == old(self).sources,
            old(self).env@.len() <= final(self).env@.len(),
            eval_exprs_s(
                old(self).env@,
                old(self).cur as int,
                old(self).srcs_v(),
                crate::ast::view_exprs(exps@),
                fuel as nat,
            ) == (final(self).env@, view_args(r)),
            (match view_args(r) {
                ArgsOut::Vals(vs) => forall|j: int|
                    0 <= j < vs.len() ==> obj_wf(#[trigger] vs[j], final(self).env@.len() as int),
                ArgsOut::Stopped(o) => obj_wf(o, final(self).env@.len() as int),
                ArgsOut::Fault(_) => true,
            }),
        decreases fuel, exps@, 2int,
    {
        let ghost evs = crate::ast::view_exprs(exps@);
        let ghost target = eval_exprs_s(
            old(self).env@,
            old(self).cur as int,
            old(self).srcs_v(),
            evs,
            fuel as nat,
        );
        let n = exps.len();
        proof {
            crate::ast::lemma_view_exprs(exps@);
            assert(evs.subrange(0, n as int) =~= evs);
        }
        let mut vals: Vec<Object> = Vec::new();
        let mut i: usize = 0;
        proof {
            assert(view_objs(vals@) =~= Seq::<ObjV>::empty());
        }
        while i < n
            invariant
                self.wf(),
                self.cur == old(self).cur,
                self.sources == old(self).sources,
                old(self).env@.len() <= self.env@.len(),
                i <= n,
                n == exps@.len(),
                evs == crate::ast::view_exprs(exps@),
                evs.len() == n,
                forall|j: int| 0 <= j < n ==> evs[j] == crate::ast::view_expr(exps@[j]),
                target == eval_exprs_s(
                    old(self).env@,
                    old(self).cur as int,
                    old(self).srcs_v(),
                    evs,
                    fuel as nat,
                ),
                i < n ==> ({
                    let (sce, ae) = eval_exprs_s(
                        self.env@,
                        old(self).cur as int,
                        old(self).srcs_v(),
                        evs.subrange(i as int, n as int),
                        fuel as nat,
                    );
                    target == ((
                        sce,
                        match ae {
                            ArgsOut::Vals(vs) => ArgsOut::Vals(view_objs(vals@) + vs),
                            _ => ae,
                        },
                    ))
                }),
                i == n ==> target == ((self.env@, ArgsOut::Vals(view_objs(vals@)))),
                view_objs(vals@).len() == vals@.len(),
                forall|j: int| 0 <= j < vals@.len() ==> view_objs(vals@)[j] == vals@[j]@,
                forall|j: int| 0 <= j < vals@.len() ==> obj_wf(
                    #[trigger] vals@[j]@,
                    self.env@.len() as int,
                ),
            decreases n - i,
        {
            let ghost len_b = self.env@.len() as int;
            proof {
                let suffix = evs.subrange(i as int, n as int);
                assert(suffix[0] == evs[i as int]);
                assert(suffix.drop_first() =~= evs.subrange(i + 1, n as int));
            }
            let r1 = self.eval_expression(&exps[i], fuel);
            proof {
                assert forall|j: int| 0 <= j < vals@.len() implies obj_wf(
                    #[trigger] vals@[j]@,
                    self.env@.len() as int,
                ) by {
                    crate::object::lemma_obj_wf_mono(vals@[j]@, len_b, self.env@.len() as int);
                }
            }
            match r1 {
                EvalResult::Value(v) => {
                    if Self::is_error(&v) {
                        return ArgsResult::Stopped(v);
                    }
                    proof {
                        crate::object::lemma_view_objs_push(vals@, v);
                        let (sc2, rest) = eval_exprs_s(
                            self.env@,
                            old(self).cur as int,
                            old(self).srcs_v(),
                            evs.subrange(i + 1, n as int),
                            fuel as nat,
                        );
                        match rest {
                            ArgsOut::Vals(vs) => {
                                assert(view_objs(vals@) + (seq![v@] + vs) =~= view_objs(
                                    vals@,
                                ).push(v@) + vs);
                            },
                            _ => {},
                        }
                    }
                    vals.push(v);
                },
                EvalResult::NoValue => {},
                EvalResult::Fault(k) => {
                    return ArgsResult::Fault(k);
                },
            }
            i += 1;
        }
        proof {
            assert(evs.subrange(n as int, n as int) =~= Seq::<ExprV>::empty());
            assert(view_objs(vals@) + Seq::<ObjV>::empty() =~= view_objs(vals@));
        }
        ArgsResult::Vals(vals)
    }

    /// Bind each parameter name to the matching argument in scope
    /// `fresh`, in order; arguments beyond the parameter list are
    /// ignored. A parameter that is not a bare identifier stops the
    /// application with no value; a missing argument is an arity fault.
    fn bind_parameters(
        &mut self,
        fresh: usize,
        parameters: &Vec<Expression>,
        args: &Vec<Object>,
    ) -> (stop: Option<EvalResult>)
        requires
            old(self).wf(),
            (fresh as int) < old(self).env@.len(),
            forall|j: int| 0 <= j < args@.len() ==> obj_wf(
                #[trigger] args@[j]@,
                old(self).env@.len() as int,
            ),
        ensures
            final(self).wf(),
            final(self).cur == old(self).cur,
            final(self).sources == old(self).sources,
            final(self).env@.len() == old(self).env@.len(),
            ({
                let (sc2, st) = bind_params_s(
                    old(self).env@,
                    fresh as int,
                    crate::ast::view_exprs(parameters@),
                    view_objs(args@),
                    0,
                );
                &&& final(self).env@ == sc2
                &&& (match (stop, st) {
                    (None, None) => true,
                    (Some(r), Some(rv)) => view_res(r) == rv && (rv == ROut::NoVal || rv
                        == ROut::Fault(FaultKind::ArityMismatch)),
                    _ => false,
                })
            }),
    {
        proof {
            crate::ast::lemma_view_exprs(parameters@);
            crate::object::lemma_view_objs(args@);
        }
        let ghost pvs = crate::ast::view_exprs(parameters@);
        let ghost avs = view_objs(args@);
        let np = parameters.len();
        let mut i: usize = 0;
        while i < np
            invariant
                self.wf(),
                self.cur == old(self).cur,
                self.sources == old(self).sources,
                self.env@.len() == old(self).env@.len(),
                (fresh as int) < self.env@.len(),
                i <= np,
                np == parameters@.len(),
                pvs == crate::ast::view_exprs(parameters@),
                pvs.len() == np,
                forall|j: int| 0 <= j < np ==> pvs[j] == crate::ast::view_expr(parameters@[j]),
                avs == view_objs(args@),
                avs.len() == args@.len(),
                forall|j: int| 0 <= j < args@.len() ==> avs[j] == args@[j]@,
                forall|j: int| 0 <= j < args@.len() ==> obj_wf(
                    #[trigger] args@[j]@,
                    self.env@.len() as int,
                ),
                bind_params_s(old(self).env@, fresh as int, pvs, avs, 0) == bind_params_s(
                    self.env@,
                    fresh as int,
                    pvs,
                    avs,
                    i as int,
                ),
            decreases np - i,
        {
            match &parameters[i] {
                Expression::Identifier { value } => {
                    if i < args.len() {
                        self.env.set(fresh, value.clone(), args[i].clone());
                    } else {
                        proof {
                            assert(bind_params_s(self.env@, fresh as int, pvs, avs, i as int) == (
                                self.env@,
                                Some(ROut::Fault(FaultKind::ArityMismatch)),
                            ));
                        }
                        return Some(EvalResult::Fault(FaultKind::ArityMismatch));
                    }
                },
                _ => {
                    proof {
                        assert(bind_params_s(self.env@, fresh as int, pvs, avs, i as int) == (
                            self.env@,
                            Some(ROut::NoVal),
                        ));
                    }
                    return Some(EvalResult::NoValue);
                },
            }
            i += 1;
        }
        None
    }

    /// Apply an evaluated callee to its evaluated arguments.
    #[verifier::rlimit(100)]
    fn apply_function(&mut self, func: Object, args: Vec<Object>, fuel: u64) -> (r: EvalResult)
        requires
            old(self).wf(),
            obj_wf(func@, old(self).env@.len() as int),
            forall|j: int| 0 <= j < args@.len() ==> obj_wf(
                #[trigger] args@[j]@,
                old(self).env@.len() as int,
            ),
        ensures
            final(self).wf(),
            final(self).cur == old(self).cur,
            final(self).sources == old(self).sources,
            old(self).env@.len() <= final(self).env@.len(),
            apply_function_s(
                old(self).env@,
                old(self).cur as int,
                old(self).srcs_v(),
                func@,
                view_objs(args@),
                fuel as nat,
            ) == (final(self).env@, view_res(r)),
            r_wf(view_res(r), final(self).env@.len() as int),
        decreases fuel, args@, 1int,
    {
        proof {
            crate::object::lemma_view_objs(args@);
        }
        let ghost fv = func@;
        let ghost target = apply_function_s(
            old(self).env@,
            old(self).cur as int,
            old(self).srcs_v(),
            func@,
            view_objs(args@),
            fuel as nat,
        );
        match func {
            Object::Function { parameters, body, env } => {
                let ghost n0 = self.env@.len() as int;
                let fresh = self.env.new_enclosed_environment(env);
                proof {
                    crate::ast::lemma_view_exprs(parameters@);
                }
                let ghost pvs = crate::ast::view_exprs(parameters@);
                let ghost avs = view_objs(args@);
                let ghost sc1 = self.env@;
                proof {
                    assert forall|j: int| 0 <= j < args@.len() implies obj_wf(
                        #[trigger] args@[j]@,
                        self.env@.len() as int,
                    ) by {
                        crate::object::lemma_obj_wf_mono(args@[j]@, n0, self.env@.len() as int);
                    }
                }
                let stop = self.bind_parameters(fresh, &parameters, &args);
                match stop {
                    Some(r) => {
                        proof {
                            assert(target == (self.env@, view_res(r)));
                        }
                        return r;
                    },
                    None => {},
                }
                if fuel == 0 {
                    return EvalResult::Fault(FaultKind::DepthLimit);
                }
                let saved = self.cur;
                self.cur = fresh;
                let br = self.eval_statement(&body, fuel - 1);
                self.cur = saved;
                match br {
                    EvalResult::Value(v) => match v {
                        Object::Return(inner) => EvalResult::Value(*inner),
                        other => EvalResult::Value(other),
                    },
                    EvalResult::NoValue => EvalResult::NoValue,
                    EvalResult::Fault(k) => EvalResult::Fault(k),
                }
            },
            Object::Builtin(kind) => {
                if kind == BuiltinKind::Import {
                    self.eval_import(&args, fuel)
                } else if kind == BuiltinKind::Puts {
                    let m = args.len();
                    let mut i: usize = 0;
                    while i < m
                        invariant
                            i <= m,
                            m == args@.len(),
                        decreases m - i,
                    {
                        let line = args[i].string();
                        crate::builtin::print_line(line.as_str());
                        i += 1;
                    }
                    EvalResult::Value(Object::Null)
                } else {
                    let r = crate::builtin::apply_builtin(kind, &args);
                    proof {
                        assert forall|j: int| 0 <= j < view_objs(args@).len() implies obj_wf(
                            #[trigger] view_objs(args@)[j],
                            self.env@.len() as int,
                        ) by {
                            assert(view_objs(args@)[j] == args@[j]@);
                        }
                        crate::builtin::lemma_apply_builtin_wf(
                            kind,
                            view_objs(args@),
                            self.env@.len() as int,
                        );
                    }
                    r
                }
            },
            _ => EvalResult::NoValue,
        }
    }

    /// The `import` built-in: run the stored program for the named path
    /// in this evaluator's environment.
    fn eval_import(&mut self, args: &Vec<Object>, fuel: u64) -> (r: EvalResult)
        requires
            old(self).wf(),
        ensures
            final(self).wf(),
            final(self).cur == old(self).cur,
            final(self).sources == old(self).sources,
            old(self).env@.len() <= final(self).env@.len(),
            eval_import_s(
                old(self).env@,
                old(self).cur as int,
                old(self).srcs_v(),
                view_objs(args@),
                fuel as nat,
            ) == (final(self).env@, view_res(r)),
            r_wf(view_res(r), final(self).env@.len() as int),
        decreases fuel, args@, 0int,
    {
        proof {
            crate::object::lemma_view_objs(args@);
        }
        if args.len() != 1 {
            return EvalResult::Value(crate::builtin::wrong_args_error(args.len(), "1"));
        }
        match &args[0] {
            Object::String(path) => {
                let found = self.find_source(path);
                match found {
                    None => {
                        let mut m = String::from_str("Could not open or find file: ");
                        m.append(path.as_str());
                        EvalResult::Value(Object::Error(m))
                    },
                    Some(SourceEntry::Failed(msg)) => EvalResult::Value(Object::Error(msg)),
                    Some(SourceEntry::Parsed(prog)) => {
                        if fuel == 0 {
                            EvalResult::Fault(FaultKind::DepthLimit)
                        } else {
                            let r = self.eval_program_inner(&prog, fuel - 1);
                            match r {
                                EvalResult::Value(v) => EvalResult::Value(v),
                                EvalResult::NoValue => EvalResult::Value(
                                    Object::Error(String::from_str("cannot evaluate error!\r\n")),
                                ),
                                EvalResult::Fault(k) => EvalResult::Fault(k),
                            }
                        }
                    },
                }
            },
            _ => EvalResult::Value(
                crate::builtin::bad_arg_error("argument to `len` not supported, got ", &args[0]),
            ),
        }
    }

    /// Evaluate a program and report the full outcome, faults included.
    pub fn eval_outcome(&mut self, program: &Program) -> (r: EvalResult)
        requires
            old(self).wf(),
        ensures
            final(self).wf(),
            final(self).cur == old(self).cur,
            final(self).sources == old(self).sources,
            eval_program_s(
                old(self).env@,
                old(self).cur as int,
                old(self).srcs_v(),
                program@,
                u64::MAX as nat,
            ) == (final(self).env@, view_res(r)),
            r_wf(view_res(r), final(self).env@.len() as int),
    {
        self.eval_program_inner(program, u64::MAX)
    }

    /// Evaluate a program; a fault or an absent value both come back as
    /// `None`, and `eval_outcome` tells them apart.
    pub fn eval_program(&mut self, program: Program) -> (r: Option<Object>)
        requires
            old(self).wf(),
        ensures
            final(self).wf(),
            final(self).cur == old(self).cur,
            final(self).sources == old(self).sources,
            ({
                let (sc, out) = eval_program_s(
                    old(self).env@,
                    old(self).cur as int,
                    old(self).srcs_v(),
                    program@,
                    u64::MAX as nat,
                );
                &&& final(self).env@ == sc
                &&& (match out {
                    ROut::Val(v) => r.is_some() && r.unwrap()@ == v,
                    _ => r.is_none(),
                })
            }),
    {
        match self.eval_outcome(&program) {
            EvalResult::Value(o) => Some(o),
            EvalResult::NoValue => None,
            EvalResult::Fault(_) => None,
        }
    }
}



pub proof fn lemma_view_sources_push(v: Seq<(String, SourceEntry)>, e: (String, SourceEntry))
    ensures
        view_sources(v.push(e)) == view_sources(v).push((e.0@, view_source(e.1))),
    decreases v,
{
    if v.len() == 0 {
        assert(v.push(e).drop_first() =~= Seq::<(String, SourceEntry)>::empty());
        assert(view_sources(Seq::<(String, SourceEntry)>::empty()) == Seq::<(Seq<char>, SrcV)>::empty());
        assert(v.push(e)[0] == e);
        assert(view_sources(v.push(e)) =~= view_sources(v).push((e.0@, view_source(e.1))));
    } else {
        lemma_view_sources_push(v.drop_first(), e);
        assert(v.push(e).drop_first() =~= v.drop_first().push(e));
        assert(v.push(e)[0] == v[0]);
        assert(view_sources(v.push(e)) =~= view_sources(v).push((e.0@, view_source(e.1))));
    }
}

/// The lines of the diagnostics block a failed parse reports: each
/// message tab-indented on its own CRLF-terminated line.
pub open spec fn errors_lines(errs: Seq<Seq<char>>) -> Seq<char>
    decreases errs,
{
    if errs.len() == 0 {
        Seq::empty()
    } else {
        seq!['\t'] + errs[0] + "\r\n"@ + errors_lines(errs.drop_first())
    }
}

/// The whole diagnostics block: its heading and the message lines.
pub open spec fn parse_errors_msg(errs: Seq<Seq<char>>) -> Seq<char> {
    "parser errors:\r\n"@ + errors_lines(errs)
}

pub proof fn lemma_errors_lines_snoc(errs: Seq<Seq<char>>)
    requires
        errs.len() > 0,
    ensures
        errors_lines(errs) == errors_lines(errs.drop_last()) + seq!['\t'] + errs.last() + "\r\n"@,
    decreases errs,
{
    reveal_strlit("\r\n");
    if errs.len() == 1 {
        assert(errs.drop_first() =~= Seq::<Seq<char>>::empty());
        assert(errs.drop_last() =~= Seq::<Seq<char>>::empty());
        assert(errors_lines(Seq::<Seq<char>>::empty()) == Seq::<char>::empty());
        assert(errors_lines(errs) =~= errors_lines(errs.drop_last()) + seq!['\t'] + errs.last()
            + "\r\n"@);
    } else {
        lemma_errors_lines_snoc(errs.drop_first());
        let tb: Seq<char> = seq!['\t'];
        let nl: Seq<char> = "\r\n"@;
        let x0 = errs[0];
        let r = errors_lines(errs.drop_first().drop_last());
        let xl = errs.last();
        assert(errs.drop_last().len() > 0);
        assert(errs.drop_last().drop_first() =~= errs.drop_first().drop_last());
        assert(errs.drop_last()[0] == errs[0]);
        assert(errs.drop_first().last() == errs.last());
        assert(errors_lines(errs) == tb + x0 + nl + errors_lines(errs.drop_first()));
        assert(errors_lines(errs.drop_first()) == r + tb + xl + nl);
        assert(errors_lines(errs.drop_last()) == tb + x0 + nl + r);
        vstd::seq_lib::lemma_concat_associative(tb + x0 + nl, r + tb + xl, nl);
        vstd::seq_lib::lemma_concat_associative(tb + x0 + nl, r + tb, xl);
        vstd::seq_lib::lemma_concat_associative(tb + x0 + nl, r, tb);
        assert(errors_lines(errs) =~= errors_lines(errs.drop_last()) + tb + xl + nl);
    }
}

impl Evaluator {
    /// Hand the evaluator the text of a file so the `import` built-in can
    /// run it later: the text is parsed now, and either the program or
    /// the diagnostic text is stored under `path`.
    pub fn provide_source(&mut self, path: String, text: &str)
        ensures
            final(self).env == old(self).env,
            final(self).cur == old(self).cur,
            final(self).srcs_v().len() == old(self).srcs_v().len() + 1,
            final(self).srcs_v().drop_last() == old(self).srcs_v(),
            final(self).srcs_v().last().0 == path@,
            ({
                let toks = crate::lexer::tokenize_s(text@, 0);
                let st0 = crate::parser::parser_init_s(toks);
                let (st2, stmts) = crate::parser::parse_program_s(st0);
                final(self).srcs_v().last().1 == (if st2.errors.len() == 0 && !st2.incomplete {
                    SrcV::Parsed(stmts)
                } else {
                    SrcV::Failed(parse_errors_msg(st2.errors))
                })
            }),
    {
        let l = crate::lexer::Lexer::new(text);
        let mut p = crate::parser::Parser::new(l);
        let program = p.parse_program();
        proof {
            crate::parser::lemma_pstate(p);
            crate::parser::lemma_view_errors(p.errors@);
        }
        let ghost st2 = p.pstate();
        let failed = p.errors.len() != 0 || p.need_next();
        let entry = if failed {
            let mut sm = String::from_str("parser errors:\r\n");
            let ne = p.errors.len();
            let mut i: usize = 0;
            proof {
                assert(st2.errors.take(0) =~= Seq::<Seq<char>>::empty());
            }
            while i < ne
                invariant
                    i <= ne,
                    ne == p.errors@.len(),
                    st2 == p.pstate(),
                    st2.errors.len() == ne,
                    forall|k: int| 0 <= k < ne ==> st2.errors[k] == (#[trigger] p.errors@[k])@,
                    sm@ == "parser errors:\r\n"@ + errors_lines(st2.errors.take(i as int)),
                decreases ne - i,
            {
                proof {
                    reveal_strlit("\t");
                }
                sm.append("\t");
                sm.append(p.errors[i].as_str());
                sm.append("\r\n");
                proof {
                    let evs = st2.errors;
                    assert(evs.take(i + 1).drop_last() =~= evs.take(i as int));
                    assert(evs.take(i + 1).last() == evs[i as int]);
                    lemma_errors_lines_snoc(evs.take(i + 1));
                    assert("\t"@ =~= seq!['\t']);
                    assert(sm@ =~= "parser errors:\r\n"@ + errors_lines(evs.take(i + 1)));
                }
                i += 1;
            }
            proof {
                assert(st2.errors.take(ne as int) =~= st2.errors);
                assert(sm@ =~= parse_errors_msg(st2.errors));
            }
            SourceEntry::Failed(sm)
        } else {
            SourceEntry::Parsed(program)
        };
        let ghost before = self.sources@;
        proof {
            lemma_view_sources_push(before, (path, entry));
        }
        self.sources.push((path, entry));
        proof {
            assert(final(self).srcs_v().drop_last() =~= old(self).srcs_v());
        }
    }
}

/// The frame property of evaluation: running any statement can add new
/// scopes and rebind names in the current scope, but every other
/// existing scope is left exactly as it was. An inner `let` inside a
/// called function therefore never mutates a captured outer scope.
pub proof fn lemma_stmt_frame(
    sc: Seq<ScopeV>,
    cur: int,
    srcs: Seq<(Seq<char>, SrcV)>,
    stmt: StmtV,
    fuel: nat,
)
    requires
        0 <= cur < sc.len(),
    ensures
        ({
            let (sc2, _) = eval_stmt_s(sc, cur, srcs, stmt, fuel);
            &&& sc2.len() >= sc.len()
            &&& forall|i: int| 0 <= i < sc.len() && i != cur ==> sc2[i] == sc[i]
        }),
    decreases fuel, stmt, 2int,
{
    match stmt {
        StmtV::Let { name, value } => {
            lemma_expr_frame(sc, cur, srcs, *value, fuel);
        },
        StmtV::Return { value } => {
            lemma_expr_frame(sc, cur, srcs, *value, fuel);
        },
        StmtV::Expr { expression } => {
            lemma_expr_frame(sc, cur, srcs, *expression, fuel);
        },
        StmtV::Block { statements } => {
            lemma_block_frame(sc, cur, srcs, statements, fuel);
        },
    }
}

pub proof fn lemma_block_frame(
    sc: Seq<ScopeV>,
    cur: int,
    srcs: Seq<(Seq<char>, SrcV)>,
    stmts: Seq<StmtV>,
    fuel: nat,
)
    requires
        0 <= cur < sc.len(),
    ensures
        ({
            let (sc2, _) = eval_block_s(sc, cur, srcs, stmts, fuel);
            &&& sc2.len() >= sc.len()
            &&& forall|i: int| 0 <= i < sc.len() && i != cur ==> sc2[i] == sc[i]
        }),
    decreases fuel, stmts, 2int,
{
    if stmts.len() > 0 {
        lemma_stmt_frame(sc, cur, srcs, stmts[0], fuel);
        let (sc1, r) = eval_stmt_s(sc, cur, srcs, stmts[0], fuel);
        if stmts.len() > 1 {
            lemma_block_frame(sc1, cur, srcs, stmts.drop_first(), fuel);
        }
    }
}

pub proof fn lemma_program_frame(
    sc: Seq<ScopeV>,
    cur: int,
    srcs: Seq<(Seq<char>, SrcV)>,
    stmts: Seq<StmtV>,
    fuel: nat,
)
    requires
        0 <= cur < sc.len(),
    ensures
        ({
            let (sc2, _) = eval_program_s(sc, cur, srcs, stmts, fuel);
            &&& sc2.len() >= sc.len()
            &&& forall|i: int| 0 <= i < sc.len() && i != cur ==> sc2[i] == sc[i]
        }),
    decreases fuel, stmts, 2int,
{
    if stmts.len() > 0 {
        lemma_stmt_frame(sc, cur, srcs, stmts[0], fuel);
        let (sc1, r) = eval_stmt_s(sc, cur, srcs, stmts[0], fuel);
        if stmts.len() > 1 {
            lemma_program_frame(sc1, cur, srcs, stmts.drop_first(), fuel);
        }
    }
}

pub proof fn lemma_exprs_frame(
    sc: Seq<ScopeV>,
    cur: int,
    srcs: Seq<(Seq<char>, SrcV)>,
    es: Seq<ExprV>,
    fuel: nat,
)
    requires
        0 <= cur < sc.len(),
    ensures
        ({
            let (sc2, _) = eval_exprs_s(sc, cur, srcs, es, fuel);
            &&& sc2.len() >= sc.len()
            &&& forall|i: int| 0 <= i < sc.len() && i != cur ==> sc2[i] == sc[i]
        }),
    decreases fuel, es, 2int,
{
    if es.len() > 0 {
        lemma_expr_frame(sc, cur, srcs, es[0], fuel);
        let (sc1, r) = eval_expr_s(sc, cur, srcs, es[0], fuel);
        match r {
            ROut::Val(v) => {
                if !is_error_v(v) {
                    lemma_exprs_frame(sc1, cur, srcs, es.drop_first(), fuel);
                }
            },
            ROut::NoVal => {
                lemma_exprs_frame(sc1, cur, srcs, es.drop_first(), fuel);
            },
            ROut::Fault(_) => {},
        }
    }
}

pub proof fn lemma_expr_frame(
    sc: Seq<ScopeV>,
    cur: int,
    srcs: Seq<(Seq<char>, SrcV)>,
    e: ExprV,
    fuel: nat,
)
    requires
        0 <= cur < sc.len(),
    ensures
        ({
            let (sc2, _) = eval_expr_s(sc, cur, srcs, e, fuel);
            &&& sc2.len() >= sc.len()
            &&& forall|i: int| 0 <= i < sc.len() && i != cur ==> sc2[i] == sc[i]
        }),
    decreases fuel, e, 2int,
{
    match e {
        ExprV::Prefix { right, .. } => {
            lemma_expr_frame(sc, cur, srcs, *right, fuel);
        },
        ExprV::Infix { left, right, .. } => {
            lemma_expr_frame(sc, cur, srcs, *right, fuel);
            let (sc1, r) = eval_expr_s(sc, cur, srcs, *right, fuel);
            lemma_expr_frame(sc1, cur, srcs, *left, fuel);
        },
        ExprV::If { cond, cons, alt } => {
            lemma_expr_frame(sc, cur, srcs, *cond, fuel);
            let (sc1, r) = eval_expr_s(sc, cur, srcs, *cond, fuel);
            match r {
                ROut::Val(cv) => {
                    if !is_error_v(cv) {
                        if truthy(cv) {
                            lemma_stmt_frame(sc1, cur, srcs, *cons, fuel);
                        } else {
                            match alt {
                                Some(a) => {
                                    lemma_stmt_frame(sc1, cur, srcs, *a, fuel);
                                },
                                None => {},
                            }
                        }
                    }
                },
                _ => {},
            }
        },
        ExprV::Call { func, args } => {
            lemma_expr_frame(sc, cur, srcs, *func, fuel);
            let (sc1, fr) = eval_expr_s(sc, cur, srcs, *func, fuel);
            match fr {
                ROut::Val(fv) => {
                    lemma_exprs_frame(sc1, cur, srcs, args, fuel);
                    let (sc2, ar) = eval_exprs_s(sc1, cur, srcs, args, fuel);
                    match ar {
                        ArgsOut::Vals(vs) => {
                            match fv {
                                ObjV::Func { .. } | ObjV::Builtin { .. } => {
                                    if fuel > 0 {
                                        lemma_apply_frame(
                                            sc2,
                                            cur,
                                            srcs,
                                            fv,
                                            vs,
                                            (fuel - 1) as nat,
                                        );
                                    }
                                },
                                _ => {},
                            }
                        },
                        _ => {},
                    }
                },
                _ => {},
            }
        },
        _ => {},
    }
}

/// Applying a callee never changes any scope that already existed: a
/// closure's bindings go into a fresh scope, and `import` runs at the
/// caller's current scope.
pub proof fn lemma_apply_frame(
    sc: Seq<ScopeV>,
    cur: int,
    srcs: Seq<(Seq<char>, SrcV)>,
    f: ObjV,
    args: Seq<ObjV>,
    fuel: nat,
)
    requires
        0 <= cur < sc.len(),
    ensures
        ({
            let (sc2, _) = apply_function_s(sc, cur, srcs, f, args, fuel);
            &&& sc2.len() >= sc.len()
            &&& forall|i: int| 0 <= i < sc.len() && i != cur ==> sc2[i] == sc[i]
        }),
    decreases fuel, args, 1int,
{
    match f {
        ObjV::Func { params, body, env } => {
            let fresh = sc.len() as int;
            let sc1 = sc.push(ScopeV { bindings: Seq::empty(), outer: Some(env) });
            lemma_bind_frame(sc1, fresh, params, args, 0);
            let (sc2, stop) = bind_params_s(sc1, fresh, params, args, 0);
            match stop {
                Some(_) => {},
                None => {
                    if fuel > 0 {
                        lemma_stmt_frame(sc2, fresh, srcs, *body, (fuel - 1) as nat);
                    }
                },
            }
        },
        ObjV::Builtin { kind } => {
            match kind {
                BuiltinKind::Import => {
                    lemma_import_frame(sc, cur, srcs, args, fuel);
                },
                _ => {},
            }
        },
        _ => {},
    }
}

pub proof fn lemma_import_frame(
    sc: Seq<ScopeV>,
    cur: int,
    srcs: Seq<(Seq<char>, SrcV)>,
    args: Seq<ObjV>,
    fuel: nat,
)
    requires
        0 <= cur < sc.len(),
    ensures
        ({
            let (sc2, _) = eval_import_s(sc, cur, srcs, args, fuel);
            &&& sc2.len() >= sc.len()
            &&& forall|i: int| 0 <= i < sc.len() && i != cur ==> sc2[i] == sc[i]
        }),
    decreases fuel, args, 0int,
{
    if args.len() == 1 {
        match args[0] {
            ObjV::Str { value } => {
                match src_lookup(srcs, value) {
                    Some(SrcV::Parsed(stmts)) => {
                        if fuel > 0 {
                            lemma_program_frame(sc, cur, srcs, stmts, (fuel - 1) as nat);
                        }
                    },
                    _ => {},
                }
            },
            _ => {},
        }
    }
}

/// Binding parameters writes only into the scope being filled.
pub proof fn lemma_bind_frame(
    sc: Seq<ScopeV>,
    idx: int,
    params: Seq<ExprV>,
    args: Seq<ObjV>,
    i: int,
)
    requires
        0 <= idx < sc.len(),
    ensures
        ({
            let (sc2, _) = bind_params_s(sc, idx, params, args, i);
            &&& sc2.len() == sc.len()
            &&& forall|j: int| 0 <= j < sc.len() && j != idx ==> sc2[j] == sc[j]
        }),
    decreases params.len() - i,
{
    if 0 <= i < params.len() {
        match params[i] {
            ExprV::Ident { name } => {
                if i < args.len() {
                    lemma_bind_frame(env_set_s(sc, idx, name, args[i]), idx, params, args, i + 1);
                }
            },
            _ => {},
        }
    }
}

/// The `push` built-in is pure: it hands back a fresh array holding the
/// old elements and then the new one, and its arguments, the array it
/// was handed among them, are left untouched.
pub proof fn lemma_push_builtin(args: Seq<ObjV>, elems: Seq<ObjV>)
    requires
        args.len() == 2,
        args[0] == (ObjV::Array { elems }),
    ensures
        apply_builtin_s(BuiltinKind::Push, args) == ROut::Val(
            ObjV::Array { elems: elems.push(args[1]) },
        ),
{
}


} // verus!
