//! The built-in functions: the fixed table the evaluator installs in the
//! global scope, and the native behaviour of the pure ones. `puts` and
//! `import` need the evaluator itself and live there.

use crate::evaluator::{apply_builtin_s, msg_wrong_args, r_wf, view_res, EvalResult, FaultKind, ROut};
use crate::object::{kind_name, obj_wf, view_objs, BuiltinKind, ObjV, Object};
use crate::strutil::push_dec_u64;
use std::io::Write;
use vstd::prelude::*;

verus! {

/// The bindings the builtin table adds to the global scope.
pub open spec fn builtin_bindings() -> Seq<(Seq<char>, ObjV)> {
    seq![
        ("len"@, ObjV::Builtin { kind: BuiltinKind::Len }),
        ("first"@, ObjV::Builtin { kind: BuiltinKind::First }),
        ("last"@, ObjV::Builtin { kind: BuiltinKind::Last }),
        ("rest"@, ObjV::Builtin { kind: BuiltinKind::Rest }),
        ("push"@, ObjV::Builtin { kind: BuiltinKind::Push }),
        ("import"@, ObjV::Builtin { kind: BuiltinKind::Import }),
        ("exit"@, ObjV::Builtin { kind: BuiltinKind::Exit }),
        ("puts"@, ObjV::Builtin { kind: BuiltinKind::Puts }),
    ]
}

/// The builtin table, in the order the names are installed.
pub fn new_builtins() -> (r: Vec<(String, Object)>)
    ensures
        r@.len() == builtin_bindings().len(),
        forall|i: int| 0 <= i < r@.len() ==> (r@[i].0@, r@[i].1@) == builtin_bindings()[i],
{
    let mut r: Vec<(String, Object)> = Vec::new();
    r.push((String::from_str("len"), Object::Builtin(BuiltinKind::Len)));
    r.push((String::from_str("first"), Object::Builtin(BuiltinKind::First)));
    r.push((String::from_str("last"), Object::Builtin(BuiltinKind::Last)));
    r.push((String::from_str("rest"), Object::Builtin(BuiltinKind::Rest)));
    r.push((String::from_str("push"), Object::Builtin(BuiltinKind::Push)));
    r.push((String::from_str("import"), Object::Builtin(BuiltinKind::Import)));
    r.push((String::from_str("exit"), Object::Builtin(BuiltinKind::Exit)));
    r.push((String::from_str("puts"), Object::Builtin(BuiltinKind::Puts)));
    r
}

/// Relies on std::io::stdout and the write macro: prints `s` and a CRLF
/// to standard output. Nothing about the result is assumed.
#[verifier::external_body]
pub(crate) fn print_line(s: &str) {
    let mut out = std::io::stdout();
    let _ = write!(out, "{}\r\n", s);
    let _ = out.flush();
}

/// The complaint a built-in raises for a wrong argument count.
pub(crate) fn wrong_args_error(got: usize, want: &str) -> (r: Object)
    ensures
        r@ == (ObjV::Error { msg: msg_wrong_args(got as int, want@) }),
{
    let mut m = String::from_str("wrong number of arguments. got=");
    push_dec_u64(&mut m, got as u64);
    m.append(", want=");
    m.append(want);
    Object::Error(m)
}

/// The complaint a built-in raises for an argument of the wrong type;
/// `prefix` already names the built-in.
pub(crate) fn bad_arg_error(prefix: &str, arg: &Object) -> (r: Object)
    ensures
        r@ == (ObjV::Error { msg: prefix@ + kind_name(arg@) }),
{
    let mut m = String::from_str(prefix);
    m.append(arg.kind_name_str());
    Object::Error(m)
}

/// Run one of the pure built-ins on fully evaluated arguments.
pub fn apply_builtin(kind: BuiltinKind, args: &Vec<Object>) -> (r: EvalResult)
    requires
        kind != BuiltinKind::Puts,
        kind != BuiltinKind::Import,
    ensures
        view_res(r) == apply_builtin_s(kind, view_objs(args@)),
{
    proof {
        crate::object::lemma_view_objs(args@);
    }
    let n = args.len();
    match kind {
        BuiltinKind::Len => {
            if n != 1 {
                return EvalResult::Value(wrong_args_error(n, "1"));
            }
            match &args[0] {
                Object::String(s) => {
                    let len = s.as_str().unicode_len();
                    if len as u64 > i64::MAX as u64 {
                        EvalResult::Fault(FaultKind::IntegerOverflow)
                    } else {
                        EvalResult::Value(Object::Integer(len as i64))
                    }
                },
                Object::Array(elems) => {
                    proof {
                        crate::object::lemma_view_objs(elems@);
                    }
                    let len = elems.len();
                    if len as u64 > i64::MAX as u64 {
                        EvalResult::Fault(FaultKind::IntegerOverflow)
                    } else {
                        EvalResult::Value(Object::Integer(len as i64))
                    }
                },
                _ => EvalResult::Value(
                    bad_arg_error("argument to `len` not supported, got ", &args[0]),
                ),
            }
        },
        BuiltinKind::First => {
            if n != 1 {
                return EvalResult::Value(wrong_args_error(n, "1"));
            }
            match &args[0] {
                Object::Array(elems) => {
                    proof {
                        crate::object::lemma_view_objs(elems@);
                    }
                    if elems.len() > 0 {
                        EvalResult::Value(elems[0].clone())
                    } else {
                        EvalResult::Value(Object::Null)
                    }
                },
                _ => EvalResult::Value(
                    bad_arg_error("argument to `first` must be array. got ", &args[0]),
                ),
            }
        },
        BuiltinKind::Last => {
            if n != 1 {
                return EvalResult::Value(wrong_args_error(n, "1"));
            }
            match &args[0] {
                Object::Array(elems) => {
                    proof {
                        crate::object::lemma_view_objs(elems@);
                    }
                    if elems.len() > 0 {
                        EvalResult::Value(elems[elems.len() - 1].clone())
                    } else {
                        EvalResult::Value(Object::Null)
                    }
                },
                _ => EvalResult::Value(
                    bad_arg_error("argument to `last` must be array. got ", &args[0]),
                ),
            }
        },
        BuiltinKind::Rest => {
            if n != 1 {
                return EvalResult::Value(wrong_args_error(n, "1"));
            }
            match &args[0] {
                Object::Array(elems) => {
                    if elems.len() > 0 {
                        let mut rest: Vec<Object> = Vec::new();
                        let m = elems.len();
                        let mut i: usize = 1;
                        while i < m
                            invariant
                                1 <= i <= m,
                                m == elems@.len(),
                                rest@.len() == i - 1,
                                forall|j: int| 0 <= j < i - 1 ==> rest@[j]@ == elems@[j + 1]@,
                            decreases m - i,
                        {
                            rest.push(elems[i].clone());
                            i += 1;
                        }
                        proof {
                            crate::object::lemma_view_objs(rest@);
                            crate::object::lemma_view_objs(elems@);
                            assert(view_objs(rest@) =~= view_objs(elems@).drop_first());
                        }
                        EvalResult::Value(Object::Array(rest))
                    } else {
                        EvalResult::Value(Object::Null)
                    }
                },
                _ => EvalResult::Value(
                    bad_arg_error("argument to `rest` must be array. got ", &args[0]),
                ),
            }
        },
        BuiltinKind::Push => {
            if n != 2 {
                return EvalResult::Value(wrong_args_error(n, "2"));
            }
            match &args[0] {
                Object::Array(elems) => {
                    let mut grown = crate::object::clone_obj_vec(elems);
                    grown.push(args[1].clone());
                    proof {
                        crate::object::lemma_view_objs(grown@);
                        crate::object::lemma_view_objs(elems@);
                        assert(view_objs(grown@) =~= view_objs(elems@).push(args@[1]@));
                    }
                    EvalResult::Value(Object::Array(grown))
                },
                _ => EvalResult::Value(
                    bad_arg_error("argument to `push` must be array. got ", &args[0]),
                ),
            }
        },
        BuiltinKind::Exit => {
            if n > 1 {
                return EvalResult::Value(wrong_args_error(n, "1"));
            }
            if n == 0 {
                return EvalResult::Value(Object::Exit);
            }
            match &args[0] {
                Object::Integer(_) => EvalResult::Value(Object::Exit),
                _ => EvalResult::Value(
                    bad_arg_error("argument to `len` not supported, got ", &args[0]),
                ),
            }
        },
        BuiltinKind::Puts => EvalResult::NoValue,
        BuiltinKind::Import => EvalResult::NoValue,
    }
}

/// A pure built-in's result is well formed whenever its arguments are.
pub proof fn lemma_apply_builtin_wf(kind: BuiltinKind, args: Seq<ObjV>, n: int)
    requires
        forall|i: int| 0 <= i < args.len() ==> obj_wf(#[trigger] args[i], n),
    ensures
        r_wf(apply_builtin_s(kind, args), n),
{
    match apply_builtin_s(kind, args) {
        ROut::Val(v) => {
            match kind {
                BuiltinKind::First => {
                    if args.len() == 1 {
                        match args[0] {
                            ObjV::Array { elems } => {
                                assert(obj_wf(args[0], n));
                                if elems.len() > 0 {
                                    assert(obj_wf(elems[0], n));
                                }
                            },
                            _ => {},
                        }
                    }
                },
                BuiltinKind::Last => {
                    if args.len() == 1 {
                        match args[0] {
                            ObjV::Array { elems } => {
                                assert(obj_wf(args[0], n));
                                if elems.len() > 0 {
                                    assert(obj_wf(elems[elems.len() - 1], n));
                                }
                            },
                            _ => {},
                        }
                    }
                },
                BuiltinKind::Rest => {
                    if args.len() == 1 {
                        match args[0] {
                            ObjV::Array { elems } => {
                                assert(obj_wf(args[0], n));
                                if elems.len() > 0 {
                                    assert forall|i: int|
                                        0 <= i < elems.drop_first().len() implies obj_wf(
                                        #[trigger] elems.drop_first()[i],
                                        n,
                                    ) by {
                                        assert(elems.drop_first()[i] == elems[i + 1]);
                                        assert(obj_wf(elems[i + 1], n));
                                    }
                                }
                            },
                            _ => {},
                        }
                    }
                },
                BuiltinKind::Push => {
                    if args.len() == 2 {
                        match args[0] {
                            ObjV::Array { elems } => {
                                assert(obj_wf(args[0], n));
                                assert(obj_wf(args[1], n));
                                let grown = elems.push(args[1]);
                                assert forall|i: int| 0 <= i < grown.len() implies obj_wf(
                                    #[trigger] grown[i],
                                    n,
                                ) by {
                                    if i < elems.len() {
                                        assert(grown[i] == elems[i]);
                                        assert(obj_wf(elems[i], n));
                                    } else {
                                        assert(grown[i] == args[1]);
                                    }
                                }
                            },
                            _ => {},
                        }
                    }
                },
                _ => {},
            }
        },
        _ => {},
    }
}

} // verus!
