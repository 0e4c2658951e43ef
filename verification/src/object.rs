//! The runtime value model: a closed tagged union of the values the
//! evaluator produces, with type names, display rendering, and the
//! well-formedness condition tying closures to the scope arena.

use crate::ast::{
    clone_expr_vec, push_joined_exprs, render_joined, view_exprs, view_stmt, ExprV, Statement,
    StmtV,
};
use crate::strutil::{int_rep, push_dec_i64};
use vstd::prelude::*;

verus! {

/// The built-in functions callable from the language.
#[derive(Clone, Copy, PartialEq, Eq, Structural, Debug)]
pub enum BuiltinKind {
    Len,
    First,
    Last,
    Rest,
    Push,
    Puts,
    Import,
    Exit,
}

/// A runtime value.
pub enum Object {
    Integer(i64),
    String(String),
    Boolean(bool),
    Return(Box<Object>),
    Error(String),
    Builtin(BuiltinKind),
    Array(Vec<Object>),
    Function { parameters: Vec<crate::ast::Expression>, body: Statement, env: usize },
    Null,
    Exit,
}

/// The mathematical form of a runtime value.
pub enum ObjV {
    Int { value: int },
    Str { value: Seq<char> },
    Bool { value: bool },
    Return { value: Box<ObjV> },
    Error { msg: Seq<char> },
    Builtin { kind: BuiltinKind },
    Array { elems: Seq<ObjV> },
    Func { params: Seq<ExprV>, body: Box<StmtV>, env: int },
    Null,
    Exit,
}

pub open spec fn view_obj(o: Object) -> ObjV
    decreases o,
{
    match o {
        Object::Integer(value) => ObjV::Int { value: value as int },
        Object::String(value) => ObjV::Str { value: value@ },
        Object::Boolean(value) => ObjV::Bool { value },
        Object::Return(value) => ObjV::Return { value: Box::new(view_obj(*value)) },
        Object::Error(msg) => ObjV::Error { msg: msg@ },
        Object::Builtin(kind) => ObjV::Builtin { kind },
        Object::Array(elems) => ObjV::Array { elems: view_objs(elems@) },
        Object::Function { parameters, body, env } => ObjV::Func {
            params: view_exprs(parameters@),
            body: Box::new(view_stmt(body)),
            env: env as int,
        },
        Object::Null => ObjV::Null,
        Object::Exit => ObjV::Exit,
    }
}

pub open spec fn view_objs(v: Seq<Object>) -> Seq<ObjV>
    decreases v,
{
    if v.len() == 0 {
        Seq::empty()
    } else {
        seq![view_obj(v[0])] + view_objs(v.drop_first())
    }
}

pub proof fn lemma_view_objs(v: Seq<Object>)
    ensures
        view_objs(v).len() == v.len(),
        forall|i: int| 0 <= i < v.len() ==> view_objs(v)[i] == view_obj(v[i]),
    decreases v,
{
    if v.len() > 0 {
        lemma_view_objs(v.drop_first());
    }
}

impl View for Object {
    type V = ObjV;

    open spec fn view(&self) -> ObjV {
        view_obj(*self)
    }
}

/// The short type name of a value, as error messages print it.
pub open spec fn kind_name(o: ObjV) -> Seq<char> {
    match o {
        ObjV::Int { .. } => "INTEGER"@,
        ObjV::Str { .. } => "STRING"@,
        ObjV::Bool { .. } => "BOOLEAN"@,
        ObjV::Return { .. } => "RETURN"@,
        ObjV::Error { .. } => "ERROR"@,
        ObjV::Builtin { .. } => "BUILTIN"@,
        ObjV::Array { .. } => "ARRAY"@,
        ObjV::Func { .. } => "FUNCTION"@,
        ObjV::Null => "NULL"@,
        ObjV::Exit => "Exit"@,
    }
}

/// The display rendering of a value.
pub open spec fn render_obj(o: ObjV) -> Seq<char>
    decreases o, 1int,
{
    match o {
        ObjV::Int { value } => int_rep(value),
        ObjV::Str { value } => seq!['"'] + value + seq!['"'],
        ObjV::Bool { value } => if value {
            "true"@
        } else {
            "false"@
        },
        ObjV::Return { value } => render_obj(*value),
        ObjV::Error { msg } => msg,
        ObjV::Builtin { .. } => "builtin-functions"@,
        ObjV::Array { elems } => seq!['['] + render_array_body(elems) + seq![']'],
        ObjV::Func { params, body, .. } => "fn("@ + render_joined(params) + ") "@
            + crate::ast::render_stmt(*body),
        ObjV::Null => "NULL"@,
        ObjV::Exit => "Exit"@,
    }
}

/// The inside of an array rendering: every element followed by a comma
/// and a space.
pub open spec fn render_array_body(elems: Seq<ObjV>) -> Seq<char>
    decreases elems, 2int,
{
    if elems.len() == 0 {
        Seq::empty()
    } else {
        render_obj(elems[0]) + ", "@ + render_array_body(elems.drop_first())
    }
}

proof fn lemma_render_array_body_snoc(elems: Seq<ObjV>)
    requires
        elems.len() > 0,
    ensures
        render_array_body(elems) == render_array_body(elems.drop_last()) + render_obj(elems.last())
            + ", "@,
    decreases elems,
{
    reveal_strlit(", ");
    if elems.len() == 1 {
        assert(elems.drop_first() =~= Seq::<ObjV>::empty());
        assert(elems.drop_last() =~= Seq::<ObjV>::empty());
        assert(render_array_body(Seq::<ObjV>::empty()) == Seq::<char>::empty());
        assert(render_array_body(elems) == render_obj(elems[0]) + ", "@ + render_array_body(
            elems.drop_first(),
        ));
        assert(elems.last() == elems[0]);
        assert(render_array_body(elems) =~= render_array_body(elems.drop_last()) + render_obj(
            elems.last(),
        ) + ", "@);
    } else {
        lemma_render_array_body_snoc(elems.drop_first());
        let a: Seq<char> = ", "@;
        let x0 = render_obj(elems[0]);
        let r = render_array_body(elems.drop_first().drop_last());
        let xl = render_obj(elems.last());
        assert(elems.drop_last().len() > 0);
        assert(elems.drop_last().drop_first() =~= elems.drop_first().drop_last());
        assert(elems.drop_last()[0] == elems[0]);
        assert(elems.drop_first().last() == elems.last());
        assert(render_array_body(elems) == x0 + a + render_array_body(elems.drop_first()));
        assert(render_array_body(elems.drop_first()) == r + xl + a);
        assert(render_array_body(elems.drop_last()) == x0 + a + r);
        vstd::seq_lib::lemma_concat_associative(x0 + a, r + xl, a);
        vstd::seq_lib::lemma_concat_associative(x0 + a, r, xl);
        assert(render_array_body(elems) =~= render_array_body(elems.drop_last()) + xl + a);
    }
}

impl Object {
    /// The short type name of this value.
    pub fn kind_name_str(&self) -> (r: &'static str)
        ensures
            r@ == kind_name(self@),
    {
        match self {
            Object::Integer(_) => "INTEGER",
            Object::String(_) => "STRING",
            Object::Boolean(_) => "BOOLEAN",
            Object::Return(_) => "RETURN",
            Object::Error(_) => "ERROR",
            Object::Builtin(_) => "BUILTIN",
            Object::Array(_) => "ARRAY",
            Object::Function { .. } => "FUNCTION",
            Object::Null => "NULL",
            Object::Exit => "Exit",
        }
    }

    /// The display rendering of this value.
    pub fn string(&self) -> (r: String)
        ensures
            r@ == render_obj(self@),
    {
        let mut out = String::new();
        push_obj_string(&mut out, self);
        proof {
            assert(Seq::<char>::empty() + render_obj(self@) =~= render_obj(self@));
        }
        out
    }
}

fn push_obj_string(out: &mut String, o: &Object)
    ensures
        final(out)@ == old(out)@ + render_obj(o@),
    decreases *o, 1int,
{
    match o {
        Object::Integer(value) => {
            push_dec_i64(out, *value);
        },
        Object::String(value) => {
            out.append("\"");
            out.append(value.as_str());
            out.append("\"");
            proof {
                reveal_strlit("\"");
                assert(final(out)@ =~= old(out)@ + render_obj(o@));
            }
        },
        Object::Boolean(value) => {
            if *value {
                out.append("true");
            } else {
                out.append("false");
            }
        },
        Object::Return(value) => {
            push_obj_string(out, value);
        },
        Object::Error(msg) => {
            out.append(msg.as_str());
        },
        Object::Builtin(_) => {
            out.append("builtin-functions");
        },
        Object::Array(elems) => {
            out.append("[");
            push_array_body(out, elems);
            out.append("]");
            proof {
                reveal_strlit("[");
                reveal_strlit("]");
                assert(final(out)@ =~= old(out)@ + render_obj(o@));
            }
        },
        Object::Function { parameters, body, env: _ } => {
            out.append("fn(");
            push_joined_exprs(out, parameters);
            out.append(") ");
            crate::ast::push_stmt_string(out, body);
            proof {
                assert(final(out)@ =~= old(out)@ + render_obj(o@));
            }
        },
        Object::Null => {
            out.append("NULL");
        },
        Object::Exit => {
            out.append("Exit");
        },
    }
}

fn push_array_body(out: &mut String, elems: &Vec<Object>)
    ensures
        final(out)@ == old(out)@ + render_array_body(view_objs(elems@)),
    decreases elems@, 9int,
{
    let n = elems.len();
    let mut i: usize = 0;
    proof {
        lemma_view_objs(elems@);
        assert(view_objs(elems@).take(0) =~= Seq::empty());
    }
    while i < n
        invariant
            i <= n,
            n == elems@.len(),
            view_objs(elems@).len() == n,
            forall|j: int| 0 <= j < n ==> view_objs(elems@)[j] == view_obj(elems@[j]),
            out@ == old(out)@ + render_array_body(view_objs(elems@).take(i as int)),
        decreases n - i,
    {
        push_obj_string(out, &elems[i]);
        out.append(", ");
        proof {
            let evs = view_objs(elems@);
            assert(evs.take(i + 1).drop_last() =~= evs.take(i as int));
            assert(evs.take(i + 1).last() == evs[i as int]);
            lemma_render_array_body_snoc(evs.take(i + 1));
            assert(out@ =~= old(out)@ + render_array_body(evs.take(i + 1)));
        }
        i += 1;
    }
    proof {
        assert(view_objs(elems@).take(n as int) =~= view_objs(elems@));
    }
}

impl Clone for Object {
    fn clone(&self) -> (r: Self)
        ensures
            r@ == self@,
        decreases *self,
    {
        match self {
            Object::Integer(value) => Object::Integer(*value),
            Object::String(value) => Object::String(value.clone()),
            Object::Boolean(value) => Object::Boolean(*value),
            Object::Return(value) => Object::Return(Box::new((**value).clone())),
            Object::Error(msg) => Object::Error(msg.clone()),
            Object::Builtin(kind) => Object::Builtin(*kind),
            Object::Array(elems) => Object::Array(clone_obj_vec(elems)),
            Object::Function { parameters, body, env } => Object::Function {
                parameters: clone_expr_vec(parameters),
                body: body.clone(),
                env: *env,
            },
            Object::Null => Object::Null,
            Object::Exit => Object::Exit,
        }
    }
}

pub(crate) fn clone_obj_vec(v: &Vec<Object>) -> (r: Vec<Object>)
    ensures
        r@.len() == v@.len(),
        forall|i: int| 0 <= i < v@.len() ==> r@[i]@ == v@[i]@,
        view_objs(r@) == view_objs(v@),
    decreases v@,
{
    let n = v.len();
    let mut r: Vec<Object> = Vec::new();
    let mut i: usize = 0;
    while i < n
        invariant
            i <= n,
            n == v@.len(),
            r@.len() == i,
            forall|j: int| 0 <= j < i ==> r@[j]@ == v@[j]@,
        decreases n - i,
    {
        r.push(v[i].clone());
        i += 1;
    }
    proof {
        lemma_view_objs_congruence(r@, v@);
    }
    r
}

proof fn lemma_view_objs_congruence(a: Seq<Object>, b: Seq<Object>)
    requires
        a.len() == b.len(),
        forall|i: int| 0 <= i < a.len() ==> view_obj(a[i]) == view_obj(b[i]),
    ensures
        view_objs(a) == view_objs(b),
    decreases a,
{
    if a.len() > 0 {
        lemma_view_objs_congruence(a.drop_first(), b.drop_first());
        assert(view_objs(a) =~= view_objs(b));
    } else {
        assert(view_objs(a) =~= view_objs(b));
    }
}

/// A value is well formed against an arena of `n` scopes when every closure
/// in it points at an existing scope.
pub open spec fn obj_wf(o: ObjV, n: int) -> bool
    decreases o,
{
    match o {
        ObjV::Return { value } => obj_wf(*value, n),
        ObjV::Array { elems } => forall|i: int| 0 <= i < elems.len() ==> obj_wf(#[trigger] elems[i], n),
        ObjV::Func { env, .. } => 0 <= env < n,
        _ => true,
    }
}

/// Well-formedness only loosens as the arena grows.
pub proof fn lemma_obj_wf_mono(o: ObjV, n: int, m: int)
    requires
        obj_wf(o, n),
        n <= m,
    ensures
        obj_wf(o, m),
    decreases o,
{
    match o {
        ObjV::Return { value } => {
            lemma_obj_wf_mono(*value, n, m);
        },
        ObjV::Array { elems } => {
            assert forall|i: int| 0 <= i < elems.len() implies obj_wf(#[trigger] elems[i], m) by {
                lemma_obj_wf_mono(elems[i], n, m);
            }
        },
        _ => {},
    }
}


pub proof fn lemma_view_objs_push(v: Seq<Object>, o: Object)
    ensures
        view_objs(v.push(o)) == view_objs(v).push(view_obj(o)),
    decreases v,
{
    if v.len() == 0 {
        assert(v.push(o).drop_first() =~= Seq::<Object>::empty());
        assert(view_objs(Seq::<Object>::empty()) == Seq::<ObjV>::empty());
        assert(v.push(o)[0] == o);
        assert(view_objs(v.push(o)) =~= view_objs(v).push(view_obj(o)));
    } else {
        lemma_view_objs_push(v.drop_first(), o);
        assert(v.push(o).drop_first() =~= v.drop_first().push(o));
        assert(v.push(o)[0] == v[0]);
        assert(view_objs(v.push(o)) =~= view_objs(v).push(view_obj(o)));
    }
}

} // verus!
