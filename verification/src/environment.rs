//! The environment: a chain of name-to-value scopes. Scopes live in one
//! arena and link to their outer scope by index, so closures can share and
//! outlive the scope that created them; the chain is acyclic because a
//! scope's outer link always points at an earlier slot.

use crate::object::{obj_wf, view_obj, ObjV, Object};
use crate::strutil::str_eq;
use vstd::prelude::*;

verus! {

/// One scope: its own bindings, newest last, and an optional outer link.
pub struct Scope {
    pub bindings: Vec<(String, Object)>,
    pub outer: Option<usize>,
}

/// The arena holding every scope created so far.
pub struct Environment {
    pub scopes: Vec<Scope>,
}

/// The mathematical form of a scope.
pub struct ScopeV {
    pub bindings: Seq<(Seq<char>, ObjV)>,
    pub outer: Option<int>,
}

pub open spec fn view_binding(b: (String, Object)) -> (Seq<char>, ObjV) {
    (b.0@, view_obj(b.1))
}

pub open spec fn view_bindings(v: Seq<(String, Object)>) -> Seq<(Seq<char>, ObjV)>
    decreases v,
{
    if v.len() == 0 {
        Seq::empty()
    } else {
        seq![view_binding(v[0])] + view_bindings(v.drop_first())
    }
}

pub proof fn lemma_view_bindings(v: Seq<(String, Object)>)
    ensures
        view_bindings(v).len() == v.len(),
        forall|i: int| 0 <= i < v.len() ==> view_bindings(v)[i] == view_binding(v[i]),
    decreases v,
{
    if v.len() > 0 {
        lemma_view_bindings(v.drop_first());
    }
}

impl View for Scope {
    type V = ScopeV;

    open spec fn view(&self) -> ScopeV {
        ScopeV { bindings: view_bindings(self.bindings@), outer: match self.outer {
            Some(o) => Some(o as int),
            None => None,
        } }
    }
}

pub open spec fn view_scopes(v: Seq<Scope>) -> Seq<ScopeV>
    decreases v,
{
    if v.len() == 0 {
        Seq::empty()
    } else {
        seq![v[0]@] + view_scopes(v.drop_first())
    }
}

pub proof fn lemma_view_scopes(v: Seq<Scope>)
    ensures
        view_scopes(v).len() == v.len(),
        forall|i: int| 0 <= i < v.len() ==> view_scopes(v)[i] == v[i]@,
    decreases v,
{
    if v.len() > 0 {
        lemma_view_scopes(v.drop_first());
    }
}

impl View for Environment {
    type V = Seq<ScopeV>;

    open spec fn view(&self) -> Seq<ScopeV> {
        view_scopes(self.scopes@)
    }
}

/// Look a name up in one scope's own bindings: the newest binding wins.
pub open spec fn scope_lookup(bs: Seq<(Seq<char>, ObjV)>, name: Seq<char>) -> Option<ObjV>
    decreases bs,
{
    if bs.len() == 0 {
        None
    } else if bs.last().0 == name {
        Some(bs.last().1)
    } else {
        scope_lookup(bs.drop_last(), name)
    }
}

/// Look a name up from scope `idx` outward along the outer links.
pub open spec fn env_lookup(scopes: Seq<ScopeV>, idx: int, name: Seq<char>) -> Option<ObjV>
    decreases idx,
{
    if !(0 <= idx < scopes.len()) {
        None
    } else {
        match scope_lookup(scopes[idx].bindings, name) {
            Some(v) => Some(v),
            None => match scopes[idx].outer {
                Some(o) => if 0 <= o < idx {
                    env_lookup(scopes, o, name)
                } else {
                    None
                },
                None => None,
            },
        }
    }
}

/// A scope at slot `i` of an arena of `n` scopes is well formed when its
/// outer link points strictly earlier and all its values are well formed.
pub open spec fn scope_wf(s: ScopeV, i: int, n: int) -> bool {
    &&& match s.outer {
        Some(o) => 0 <= o < i,
        None => true,
    }
    &&& forall|j: int| 0 <= j < s.bindings.len() ==> obj_wf((#[trigger] s.bindings[j]).1, n)
}

/// Every scope of the arena is well formed.
pub open spec fn env_wf(scopes: Seq<ScopeV>) -> bool {
    forall|i: int| 0 <= i < scopes.len() ==> scope_wf(#[trigger] scopes[i], i, scopes.len() as int)
}

pub proof fn lemma_scope_lookup_wf(bs: Seq<(Seq<char>, ObjV)>, name: Seq<char>, n: int)
    requires
        forall|j: int| 0 <= j < bs.len() ==> obj_wf((#[trigger] bs[j]).1, n),
        scope_lookup(bs, name).is_some(),
    ensures
        obj_wf(scope_lookup(bs, name).unwrap(), n),
    decreases bs,
{
    if bs.len() > 0 && bs.last().0 != name {
        lemma_scope_lookup_wf(bs.drop_last(), name, n);
    }
}

pub proof fn lemma_env_lookup_wf(scopes: Seq<ScopeV>, idx: int, name: Seq<char>)
    requires
        env_wf(scopes),
        env_lookup(scopes, idx, name).is_some(),
    ensures
        obj_wf(env_lookup(scopes, idx, name).unwrap(), scopes.len() as int),
    decreases idx,
{
    if 0 <= idx < scopes.len() {
        if scope_lookup(scopes[idx].bindings, name).is_some() {
            assert(scope_wf(scopes[idx], idx, scopes.len() as int));
            lemma_scope_lookup_wf(scopes[idx].bindings, name, scopes.len() as int);
        } else {
            match scopes[idx].outer {
                Some(o) => {
                    if 0 <= o < idx {
                        lemma_env_lookup_wf(scopes, o, name);
                    }
                },
                None => {},
            }
        }
    }
}

/// Find `name` in one scope's own bindings; a hit hands back a copy of the
/// newest value bound to it.
fn scope_find(sc: &Scope, name: &str) -> (r: Option<Object>)
    ensures
        match r {
            Some(o) => scope_lookup(sc@.bindings, name@) == Some(o@),
            None => scope_lookup(sc@.bindings, name@).is_none(),
        },
{
    proof {
        lemma_view_bindings(sc.bindings@);
    }
    let n = sc.bindings.len();
    let mut k: usize = n;
    proof {
        assert(view_bindings(sc.bindings@).take(n as int) =~= view_bindings(sc.bindings@));
    }
    while k > 0
        invariant
            k <= n,
            n == sc.bindings@.len(),
            view_bindings(sc.bindings@).len() == n,
            forall|i: int| 0 <= i < n ==> view_bindings(sc.bindings@)[i] == view_binding(
                sc.bindings@[i],
            ),
            scope_lookup(view_bindings(sc.bindings@), name@) == scope_lookup(
                view_bindings(sc.bindings@).take(k as int),
                name@,
            ),
        decreases k,
    {
        let entry = &sc.bindings[k - 1];
        proof {
            let bvs = view_bindings(sc.bindings@);
            assert(bvs.take(k as int).last() == bvs[k - 1]);
            assert(bvs.take(k as int).drop_last() =~= bvs.take(k - 1));
        }
        if str_eq(entry.0.as_str(), name) {
            let found = entry.1.clone();
            return Some(found);
        }
        k = k - 1;
    }
    proof {
        assert(view_bindings(sc.bindings@).take(0) =~= Seq::<(Seq<char>, ObjV)>::empty());
    }
    None
}

/// The bindings the global scope starts with.
pub open spec fn base_bindings() -> Seq<(Seq<char>, ObjV)> {
    seq![
        ("null"@, ObjV::Null),
        ("true"@, ObjV::Bool { value: true }),
        ("false"@, ObjV::Bool { value: false }),
    ]
}

impl Environment {
    /// A fresh environment: one global scope holding the `null`, `true`
    /// and `false` constants.
    pub fn new() -> (r: Environment)
        ensures
            r@.len() == 1,
            r@[0].outer.is_none(),
            r@[0].bindings == base_bindings(),
            env_wf(r@),
    {
        let mut bindings: Vec<(String, Object)> = Vec::new();
        bindings.push((String::from_str("null"), Object::Null));
        bindings.push((String::from_str("true"), Object::Boolean(true)));
        bindings.push((String::from_str("false"), Object::Boolean(false)));
        let scope = Scope { bindings, outer: None };
        let mut scopes: Vec<Scope> = Vec::new();
        scopes.push(scope);
        let r = Environment { scopes };
        proof {
            lemma_view_scopes(r.scopes@);
            lemma_view_bindings(r.scopes@[0].bindings@);
            assert(r@[0].bindings =~= base_bindings());
            assert(r@ =~= seq![r.scopes@[0]@]);
        }
        r
    }

    /// Open a new empty scope whose outer link is `outer`; its index is
    /// returned and the existing scopes are untouched.
    pub fn new_enclosed_environment(&mut self, outer: usize) -> (r: usize)
        requires
            outer < old(self)@.len(),
        ensures
            r == old(self)@.len(),
            final(self)@ == old(self)@.push(
                ScopeV { bindings: Seq::empty(), outer: Some(outer as int) },
            ),
            env_wf(old(self)@) ==> env_wf(final(self)@),
    {
        proof {
            lemma_view_scopes(self.scopes@);
        }
        let r = self.scopes.len();
        let fresh = Scope { bindings: Vec::new(), outer: Some(outer) };
        proof {
            lemma_view_scopes_push(self.scopes@, fresh);
            assert(view_bindings(fresh.bindings@) =~= Seq::<(Seq<char>, ObjV)>::empty());
        }
        self.scopes.push(fresh);
        proof {
            assert(final(self)@ =~= old(self)@.push(
                ScopeV { bindings: Seq::empty(), outer: Some(outer as int) },
            ));
            if env_wf(old(self)@) {
                let n0 = old(self)@.len() as int;
                let n1 = final(self)@.len() as int;
                assert forall|i: int| 0 <= i < n1 implies scope_wf(
                    #[trigger] final(self)@[i],
                    i,
                    n1,
                ) by {
                    if i < n0 {
                        assert(scope_wf(old(self)@[i], i, n0));
                        assert(final(self)@[i] == old(self)@[i]);
                        assert forall|j: int|
                            0 <= j < final(self)@[i].bindings.len() implies obj_wf(
                            (#[trigger] final(self)@[i].bindings[j]).1,
                            n1,
                        ) by {
                            crate::object::lemma_obj_wf_mono(old(self)@[i].bindings[j].1, n0, n1);
                        }
                    }
                }
            }
        }
        r
    }

    /// Look `name` up from scope `scope` outward; a hit hands back a copy
    /// of the bound value.
    pub fn get(&self, scope: usize, name: &str) -> (r: Option<Object>)
        requires
            env_wf(self@),
            scope < self@.len(),
        ensures
            match r {
                Some(o) => env_lookup(self@, scope as int, name@) == Some(o@) && obj_wf(
                    o@,
                    self@.len() as int,
                ),
                None => env_lookup(self@, scope as int, name@).is_none(),
            },
    {
        proof {
            lemma_view_scopes(self.scopes@);
        }
        let mut idx: usize = scope;
        loop
            invariant
                env_wf(self@),
                idx < self@.len(),
                self@ == view_scopes(self.scopes@),
                view_scopes(self.scopes@).len() == self.scopes@.len(),
                forall|i: int| 0 <= i < self.scopes@.len() ==> view_scopes(self.scopes@)[i]
                    == self.scopes@[i]@,
                env_lookup(self@, scope as int, name@) == env_lookup(self@, idx as int, name@),
            decreases idx,
        {
            let sc = &self.scopes[idx];
            let hit = scope_find(sc, name);
            proof {
                assert(self@[idx as int] == sc@);
            }
            match hit {
                Some(found) => {
                    proof {
                        assert(env_lookup(self@, idx as int, name@) == Some(found@));
                        lemma_env_lookup_wf(self@, scope as int, name@);
                    }
                    return Some(found);
                },
                None => {
                    proof {
                        assert(scope_lookup(self@[idx as int].bindings, name@).is_none());
                    }
                    match sc.outer {
                        Some(o) => {
                            proof {
                                assert(scope_wf(self@[idx as int], idx as int, self@.len() as int));
                            }
                            idx = o;
                        },
                        None => {
                            return None;
                        },
                    }
                },
            }
        }
    }

    /// Bind `name` to `val` in scope `scope`, shadowing any older binding
    /// of the same name there; no other scope changes.
    pub fn set(&mut self, scope: usize, name: String, val: Object)
        requires
            scope < old(self)@.len(),
        ensures
            final(self)@ == old(self)@.update(
                scope as int,
                ScopeV {
                    bindings: old(self)@[scope as int].bindings.push((name@, val@)),
                    outer: old(self)@[scope as int].outer,
                },
            ),
            env_wf(old(self)@) && obj_wf(val@, old(self)@.len() as int) ==> env_wf(final(self)@),
    {
        proof {
            lemma_view_scopes(self.scopes@);
        }
        let ghost name_v = name@;
        let ghost val_v = val@;
        let sc = &mut self.scopes[scope];
        let ghost old_sc = *sc;
        sc.bindings.push((name, val));
        proof {
            lemma_view_bindings_push(old_sc.bindings@, sc.bindings@.last());
            assert(sc.bindings@.drop_last() =~= old_sc.bindings@);
            assert(sc@.bindings == old_sc@.bindings.push((name_v, val_v)));
            lemma_view_scopes(self.scopes@);
            assert(final(self)@ =~= old(self)@.update(
                scope as int,
                ScopeV {
                    bindings: old(self)@[scope as int].bindings.push((name_v, val_v)),
                    outer: old(self)@[scope as int].outer,
                },
            ));
            if env_wf(old(self)@) && obj_wf(val_v, old(self)@.len() as int) {
                let n = final(self)@.len() as int;
                assert forall|i: int| 0 <= i < n implies scope_wf(#[trigger] final(self)@[i], i, n)
                    by {
                    assert(scope_wf(old(self)@[i], i, n));
                    if i == scope as int {
                        let bs = final(self)@[i].bindings;
                        assert forall|j: int| 0 <= j < bs.len() implies obj_wf(
                            (#[trigger] bs[j]).1,
                            n,
                        ) by {
                            if j < bs.len() - 1 {
                                assert(bs[j] == old(self)@[i].bindings[j]);
                            }
                        }
                    }
                }
            }
        }
    }

    /// Whether `name` is bound in scope `scope` itself, outer scopes not
    /// consulted.
    pub fn contains_key(&self, scope: usize, name: &str) -> (r: bool)
        requires
            scope < self@.len(),
        ensures
            r == scope_lookup(self@[scope as int].bindings, name@).is_some(),
    {
        proof {
            lemma_view_scopes(self.scopes@);
        }
        let sc = &self.scopes[scope];
        let hit = scope_find(sc, name);
        proof {
            assert(self@[scope as int] == sc@);
        }
        match hit {
            Some(_) => true,
            None => false,
        }
    }
}

pub proof fn lemma_view_scopes_push(v: Seq<Scope>, s: Scope)
    ensures
        view_scopes(v.push(s)) == view_scopes(v).push(s@),
    decreases v,
{
    if v.len() == 0 {
        assert(v.push(s).drop_first() =~= Seq::<Scope>::empty());
        assert(view_scopes(Seq::<Scope>::empty()) == Seq::<ScopeV>::empty());
        assert(v.push(s)[0] == s);
        assert(view_scopes(v.push(s)) =~= view_scopes(v).push(s@));
    } else {
        lemma_view_scopes_push(v.drop_first(), s);
        assert(v.push(s).drop_first() =~= v.drop_first().push(s));
        assert(v.push(s)[0] == v[0]);
        assert(view_scopes(v.push(s)) =~= view_scopes(v).push(s@));
    }
}

pub proof fn lemma_view_bindings_push(v: Seq<(String, Object)>, b: (String, Object))
    ensures
        view_bindings(v.push(b)) == view_bindings(v).push(view_binding(b)),
    decreases v,
{
    if v.len() == 0 {
        assert(v.push(b).drop_first() =~= Seq::<(String, Object)>::empty());
        assert(view_bindings(Seq::<(String, Object)>::empty()) == Seq::<(Seq<char>, ObjV)>::empty());
        assert(v.push(b)[0] == b);
        assert(view_bindings(v.push(b)) =~= view_bindings(v).push(view_binding(b)));
    } else {
        lemma_view_bindings_push(v.drop_first(), b);
        assert(v.push(b).drop_first() =~= v.drop_first().push(b));
        assert(v.push(b)[0] == v[0]);
        assert(view_bindings(v.push(b)) =~= view_bindings(v).push(view_binding(b)));
    }
}


/// Shadowing, stated over one scope's bindings: after binding a name,
/// looking that name up finds the new value, and every other name still
/// resolves exactly as before.
pub proof fn lemma_shadowing(bs: Seq<(Seq<char>, ObjV)>, name: Seq<char>, v: ObjV, other: Seq<char>)
    requires
        other != name,
    ensures
        scope_lookup(bs.push((name, v)), name) == Some(v),
        scope_lookup(bs.push((name, v)), other) == scope_lookup(bs, other),
{
    assert(bs.push((name, v)).last() == (name, v));
    assert(bs.push((name, v)).drop_last() =~= bs);
}

} // verus!
