//! The environment: a mapping from names to values plus an optional
//! link to an enclosing environment, forming a chain.
//!
//! Scopes live in an arena and refer to their enclosing scope by index,
//! so many closures may share one enclosing scope. Lookup walks outward
//! from the innermost scope; binding always writes into the current
//! scope's own mapping, never into an outer one: shadowing, not
//! mutation through the chain.

use crate::ast::Identifier;
use crate::object::{obj_view, obj_wf, ObjV, Object};
use vstd::prelude::*;

verus! {

/// One scope: its own bindings, in insertion order, and the index of
/// the enclosing scope, if any.
pub struct Scope {
    bindings: Vec<(Identifier, Object)>,
    outer: Option<usize>,
}

/// The mathematical model of a scope.
pub struct ScopeV {
    pub bindings: Seq<(Seq<char>, ObjV)>,
    pub outer: Option<int>,
}

/// The scope arena. A session holds one; scope `0` is the session's
/// top-level scope, and function calls add scopes that enclose the
/// called function's captured scope.
pub struct Environment {
    scopes: Vec<Scope>,
}

/// The model of a binding list, element by element.
pub open spec fn bindings_view(bs: Seq<(Identifier, Object)>) -> Seq<(Seq<char>, ObjV)>
    decreases bs,
{
    if bs.len() == 0 {
        Seq::empty()
    } else {
        bindings_view(bs.drop_last()).push((bs.last().0@, obj_view(bs.last().1)))
    }
}

/// A binding list's model has one entry per binding, in order.
pub broadcast proof fn lemma_bindings_view(bs: Seq<(Identifier, Object)>)
    ensures
        (#[trigger] bindings_view(bs)).len() == bs.len(),
        forall|i: int|
            0 <= i < bs.len() ==> bindings_view(bs)[i] == (bs[i].0@, obj_view(bs[i].1)),
    decreases bs,
{
    if bs.len() > 0 {
        lemma_bindings_view(bs.drop_last());
    }
}

/// The model of a scope.
pub closed spec fn scope_view(s: Scope) -> ScopeV {
    ScopeV {
        bindings: bindings_view(s.bindings@),
        outer: match s.outer {
            Some(o) => Some(o as int),
            None => None,
        },
    }
}

/// The model of the scope arena, scope by scope.
pub closed spec fn scopes_view(ss: Seq<Scope>) -> Seq<ScopeV>
    decreases ss,
{
    if ss.len() == 0 {
        Seq::empty()
    } else {
        scopes_view(ss.drop_last()).push(scope_view(ss.last()))
    }
}

/// The arena's model has one scope model per scope, in order.
pub broadcast proof fn lemma_scopes_view(ss: Seq<Scope>)
    ensures
        (#[trigger] scopes_view(ss)).len() == ss.len(),
        forall|i: int| 0 <= i < ss.len() ==> scopes_view(ss)[i] == scope_view(ss[i]),
    decreases ss,
{
    if ss.len() > 0 {
        lemma_scopes_view(ss.drop_last());
    }
}

/// The position of the first binding of `name` at or after `i`, or the
/// list's length when there is none.
pub open spec fn scope_index_from(bs: Seq<(Seq<char>, ObjV)>, name: Seq<char>, i: int) -> int
    decreases bs.len() - i,
{
    if !(0 <= i < bs.len()) {
        bs.len() as int
    } else if bs[i].0 == name {
        i
    } else {
        scope_index_from(bs, name, i + 1)
    }
}

/// The position of `name` in a binding list, or the list's length.
pub open spec fn scope_index(bs: Seq<(Seq<char>, ObjV)>, name: Seq<char>) -> int {
    scope_index_from(bs, name, 0)
}

/// The search lands at or after its start, within the list, and on the
/// first match.
pub proof fn lemma_scope_index_from(bs: Seq<(Seq<char>, ObjV)>, name: Seq<char>, i: int)
    requires
        0 <= i <= bs.len(),
    ensures
        i <= scope_index_from(bs, name, i) <= bs.len(),
        scope_index_from(bs, name, i) < bs.len() ==> bs[scope_index_from(bs, name, i)].0 == name,
        forall|j: int| i <= j < scope_index_from(bs, name, i) ==> bs[j].0 != name,
    decreases bs.len() - i,
{
    if i < bs.len() && bs[i].0 != name {
        lemma_scope_index_from(bs, name, i + 1);
    }
}

/// The value bound to `name` in one scope's own mapping, if any.
pub open spec fn scope_lookup(bs: Seq<(Seq<char>, ObjV)>, name: Seq<char>) -> Option<ObjV> {
    let i = scope_index(bs, name);
    if i < bs.len() {
        Some(bs[i].1)
    } else {
        None
    }
}

/// A binding list after binding `name` to `v`: an existing binding of
/// the name is overwritten in place, a new name is appended.
pub open spec fn scope_insert(
    bs: Seq<(Seq<char>, ObjV)>,
    name: Seq<char>,
    v: ObjV,
) -> Seq<(Seq<char>, ObjV)> {
    let i = scope_index(bs, name);
    if i < bs.len() {
        bs.update(i, (name, v))
    } else {
        bs.push((name, v))
    }
}

/// After binding `name` to `v`, looking up `name` yields `v` and every
/// other name is bound as before.
pub proof fn lemma_scope_insert_lookup(
    bs: Seq<(Seq<char>, ObjV)>,
    name: Seq<char>,
    v: ObjV,
    m: Seq<char>,
)
    ensures
        scope_lookup(scope_insert(bs, name, v), m) == if m == name {
            Some(v)
        } else {
            scope_lookup(bs, m)
        },
{
    lemma_scope_index_from(bs, name, 0);
    let bs2 = scope_insert(bs, name, v);
    let i = scope_index(bs, name);
    lemma_scope_index_extend(bs, bs2, name, 0);
    lemma_scope_index_extend(bs, bs2, m, 0);
    lemma_scope_index_from(bs, m, 0);
    if i < bs.len() {
        if m == name {
            assert(scope_index(bs2, name) == i);
        }
    } else {
        if m == name {
            assert(scope_index_from(bs2, name, bs.len() as int) == bs.len());
        } else {
            if scope_index(bs, m) >= bs.len() {
                assert(scope_index_from(bs2, m, bs2.len() as int) == bs2.len());
                assert(scope_index_from(bs2, m, bs.len() as int) == bs2.len());
            }
        }
    }
}

/// A search over a list whose first entries carry the same names lands
/// at the same position, or continues past them.
proof fn lemma_scope_index_extend(
    bs: Seq<(Seq<char>, ObjV)>,
    bs2: Seq<(Seq<char>, ObjV)>,
    m: Seq<char>,
    i: int,
)
    requires
        0 <= i <= bs.len(),
        bs2.len() >= bs.len(),
        forall|j: int| 0 <= j < bs.len() ==> bs2[j].0 == bs[j].0,
    ensures
        scope_index_from(bs2, m, i) == if scope_index_from(bs, m, i) < bs.len() {
            scope_index_from(bs, m, i)
        } else {
            scope_index_from(bs2, m, bs.len() as int)
        },
    decreases bs.len() - i,
{
    if i < bs.len() {
        if bs[i].0 != m {
            lemma_scope_index_extend(bs, bs2, m, i + 1);
        }
    }
}

/// Well-formedness of every value of a binding list, for an arena of
/// `n` scopes.
pub open spec fn bindings_wf(bs: Seq<(Seq<char>, ObjV)>, n: int) -> bool
    decreases bs,
{
    if bs.len() == 0 {
        true
    } else {
        bindings_wf(bs.drop_last(), n) && obj_wf(bs.last().1, n)
    }
}

/// A binding list is well formed exactly when each bound value is.
pub broadcast proof fn lemma_bindings_wf(bs: Seq<(Seq<char>, ObjV)>, n: int)
    ensures
        #[trigger] bindings_wf(bs, n) <==> (forall|i: int|
            0 <= i < bs.len() ==> obj_wf(bs[i].1, n)),
    decreases bs,
{
    if bs.len() > 0 {
        lemma_bindings_wf(bs.drop_last(), n);
        assert(forall|i: int| 0 <= i < bs.len() - 1 ==> bs.drop_last()[i] == bs[i]);
        assert(bs.last() == bs[bs.len() - 1]);
    }
}

/// Values well formed for `n` scopes are well formed for any larger
/// arena.
pub proof fn lemma_bindings_wf_widen(bs: Seq<(Seq<char>, ObjV)>, n: int, m: int)
    requires
        bindings_wf(bs, n),
        n <= m,
    ensures
        bindings_wf(bs, m),
{
    lemma_bindings_wf(bs, n);
    lemma_bindings_wf(bs, m);
    assert forall|i: int| 0 <= i < bs.len() implies obj_wf(bs[i].1, m) by {
        crate::object::lemma_obj_wf_widen(bs[i].1, n, m);
    }
}

/// A scope's well-formedness within the arena: its enclosing scope, if
/// any, lies strictly before it, and its values only capture existing
/// scopes.
pub open spec fn scope_wf(sv: ScopeV, idx: int, n: int) -> bool {
    &&& match sv.outer {
        Some(o) => 0 <= o < idx,
        None => true,
    }
    &&& bindings_wf(sv.bindings, n)
}

/// The arena's invariant: every scope is well formed at its index.
pub open spec fn env_wf(env: Seq<ScopeV>) -> bool {
    forall|i: int| 0 <= i < env.len() ==> scope_wf(#[trigger] env[i], i, env.len() as int)
}

/// The value bound to `name`, looking outward from `scope` along the
/// chain of enclosing scopes until a binding is found or the chain is
/// exhausted.
pub open spec fn lookup_in(env: Seq<ScopeV>, scope: int, name: Seq<char>) -> Option<ObjV>
    decreases (if scope >= 0 {
        scope
    } else {
        0
    }),
{
    if !(0 <= scope < env.len()) {
        None
    } else {
        match scope_lookup(env[scope].bindings, name) {
            Some(v) => Some(v),
            None => match env[scope].outer {
                Some(o) => if 0 <= o < scope {
                    lookup_in(env, o, name)
                } else {
                    None
                },
                None => None,
            },
        }
    }
}

/// Scopes before `scope` decide a lookup from below `scope` alone: an
/// arena extended or changed only at or past `scope` resolves such a
/// lookup identically.
pub proof fn lemma_lookup_prefix(env1: Seq<ScopeV>, env2: Seq<ScopeV>, scope: int, name: Seq<char>)
    requires
        0 <= scope <= env1.len(),
        scope <= env2.len(),
        forall|i: int| 0 <= i < scope ==> env1[i] == env2[i],
    ensures
        forall|s: int| 0 <= s < scope ==> lookup_in(env1, s, name) == lookup_in(env2, s, name),
    decreases scope,
{
    if scope > 0 {
        lemma_lookup_prefix(env1, env2, scope - 1, name);
        assert forall|s: int| 0 <= s < scope implies lookup_in(env1, s, name) == lookup_in(
            env2,
            s,
            name,
        ) by {
            if s == scope - 1 {
                assert(env1[s] == env2[s]);
                if s < env1.len() && scope_lookup(env1[s].bindings, name) is None {
                    match env1[s].outer {
                        Some(o) => {
                            if 0 <= o < s {
                                assert(lookup_in(env1, o, name) == lookup_in(env2, o, name));
                            }
                        },
                        None => {},
                    }
                }
            }
        }
    }
}

impl View for Environment {
    type V = Seq<ScopeV>;

    /// The arena's model: the models of its scopes, in order.
    closed spec fn view(&self) -> Seq<ScopeV> {
        scopes_view(self.scopes@)
    }
}

/// A fresh session environment: one top-level scope with no bindings
/// and no enclosing scope.
pub fn new_environment() -> (env: Environment)
    ensures
        env@ =~= seq![ScopeV { bindings: Seq::empty(), outer: None }],
        env_wf(env@),
{
    let mut scopes: Vec<Scope> = Vec::new();
    scopes.push(Scope { bindings: Vec::new(), outer: None });
    let env = Environment { scopes };
    proof {
        lemma_scopes_view(env.scopes@);
        assert(env@ =~= seq![ScopeV { bindings: Seq::empty(), outer: None }]);
    }
    env
}

/// Adds a fresh scope enclosing the given one and returns its index;
/// function calls use this to bind parameters over the function's
/// captured scope.
pub fn new_enclosed_environment(env: &mut Environment, outer: usize) -> (idx: usize)
    requires
        env_wf(old(env)@),
        outer < old(env)@.len(),
    ensures
        idx == old(env)@.len(),
        final(env)@ =~= old(env)@.push(
            ScopeV { bindings: Seq::empty(), outer: Some(outer as int) },
        ),
        env_wf(final(env)@),
{
    proof {
        lemma_scopes_view(env.scopes@);
    }
    let idx = env.scopes.len();
    env.scopes.push(Scope { bindings: Vec::new(), outer: Some(outer) });
    proof {
        lemma_scopes_view(env.scopes@);
        assert(env.scopes@.drop_last() =~= old(env).scopes@);
        assert(env@ =~= old(env)@.push(
            ScopeV { bindings: Seq::empty(), outer: Some(outer as int) },
        ));
        let n1 = old(env)@.len() as int;
        let n2 = env@.len() as int;
        assert forall|i: int| 0 <= i < n2 implies scope_wf(env@[i], i, n2) by {
            if i < n1 {
                assert(scope_wf(old(env)@[i], i, n1));
                lemma_bindings_wf_widen(old(env)@[i].bindings, n1, n2);
            } else {
                assert(env@[i].bindings =~= Seq::<(Seq<char>, ObjV)>::empty());
            }
        }
    }
    idx
}

impl Environment {
    /// The value bound to `name`, looking outward from `scope`: the
    /// innermost binding wins. `None` exactly when no scope along the
    /// chain binds the name.
    pub fn get(&self, scope: usize, name: &str) -> (r: Option<Object>)
        requires
            env_wf(self@),
            scope < self@.len(),
        ensures
            match r {
                Some(o) => lookup_in(self@, scope as int, name@) == Some(obj_view(o)) && obj_wf(
                    obj_view(o),
                    self@.len() as int,
                ),
                None => lookup_in(self@, scope as int, name@) is None,
            },
    {
        proof {
            lemma_scopes_view(self.scopes@);
        }
        let name_owned: String = name.to_owned();
        let mut cur = scope;
        loop
            invariant
                env_wf(self@),
                cur < self@.len(),
                self@.len() == self.scopes@.len(),
                forall|i: int| 0 <= i < self.scopes@.len() ==> self@[i] == scope_view(
                    self.scopes@[i],
                ),
                name_owned@ == name@,
                lookup_in(self@, scope as int, name@) == lookup_in(self@, cur as int, name@),
            decreases cur,
        {
            let bindings = &self.scopes[cur].bindings;
            proof {
                lemma_bindings_view(bindings@);
                lemma_scope_index_from(bindings_view(bindings@), name@, 0);
                assert(self@[cur as int] == scope_view(self.scopes@[cur as int]));
                assert(scope_wf(self@[cur as int], cur as int, self@.len() as int));
            }
            let ghost bv = bindings_view(bindings@);
            let mut i: usize = 0;
            while i < bindings.len()
                invariant
                    i <= bindings@.len(),
                    bv == bindings_view(bindings@),
                    bv.len() == bindings@.len(),
                    forall|j: int|
                        0 <= j < bindings@.len() ==> bv[j] == (
                            bindings@[j].0@,
                            obj_view(bindings@[j].1),
                        ),
                    name_owned@ == name@,
                    cur < self@.len(),
                    self@[cur as int].bindings == bv,
                    lookup_in(self@, scope as int, name@) == lookup_in(self@, cur as int, name@),
                    bindings_wf(bv, self@.len() as int),
                    scope_index_from(bv, name@, 0) >= i,
                decreases bindings.len() - i,
            {
                if bindings[i].0 == name_owned {
                    proof {
                        lemma_scope_index_from(bv, name@, 0);
                        assert(bv[i as int].0 == name@);
                        assert(scope_index_from(bv, name@, 0) == i);
                        lemma_bindings_wf(bv, self@.len() as int);
                        assert(obj_wf(bv[i as int].1, self@.len() as int));
                        assert(scope_lookup(bv, name@) == Some(bv[i as int].1));
                        assert(lookup_in(self@, cur as int, name@) == Some(bv[i as int].1));
                    }
                    return Some(bindings[i].1.clone());
                }
                proof {
                    lemma_scope_index_from(bv, name@, 0);
                    assert(bv[i as int].0 != name@);
                }
                i += 1;
            }
            proof {
                lemma_scope_index_from(bv, name@, 0);
                assert(scope_lookup(bv, name@) is None);
            }
            match &self.scopes[cur].outer {
                Some(o) => {
                    cur = *o;
                },
                None => {
                    return None;
                },
            }
        }
    }

    /// Binds `name` to `value` in scope `scope`'s own mapping — never
    /// in an enclosing scope — and returns the value the name was
    /// bound to in that mapping before, if any.
    pub fn set(&mut self, scope: usize, name: &str, value: Object) -> (prev: Option<Object>)
        requires
            env_wf(old(self)@),
            scope < old(self)@.len(),
            obj_wf(obj_view(value), old(self)@.len() as int),
        ensures
            final(self)@ =~= old(self)@.update(
                scope as int,
                ScopeV {
                    bindings: scope_insert(
                        old(self)@[scope as int].bindings,
                        name@,
                        obj_view(value),
                    ),
                    outer: old(self)@[scope as int].outer,
                },
            ),
            env_wf(final(self)@),
            match prev {
                Some(o) => scope_lookup(old(self)@[scope as int].bindings, name@) == Some(
                    obj_view(o),
                ),
                None => scope_lookup(old(self)@[scope as int].bindings, name@) is None,
            },
    {
        proof {
            lemma_scopes_view(self.scopes@);
        }
        let ghost n = old(self)@.len() as int;
        let name_owned: String = name.to_owned();
        let ghost bv0 = bindings_view(self.scopes@[scope as int].bindings@);
        proof {
            lemma_bindings_view(self.scopes@[scope as int].bindings@);
            lemma_scope_index_from(bv0, name@, 0);
        }
        let bindings_len = self.scopes[scope].bindings.len();
        let mut i: usize = 0;
        let mut found = false;
        while i < bindings_len && !found
            invariant
                scope < self.scopes@.len(),
                bindings_len == self.scopes@[scope as int].bindings@.len(),
                bv0 == bindings_view(self.scopes@[scope as int].bindings@),
                bv0.len() == bindings_len,
                forall|j: int|
                    0 <= j < bv0.len() ==> bv0[j] == (
                        self.scopes@[scope as int].bindings@[j].0@,
                        obj_view(self.scopes@[scope as int].bindings@[j].1),
                    ),
                name_owned@ == name@,
                self == old(self),
                !found ==> scope_index_from(bv0, name@, 0) >= i,
                found ==> i < bindings_len && scope_index_from(bv0, name@, 0) == i,
            decreases bindings_len - i + (if found {
                0int
            } else {
                1int
            }),
        {
            if self.scopes[scope].bindings[i].0 == name_owned {
                found = true;
                proof {
                    lemma_scope_index_from(bv0, name@, 0);
                    assert(bv0[i as int].0 == name@);
                }
            } else {
                proof {
                    lemma_scope_index_from(bv0, name@, 0);
                    assert(bv0[i as int].0 != name@);
                }
                i += 1;
            }
        }
        if found {
            let prev = self.scopes[scope].bindings[i].1.clone();
            self.scopes[scope].bindings[i] = (name_owned, value);
            proof {
                lemma_scopes_view(old(self).scopes@);
                lemma_scopes_view(self.scopes@);
                lemma_bindings_view(self.scopes@[scope as int].bindings@);
                assert(bindings_view(self.scopes@[scope as int].bindings@) =~= scope_insert(
                    bv0,
                    name@,
                    obj_view(value),
                ));
                assert(self@ =~= old(self)@.update(
                    scope as int,
                    ScopeV {
                        bindings: scope_insert(bv0, name@, obj_view(value)),
                        outer: old(self)@[scope as int].outer,
                    },
                ));
                lemma_set_preserves_wf(old(self)@, self@, scope as int, name@, obj_view(value));
            }
            Some(prev)
        } else {
            self.scopes[scope].bindings.push((name_owned, value));
            proof {
                lemma_scopes_view(old(self).scopes@);
                lemma_scopes_view(self.scopes@);
                lemma_bindings_view(self.scopes@[scope as int].bindings@);
                assert(self.scopes@[scope as int].bindings@.drop_last() =~= old(
                    self,
                ).scopes@[scope as int].bindings@);
                assert(bindings_view(self.scopes@[scope as int].bindings@) =~= scope_insert(
                    bv0,
                    name@,
                    obj_view(value),
                ));
                assert(self@ =~= old(self)@.update(
                    scope as int,
                    ScopeV {
                        bindings: scope_insert(bv0, name@, obj_view(value)),
                        outer: old(self)@[scope as int].outer,
                    },
                ));
                lemma_set_preserves_wf(old(self)@, self@, scope as int, name@, obj_view(value));
            }
            None
        }
    }
}

/// Binding a well-formed value keeps the arena well formed.
proof fn lemma_set_preserves_wf(
    env1: Seq<ScopeV>,
    env2: Seq<ScopeV>,
    scope: int,
    name: Seq<char>,
    v: ObjV,
)
    requires
        env_wf(env1),
        0 <= scope < env1.len(),
        obj_wf(v, env1.len() as int),
        env2 =~= env1.update(
            scope,
            ScopeV {
                bindings: scope_insert(env1[scope].bindings, name, v),
                outer: env1[scope].outer,
            },
        ),
    ensures
        env_wf(env2),
{
    let n = env1.len() as int;
    assert forall|i: int| 0 <= i < env2.len() implies scope_wf(env2[i], i, n) by {
        assert(scope_wf(env1[i], i, n));
        if i == scope {
            let bs = env1[scope].bindings;
            let bs2 = scope_insert(bs, name, v);
            lemma_scope_index_from(bs, name, 0);
            lemma_bindings_wf(bs, n);
            lemma_bindings_wf(bs2, n);
        }
    }
}

/// After binding a name in a scope, looking the name up from that
/// scope yields the bound value, and every other name resolves as it
/// did before: binding shadows, it never touches an enclosing scope.
pub proof fn lemma_set_then_get(env: Seq<ScopeV>, scope: int, name: Seq<char>, v: ObjV, m: Seq<char>)
    requires
        env_wf(env),
        0 <= scope < env.len(),
    ensures
        ({
            let env2 = env.update(
                scope,
                ScopeV {
                    bindings: scope_insert(env[scope].bindings, name, v),
                    outer: env[scope].outer,
                },
            );
            &&& lookup_in(env2, scope, name) == Some(v)
            &&& m != name ==> lookup_in(env2, scope, m) == lookup_in(env, scope, m)
        }),
{
    let env2 = env.update(
        scope,
        ScopeV {
            bindings: scope_insert(env[scope].bindings, name, v),
            outer: env[scope].outer,
        },
    );
    lemma_scope_insert_lookup(env[scope].bindings, name, v, name);
    lemma_scope_insert_lookup(env[scope].bindings, name, v, m);
    assert(forall|i: int| 0 <= i < scope ==> env[i] == env2[i]);
    lemma_lookup_prefix(env, env2, scope, name);
    lemma_lookup_prefix(env, env2, scope, m);
    assert(scope_wf(env[scope], scope, env.len() as int));
    if m != name && scope_lookup(env[scope].bindings, m) is None {
        match env[scope].outer {
            Some(o) => {
                assert(lookup_in(env, o, m) == lookup_in(env2, o, m));
            },
            None => {},
        }
    }
}

} // verus!
