//! Environments: scopes that map names to values, each with an optional
//! enclosing scope.
//!
//! All scopes of an evaluation live in one `Environment`, and a scope is
//! known by its index there. Closures and call frames hold indices, so that
//! any number of them can share a scope and see what is bound in it later.

use vstd::prelude::*;
use crate::object::{clone_object, Env, Object, ObjectView};

verus! {

/// What a scope is: its bindings, and the scope that encloses it.
pub struct ScopeView {
    pub store: Map<Seq<char>, ObjectView>,
    pub outer: Option<nat>,
}

/// The value that `name` has in the scope with index `scope`: the binding
/// of the scope itself if it has one, else that of the enclosing scopes,
/// from the innermost outward. A scope is enclosed only by a scope that
/// was made before it.
pub open spec fn lookup(env: Seq<ScopeView>, scope: nat, name: Seq<char>) -> Option<ObjectView>
    decreases scope,
{
    if scope >= env.len() {
        None
    } else if env[scope as int].store.contains_key(name) {
        Some(env[scope as int].store[name])
    } else {
        match env[scope as int].outer {
            Some(outer) => if outer < scope {
                lookup(env, outer, name)
            } else {
                None
            },
            None => None,
        }
    }
}

/// The environment in which the scope with index `scope` binds `name` to
/// `value`, and all else is as before.
pub open spec fn bind(env: Seq<ScopeView>, scope: nat, name: Seq<char>, value: ObjectView) -> Seq<
    ScopeView,
> {
    if scope < env.len() {
        env.update(
            scope as int,
            ScopeView {
                store: env[scope as int].store.insert(name, value),
                outer: env[scope as int].outer,
            },
        )
    } else {
        env
    }
}

/// The environment with one more scope, which binds nothing and is enclosed
/// by `outer`.
pub open spec fn enclose(env: Seq<ScopeView>, outer: nat) -> Seq<ScopeView> {
    env.push(ScopeView { store: Map::empty(), outer: Some(outer) })
}

/// The environment of one scope that binds nothing and has no enclosing
/// scope.
pub open spec fn root() -> Seq<ScopeView> {
    seq![ScopeView { store: Map::empty(), outer: None }]
}

/// One scope: its bindings in the order in which they were made, and the
/// scope that encloses it.
#[derive(Debug)]
pub struct Scope {
    store: Vec<(String, Object)>,
    outer: Option<Env>,
}

/// The bindings that a list of bindings amounts to: a later binding of a
/// name replaces an earlier one.
pub closed spec fn store_map(entries: Seq<(String, Object)>) -> Map<Seq<char>, ObjectView>
    decreases entries.len(),
{
    if entries.len() == 0 {
        Map::empty()
    } else {
        store_map(entries.drop_last()).insert(entries.last().0@, entries.last().1@)
    }
}

impl View for Scope {
    type V = ScopeView;

    closed spec fn view(&self) -> ScopeView {
        ScopeView {
            store: store_map(self.store@),
            outer: match self.outer {
                Some(outer) => Some(outer as nat),
                None => None,
            },
        }
    }
}

/// The scopes of an evaluation.
#[derive(Debug)]
pub struct Environment {
    scopes: Vec<Scope>,
}

impl View for Environment {
    type V = Seq<ScopeView>;

    closed spec fn view(&self) -> Seq<ScopeView> {
        Seq::new(self.scopes@.len(), |i: int| self.scopes@[i]@)
    }
}

/// Finds the value that a list of bindings gives a name.
fn find(store: &Vec<(String, Object)>, name: &str) -> (r: Option<Object>)
    ensures
        match r {
            Some(value) => store_map(store@).contains_key(name@) && store_map(store@)[name@]
                == value@,
            None => !store_map(store@).contains_key(name@),
        },
{
    let key = String::from_str(name);
    let mut i: usize = store.len();
    proof {
        assert(store@.take(i as int) =~= store@);
    }
    while i > 0
        invariant
            0 <= i <= store.len(),
            key@ == name@,
            store_map(store@).contains_key(name@) == store_map(store@.take(i as int)).contains_key(
                name@,
            ),
            store_map(store@).contains_key(name@) ==> store_map(store@)[name@] == store_map(
                store@.take(i as int),
            )[name@],
        decreases i,
    {
        proof {
            assert(store@.take(i as int).drop_last() =~= store@.take(i - 1));
            assert(store@.take(i as int).last() == store@[i - 1]);
        }
        i = i - 1;
        if store[i].0 == key {
            return Some(clone_object(&store[i].1));
        }
    }
    None
}

impl Environment {
    /// A fresh environment: one scope, the root, which binds nothing.
    pub fn new() -> (env: Environment)
        ensures
            env@ == root(),
    {
        let mut scopes: Vec<Scope> = Vec::new();
        scopes.push(Scope { store: Vec::new(), outer: None });
        let env = Environment { scopes };
        proof {
            assert(env@ =~= root());
        }
        env
    }

    /// Adds a scope that binds nothing and is enclosed by `outer`, and
    /// yields its index.
    pub fn new_enclosed(&mut self, outer: Env) -> (scope: Env)
        ensures
            final(self)@ == enclose(old(self)@, outer as nat),
            scope == old(self)@.len(),
    {
        let scope = self.scopes.len();
        self.scopes.push(Scope { store: Vec::new(), outer: Some(outer) });
        proof {
            assert(self@ =~= enclose(old(self)@, outer as nat));
        }
        scope
    }

    /// The value that `name` has in the scope `env`, looked up from that
    /// scope outward; `None` if no scope on the way binds the name.
    pub fn get(&self, env: Env, name: &str) -> (r: Option<Object>)
        ensures
            match r {
                Some(value) => Some(value@),
                None => None,
            } == lookup(self@, env as nat, name@),
    {
        let mut scope = env;
        loop
            invariant
                lookup(self@, scope as nat, name@) == lookup(self@, env as nat, name@),
            decreases scope,
        {
            if scope >= self.scopes.len() {
                return None;
            }
            match find(&self.scopes[scope].store, name) {
                Some(value) => {
                    return Some(value);
                },
                None => {},
            }
            match self.scopes[scope].outer {
                Some(outer) => {
                    if outer < scope {
                        scope = outer;
                    } else {
                        return None;
                    }
                },
                None => {
                    return None;
                },
            }
        }
    }

    /// Binds `name` to `val` in the scope `env`, in place of what the scope
    /// bound it to before, and yields the value.
    pub fn set(&mut self, env: Env, name: String, val: Object) -> (r: Object)
        requires
            env < old(self)@.len(),
        ensures
            final(self)@ == bind(old(self)@, env as nat, name@, val@),
            r@ == val@,
    {
        let r = clone_object(&val);
        self.scopes[env].store.push((name, val));
        proof {
            assert(self.scopes@[env as int].store@.drop_last() =~= old(self).scopes@[env as int]
                .store@);
            assert(self@ =~= bind(old(self)@, env as nat, name@, val@));
        }
        r
    }
}

} // verus!
