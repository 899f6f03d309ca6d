//! Environments: a chain of scopes from the innermost to the outermost.

use vstd::prelude::*;
use vstd::hash_map::StringHashMap;
use crate::value::{option_view, DataType, DataView};

verus! {

/// One scope as a mathematical value: its names and what they are bound to.
pub type Scope = Map<Seq<char>, DataView>;

/// An environment: the bindings of one scope and, except for the outermost
/// scope, the environment that encloses it. A scope owns its parent, so the
/// chain cannot form a cycle.
///
/// Its mathematical value is the sequence of its scopes, the innermost first.
pub struct Env {
    local: StringHashMap<DataType>,
    parent: Option<Box<Env>>,
}

/// What `key` is bound to in the nearest scope that binds it.
pub open spec fn lookup(scopes: Seq<Scope>, key: Seq<char>) -> Option<DataView>
    decreases scopes.len(),
{
    if scopes.len() == 0 {
        None
    } else if scopes[0].contains_key(key) {
        Some(scopes[0][key])
    } else {
        lookup(scopes.skip(1), key)
    }
}

/// The scopes after `key` has been bound to `value` in the innermost one.
pub open spec fn bind(scopes: Seq<Scope>, key: Seq<char>, value: DataView) -> Seq<Scope> {
    scopes.update(0, scopes[0].insert(key, value))
}

impl Env {
    closed spec fn local_scope(self) -> Scope {
        self.local@.map_values(|v: DataType| v@)
    }

    closed spec fn scopes(self) -> Seq<Scope>
        decreases self,
    {
        match self.parent {
            None => seq![self.local_scope()],
            Some(outer) => seq![self.local_scope()] + outer.scopes(),
        }
    }

    proof fn lemma_scopes(self)
        ensures
            self.scopes().len() >= 1,
            self.scopes()[0] == self.local_scope(),
            self.parent matches Some(outer) ==> self.scopes().skip(1) == outer.scopes(),
            self.parent is None ==> self.scopes().skip(1) == Seq::<Scope>::empty(),
    {
        match self.parent {
            None => {
                assert(self.scopes().skip(1) =~= Seq::<Scope>::empty());
            },
            Some(outer) => {
                assert(self.scopes().skip(1) =~= outer.scopes());
            },
        }
    }
}

impl View for Env {
    type V = Seq<Scope>;

    closed spec fn view(&self) -> Seq<Scope> {
        self.scopes()
    }
}

impl Env {
    /// Every environment has at least one scope.
    pub proof fn lemma_has_scope(self)
        ensures
            self@.len() >= 1,
    {
        self.lemma_scopes();
    }

    /// An environment of one empty scope, without a parent.
    pub fn new() -> (env: Env)
        ensures
            env@ == seq![Map::<Seq<char>, DataView>::empty()],
    {
        let env = Env { local: StringHashMap::new(), parent: None };
        assert(env.local_scope() =~= Map::<Seq<char>, DataView>::empty());
        env
    }

    /// An environment of one empty scope inside `parent`.
    pub fn with_parent(parent: Env) -> (env: Env)
        ensures
            env@ == seq![Map::<Seq<char>, DataView>::empty()] + parent@,
    {
        let env = Env { local: StringHashMap::new(), parent: Some(Box::new(parent)) };
        assert(env.local_scope() =~= Map::<Seq<char>, DataView>::empty());
        env
    }

    /// Looks `key` up in the innermost scope, then in the enclosing scopes
    /// from the inside out. Gives a copy of what the nearest scope that binds
    /// `key` binds it to, and `None` where no scope binds it.
    pub fn get(&self, key: &str) -> (value: Option<DataType>)
        ensures
            option_view(value) == lookup(self@, key@),
        decreases self,
    {
        proof {
            self.lemma_scopes();
        }
        match self.local.get(key) {
            Some(v) => Some(v.clone()),
            None => {
                match &self.parent {
                    Some(outer) => outer.get(key),
                    None => {
                        assert(lookup(Seq::<Scope>::empty(), key@) is None);
                        None
                    },
                }
            },
        }
    }

    /// Binds `name` to `value` in the innermost scope, in place of what that
    /// scope bound it to before. The enclosing scopes are left as they are.
    pub fn define(&mut self, name: String, value: DataType)
        ensures
            final(self)@ == bind(old(self)@, name@, value@),
    {
        proof {
            self.lemma_scopes();
        }
        let ghost before = *self;
        self.local.insert(name, value);
        proof {
            self.lemma_scopes();
            assert(self.local_scope() =~= before.local_scope().insert(name@, value@));
            assert(self.scopes() =~= bind(before.scopes(), name@, value@));
        }
    }
}

} // verus!
