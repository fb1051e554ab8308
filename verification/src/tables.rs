//! The interpreter's symbol tables: a scope mapping variable names to
//! values, and the global function table mapping function names to their
//! definitions.
//!
//! The function table is an explicit collaborator threaded through parsing
//! and evaluation, never process-wide state.  Function names are flat and
//! global: no nesting, no overloading, no shadowing.

use vstd::prelude::*;

use crate::ast::FnExpr;
use crate::ast::FnExprS;
use crate::ast::clone_fn_expr;
use crate::ast::fn_expr_view;

verus! {

/// One scope: a mapping from variable names to values (encodings of
/// doubles).  The interpreter keeps exactly one active scope per call frame.
pub struct Scope {
    map: vstd::hash_map::StringHashMap<u64>,
}

impl View for Scope {
    type V = Map<Seq<char>, u64>;

    closed spec fn view(&self) -> Map<Seq<char>, u64> {
        self.map@
    }
}

impl Scope {
    /// An empty scope.
    pub fn new() -> (r: Self)
        ensures
            r@ == Map::<Seq<char>, u64>::empty(),
    {
        Scope { map: vstd::hash_map::StringHashMap::new() }
    }

    /// Bind `name` to `value`, inserting or overwriting.
    pub fn insert(&mut self, name: String, value: u64)
        ensures
            final(self)@ == old(self)@.insert(name@, value),
    {
        self.map.insert(name, value);
    }

    /// The value bound to `name`, if any.
    pub fn get(&self, name: &str) -> (r: Option<u64>)
        ensures
            match r {
                Some(v) => self@.contains_key(name@) && v == self@[name@],
                None => !self@.contains_key(name@),
            },
    {
        match self.map.get(name) {
            Some(v) => Some(*v),
            None => None,
        }
    }

    /// Whether `name` is bound.
    pub fn contains_key(&self, name: &str) -> (r: bool)
        ensures
            r == self@.contains_key(name@),
    {
        self.map.contains_key(name)
    }
}

/// The global function table.  Its model maps each function name to the
/// model of its definition.
pub struct FnTable {
    map: vstd::hash_map::StringHashMap<FnExpr>,
}

impl View for FnTable {
    type V = Map<Seq<char>, FnExprS>;

    closed spec fn view(&self) -> Map<Seq<char>, FnExprS> {
        Map::new(
            |k: Seq<char>| self.map@.dom().contains(k),
            |k: Seq<char>| fn_expr_view(self.map@[k]),
        )
    }
}

impl FnTable {
    /// An empty table.
    pub fn new() -> (r: Self)
        ensures
            r@ == Map::<Seq<char>, FnExprS>::empty(),
    {
        let r = FnTable { map: vstd::hash_map::StringHashMap::new() };
        proof {
            assert(r@ =~= Map::<Seq<char>, FnExprS>::empty());
        }
        r
    }

    /// Record the definition of `name`, inserting or overwriting.
    pub fn insert(&mut self, name: String, f: FnExpr)
        ensures
            final(self)@ == old(self)@.insert(name@, fn_expr_view(f)),
    {
        let ghost old_view = self@;
        let ghost fv = fn_expr_view(f);
        self.map.insert(name, f);
        proof {
            assert(self@ =~= old_view.insert(name@, fv));
        }
    }

    /// A copy of the definition of `name`, if any.
    pub fn get_clone(&self, name: &str) -> (r: Option<FnExpr>)
        ensures
            match r {
                Some(f) => self@.contains_key(name@) && fn_expr_view(f) == self@[name@],
                None => !self@.contains_key(name@),
            },
    {
        match self.map.get(name) {
            Some(f) => Some(clone_fn_expr(f)),
            None => None,
        }
    }

    /// Whether `name` is defined.
    pub fn contains_key(&self, name: &str) -> (r: bool)
        ensures
            r == self@.contains_key(name@),
    {
        self.map.contains_key(name)
    }
}

} // verus!
