//! The names bound where an expression is evaluated, such as the
//! parameters of a function, which shadow variables of the same name.
use crate::text::{str_equal, string_of};
use vstd::prelude::*;

verus! {

/// Names bound in an expression's context, each with its position.
pub struct ExpressionContext {
    bindings: Vec<(String, usize)>,
}

impl ExpressionContext {
    /// The names bound.
    pub closed spec fn names(&self) -> Set<Seq<char>> {
        Set::new(|name: Seq<char>| exists|k: int| 0 <= k < self.bindings.len() && #[trigger] self.bindings@[k].0@ == name)
    }

    /// A context that binds nothing.
    pub fn new() -> (r: Self)
        ensures
            r.names() == Set::<Seq<char>>::empty(),
    {
        let r = ExpressionContext { bindings: Vec::new() };
        assert(r.names() =~= Set::<Seq<char>>::empty());
        r
    }

    /// A context that binds each of `parameters` at its position.
    pub fn from_bindings(parameters: &[(String, usize)]) -> (r: Self)
        ensures
            forall|name: Seq<char>|
                r.names().contains(name) <==> exists|k: int|
                    0 <= k < parameters.len() && #[trigger] parameters@[k].0@ == name,
    {
        let mut bindings: Vec<(String, usize)> = Vec::new();
        let mut k: usize = 0;
        while k < parameters.len()
            invariant
                k <= parameters.len(),
                bindings.len() == k,
                forall|j: int| 0 <= j < k ==> (#[trigger] bindings@[j]).0@ == parameters@[j].0@,
            decreases parameters.len() - k,
        {
            let (name, number) = &parameters[k];
            bindings.push((string_of(name.as_str()), *number));
            k += 1;
        }
        let r = ExpressionContext { bindings };
        assert forall|name: Seq<char>| r.names().contains(name) <==> exists|k: int|
            0 <= k < parameters.len() && #[trigger] parameters@[k].0@ == name by {
            if r.names().contains(name) {
                let k = choose|k: int| 0 <= k < r.bindings.len() && #[trigger] r.bindings@[k].0@ == name;
                assert(parameters@[k].0@ == name);
            }
            if exists|k: int| 0 <= k < parameters.len() && #[trigger] parameters@[k].0@ == name {
                let k = choose|k: int| 0 <= k < parameters.len() && #[trigger] parameters@[k].0@ == name;
                assert(r.bindings@[k].0@ == name);
            }
        }
        r
    }

    /// Whether `name` is bound here, and so shadows a variable.
    pub fn shadows(&self, name: &str) -> (r: bool)
        ensures
            r == self.names().contains(name@),
    {
        let mut k: usize = 0;
        while k < self.bindings.len()
            invariant
                k <= self.bindings.len(),
                forall|j: int| 0 <= j < k ==> (#[trigger] self.bindings@[j]).0@ != name@,
            decreases self.bindings.len() - k,
        {
            if str_equal(self.bindings[k].0.as_str(), name) {
                assert(self.bindings@[k as int].0@ == name@);
                return true;
            }
            k += 1;
        }
        false
    }
}

} // verus!
