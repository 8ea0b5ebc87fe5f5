use vstd::prelude::*;

use crate::scope::{lookup, opt_view, Scope};

verus! {

/// Read access to the variables defined around an evaluation.
pub trait EnvProvider {
    /// The variables this provider defines.
    spec fn vars(&self) -> Map<Seq<char>, Seq<char>>;

    /// The value of `name`, if it is defined.
    fn var(&self, name: &str) -> (r: Option<String>)
        ensures
            opt_view(r) == lookup(self.vars(), name@),
    ;
}

impl EnvProvider for Scope {
    open spec fn vars(&self) -> Map<Seq<char>, Seq<char>> {
        self@
    }

    fn var(&self, name: &str) -> (r: Option<String>) {
        self.get(name)
    }
}

} // verus!
