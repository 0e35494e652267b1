//! Runtime notions that the compiler's users share: a promise's state and the name
//! a parameter binds.
use vstd::prelude::*;
use crate::ast::Param;

verus! {

/// The state a promise is in.
#[derive(Clone, Copy, PartialEq, Eq, Debug)]
pub enum PromiseStatus {
    Pending,
    Fulfilled,
    Rejected,
}

/// The name a parameter binds when it is bound as a whole: its own name, or `_` for
/// a destructuring or a rest parameter.
pub fn param_name(p: &Param) -> (r: &str)
    ensures
        r@ == (match p {
            Param::Name(n) => n@,
            _ => "_"@,
        }),
{
    match p {
        Param::Name(n) => n.as_str(),
        Param::Destructure(_) => "_",
        Param::Rest(_) => "_",
    }
}

} // verus!
