//! The error type: a single reason string, with no subtypes.

use vstd::prelude::*;

use crate::exp::Exp;
use crate::exp::ExpV;

verus! {

/// Every failure in the interpreter carries just a reason string; callers
/// match on occurrence, not on kind.
#[derive(Debug)]
pub struct ScmErr {
    reason: String,
}

impl View for ScmErr {
    type V = Seq<char>;

    closed spec fn view(&self) -> Seq<char> {
        self.reason@
    }
}

impl ScmErr {
    pub fn from(reason: &str) -> (e: ScmErr)
        ensures
            e@ == reason@,
    {
        ScmErr { reason: reason.to_owned() }
    }

    /// The reason string.  (The type deliberately has no `Display`; the
    /// surrounding program prints this.)
    pub fn reason(&self) -> (r: &String)
        ensures
            r@ == self@,
    {
        &self.reason
    }
}

/// The model of an evaluation result: the value's model on success, the
/// reason string on failure.
pub open spec fn res_view(r: Result<Exp, ScmErr>) -> Result<ExpV, Seq<char>> {
    match r {
        Result::Ok(e) => Result::Ok(e@),
        Result::Err(e) => Result::Err(e@),
    }
}

} // verus!
