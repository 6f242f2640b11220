//! The interpreter facade: one value owning the scope arena and the
//! root scope, ready to evaluate forms against the prelude.

use vstd::prelude::*;

use crate::env::frame_wf;
use crate::env::make_env_ptr;
use crate::env::st_wf;
use crate::env::EnvArena;
use crate::err::res_view;
use crate::err::ScmErr;
use crate::eval_apply::eval;
use crate::exp::Exp;
use crate::prelude::get_prelude;
use crate::prelude::prelude_entries;
use crate::sem::sem_eval;

verus! {

/// An interpreter instance: the arena of every scope created so far and
/// the root scope holding the prelude.
pub struct Interp {
    pub arena: EnvArena,
    pub global: usize,
}

impl Interp {
    /// The arena is sound and the root scope is in it.
    pub open spec fn wf(self) -> bool {
        st_wf(self.arena@) && (self.global as int) < self.arena@.len()
    }

    /// A fresh interpreter: one scope, the prelude.
    pub fn new() -> (r: Interp)
        ensures
            r.wf(),
            r.arena@.len() == 1,
            r.arena@[0].entries =~= prelude_entries(),
            r.arena@[0].outer is None,
            r.global == 0,
    {
        let mut arena = EnvArena::new();
        let ghost e0 = arena@;
        let g = make_env_ptr(&mut arena, get_prelude());
        proof {
            let st = arena@;
            let pe = st[0].entries;
            assert forall|j: int| 0 <= j < pe.len() implies #[trigger] pe[j].val.wf(1) by {
                assert(crate::exp::all_wf(Seq::<crate::exp::ExpV>::empty(), 1));
            }
            crate::env::lemma_entries_wf_intro(pe, 1);
            assert forall|i: int| 0 <= i < st.len() implies #[trigger] frame_wf(
                st[i],
                i,
                st.len() as int,
            ) by {
                assert(st[0].outer is None);
            }
        }
        Interp { arena, global: g }
    }

    /// Evaluates one form in the root scope with the default depth
    /// budget.  A form that mentions a scope the arena does not know is
    /// rejected up front (nothing the reader produces ever does).
    pub fn eval_exp(&mut self, exp: Exp) -> (r: Result<Exp, ScmErr>)
        requires
            old(self).wf(),
        ensures
            final(self).wf(),
            old(self).arena@.len() <= final(self).arena@.len(),
            final(self).global == old(self).global,
            exp@.wf(old(self).arena@.len() as int) ==> ({
                let o = sem_eval(
                    crate::DEFAULT_FUEL as nat,
                    exp@,
                    old(self).global as int,
                    old(self).arena@,
                );
                res_view(r) == o.r && final(self).arena@ == o.st
            }),
            !exp@.wf(old(self).arena@.len() as int) ==> r is Err && final(self).arena@ == old(
                self,
            ).arena@,
    {
        let n = self.arena.len();
        if exp.wf_check(n) {
            eval(exp, self.global, &mut self.arena)
        } else {
            Result::Err(ScmErr::from("eval: expression refers to an unknown scope"))
        }
    }
}

} // verus!
