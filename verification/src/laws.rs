//! The general laws of the interpreter, stated over the semantics and
//! proved once and for all.

use vstd::prelude::*;

use crate::env::entries_lookup;
use crate::env::frame_wf;
use crate::env::sem_assign;
use crate::env::sem_define;
use crate::env::sem_lookup;
use crate::env::st_wf;
use crate::env::BindV;
use crate::env::FrameV;
use crate::exp::ExpV;
use crate::exp::Prim;
use crate::prelude::sem_prim;
use crate::sem::sem_eval;

verus! {

/// Numbers and booleans evaluate to themselves, and leave every scope
/// untouched.
pub proof fn lemma_self_evaluation(fuel: nat, n: int, b: bool, env: int, st: Seq<FrameV>)
    requires
        fuel >= 1,
    ensures
        sem_eval(fuel, ExpV::Number(n), env, st).r == Result::<ExpV, Seq<char>>::Ok(
            ExpV::Number(n),
        ),
        sem_eval(fuel, ExpV::Number(n), env, st).st == st,
        sem_eval(fuel, ExpV::Bool(b), env, st).r == Result::<ExpV, Seq<char>>::Ok(ExpV::Bool(b)),
        sem_eval(fuel, ExpV::Bool(b), env, st).st == st,
{
}

/// A symbol bound in a scope resolves there: the local binding shadows
/// whatever any enclosing scope says.
pub proof fn lemma_lookup_shadows(st: Seq<FrameV>, env: int, name: Seq<char>)
    requires
        0 <= env < st.len(),
        entries_lookup(st[env].entries, name) is Some,
    ensures
        sem_lookup(st, env, name) == entries_lookup(st[env].entries, name),
{
}

/// Binding a symbol in one scope is invisible to every scope below it:
/// a chain only ever climbs to older scopes, so a lookup from an older
/// scope never sees a younger scope's bindings.
pub proof fn lemma_inner_define_invisible_outside(
    st: Seq<FrameV>,
    i: int,
    o: int,
    key: Seq<char>,
    val: ExpV,
    name: Seq<char>,
)
    requires
        st_wf(st),
        0 <= o < i < st.len(),
    ensures
        sem_lookup(sem_define(st, i, key, val), o, name) == sem_lookup(st, o, name),
    decreases o,
{
    let st2 = sem_define(st, i, key, val);
    assert(st2[o] == st[o]);
    assert(frame_wf(st[o], o, st.len() as int));
    match st[o].outer {
        Option::Some(q) => {
            if 0 <= q < o {
                lemma_inner_define_invisible_outside(st, i, q, key, val, name);
            }
        },
        Option::None => {},
    }
}

/// After binding a symbol in a scope, looking it up from that scope
/// gives the bound value.
pub proof fn lemma_define_shadows(st: Seq<FrameV>, env: int, key: Seq<char>, val: ExpV)
    requires
        0 <= env < st.len(),
    ensures
        sem_lookup(sem_define(st, env, key, val), env, key) == Option::Some(val),
{
    let st2 = sem_define(st, env, key, val);
    assert(st2[env].entries.last() == BindV { name: key, val });
}

/// The scope whose binding of `name` a lookup from `env` would return:
/// the innermost scope on the chain that binds it.
pub open spec fn binder_of(st: Seq<FrameV>, env: int, name: Seq<char>) -> Option<int>
    decreases env,
{
    if !(0 <= env < st.len()) {
        Option::None
    } else if entries_lookup(st[env].entries, name) is Some {
        Option::Some(env)
    } else {
        match st[env].outer {
            Option::Some(o) => if 0 <= o < env {
                binder_of(st, o, name)
            } else {
                Option::None
            },
            Option::None => Option::None,
        }
    }
}

/// Assignment succeeds exactly when some scope on the chain binds the
/// name, and then it rebinds that one scope in place.
pub proof fn lemma_assign_updates_binder(st: Seq<FrameV>, env: int, name: Seq<char>, val: ExpV)
    ensures
        (match binder_of(st, env, name) {
            Option::Some(k) => sem_assign(st, env, name, val) == Option::Some(
                sem_define(st, k, name, val),
            ),
            Option::None => sem_assign(st, env, name, val) is None,
        }),
    decreases env,
{
    if 0 <= env < st.len() && entries_lookup(st[env].entries, name) is None {
        match st[env].outer {
            Option::Some(o) => {
                if 0 <= o < env {
                    lemma_assign_updates_binder(st, o, name, val);
                }
            },
            Option::None => {},
        }
    }
}

/// A lookup returns the binding of the binder scope.
pub proof fn lemma_lookup_is_binder(st: Seq<FrameV>, env: int, name: Seq<char>)
    ensures
        (match binder_of(st, env, name) {
            Option::Some(k) => 0 <= k < st.len() && sem_lookup(st, env, name) == entries_lookup(
                st[k].entries,
                name,
            ),
            Option::None => sem_lookup(st, env, name) is None,
        }),
    decreases env,
{
    if 0 <= env < st.len() && entries_lookup(st[env].entries, name) is None {
        match st[env].outer {
            Option::Some(o) => {
                if 0 <= o < env {
                    lemma_lookup_is_binder(st, o, name);
                }
            },
            Option::None => {},
        }
    }
}

/// Assignment through one scope chain is seen through every chain that
/// shares the same binder scope: mutating a captured scope mutates the
/// defining scope, not a copy.  In particular a `set!` made from inside
/// a closure body is visible afterwards from the scope that defined the
/// variable.
pub proof fn lemma_assign_visible_through_shared_scope(
    st: Seq<FrameV>,
    env: int,
    d: int,
    name: Seq<char>,
    val: ExpV,
    k: int,
)
    requires
        binder_of(st, env, name) == Option::Some(k),
        binder_of(st, d, name) == Option::Some(k),
    ensures
        sem_assign(st, env, name, val) is Some,
        sem_lookup(sem_assign(st, env, name, val)->Some_0, d, name) == Option::Some(val),
    decreases d,
{
    lemma_assign_updates_binder(st, env, name, val);
    let st2 = sem_assign(st, env, name, val)->Some_0;
    lemma_binder_bounds(st, env, name);
    if d == k {
        assert(entries_lookup(st[d].entries, name) is Some);
        assert(st2[d].entries.last() == BindV { name, val });
    } else {
        assert(0 <= d < st.len());
        assert(entries_lookup(st[d].entries, name) is None);
        assert(st2[d] == st[d]);
        match st[d].outer {
            Option::Some(o) => {
                if 0 <= o < d {
                    lemma_assign_visible_through_shared_scope(st, env, o, name, val, k);
                    lemma_assign_updates_binder(st, o, name, val);
                }
            },
            Option::None => {},
        }
    }
}

/// The binder, when there is one, is a real scope that binds the name.
pub proof fn lemma_binder_bounds(st: Seq<FrameV>, env: int, name: Seq<char>)
    ensures
        (match binder_of(st, env, name) {
            Option::Some(k) => 0 <= k < st.len() && entries_lookup(st[k].entries, name) is Some,
            Option::None => true,
        }),
    decreases env,
{
    if 0 <= env < st.len() && entries_lookup(st[env].entries, name) is None {
        match st[env].outer {
            Option::Some(o) => {
                if 0 <= o < env {
                    lemma_binder_bounds(st, o, name);
                }
            },
            Option::None => {},
        }
    }
}

/// `quote` returns its operand exactly as parsed, with nothing looked up
/// or evaluated, and no scope changed.
pub proof fn lemma_quote_unevaluated(fuel: nat, items: Seq<ExpV>, env: int, st: Seq<FrameV>)
    requires
        fuel >= 1,
        items.len() >= 2,
        items[0] == ExpV::Symbol("quote"@),
    ensures
        sem_eval(fuel, ExpV::List(items), env, st).r == Result::<ExpV, Seq<char>>::Ok(items[1]),
        sem_eval(fuel, ExpV::List(items), env, st).st == st,
{
}

/// `car` and `cdr` undo `cons`: for any two values, `(car (cons a b))`
/// is `a` and `(cdr (cons a b))` is `b`.
pub proof fn lemma_cons_car_cdr(a: ExpV, b: ExpV)
    ensures
        sem_prim(Prim::Cons, seq![a, b]) is Ok,
        sem_prim(Prim::Car, seq![sem_prim(Prim::Cons, seq![a, b])->Ok_0]) == Result::<
            ExpV,
            Seq<char>,
        >::Ok(a),
        sem_prim(Prim::Cdr, seq![sem_prim(Prim::Cons, seq![a, b])->Ok_0]) == Result::<
            ExpV,
            Seq<char>,
        >::Ok(b),
{
    let c = sem_prim(Prim::Cons, seq![a, b])->Ok_0;
    assert(c matches ExpV::List(l) && l.len() == 2 && l[0] == a && l[1] == b);
}

/// A bare symbol with no binding anywhere on the chain evaluates to an
/// error (never a value, and the scopes are untouched).
pub proof fn lemma_undefined_symbol(fuel: nat, name: Seq<char>, env: int, st: Seq<FrameV>)
    requires
        fuel >= 1,
        sem_lookup(st, env, name) is None,
    ensures
        sem_eval(fuel, ExpV::Symbol(name), env, st).r is Err,
        sem_eval(fuel, ExpV::Symbol(name), env, st).st == st,
{
}

} // verus!
