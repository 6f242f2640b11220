//! The evaluator and the apply engine, proved to return exactly what the
//! semantics in `sem` says, store included.
//!
//! Every entry burns one unit of fuel, so `fuel` bounds the depth of
//! recursive evaluation; the budget stands in for the native call stack.

use vstd::prelude::*;
use vstd::string::StringExecFns;

use crate::env::st_wf;
use crate::env::EnvArena;
use crate::env::Env;
use crate::err::res_view;
use crate::err::ScmErr;
use crate::exp::all_wf;
use crate::exp::clone_string;
use crate::exp::views_of;
use crate::exp::Exp;
use crate::exp::ExpV;
use crate::exp::ScmClosure;
use crate::env::make_env_ptr;
use crate::env::Bind;
use crate::prelude::apply_prim;
use crate::sem::param_names;
use crate::sem::params_ok;
use crate::sem::sem_apply;
use crate::sem::sem_call;
use crate::sem::sem_cond;
use crate::sem::sem_eval;
use crate::sem::sem_eval_args;
use crate::sem::sem_seq;
use crate::sem::zip_entries;
use crate::sem::lemma_params_ok_index;
use crate::sem::lemma_zip_entries_wf;
use crate::text::str_eq;

verus! {

broadcast use crate::exp::group_exp_axioms, crate::exp::lemma_all_wf_index;

/// Evaluates an expression with the default depth budget.
pub fn eval(exp: Exp, env: usize, arena: &mut EnvArena) -> (r: Result<Exp, ScmErr>)
    requires
        st_wf(old(arena)@),
        env < old(arena)@.len(),
        exp@.wf(old(arena)@.len() as int),
    ensures
        st_wf(final(arena)@),
        old(arena)@.len() <= final(arena)@.len(),
        res_view(r) == sem_eval(crate::DEFAULT_FUEL as nat, exp@, env as int, old(arena)@).r,
        final(arena)@ == sem_eval(crate::DEFAULT_FUEL as nat, exp@, env as int, old(arena)@).st,
        r matches Result::Ok(v) ==> v@.wf(final(arena)@.len() as int),
{
    eval_fuel(crate::DEFAULT_FUEL, &exp, env, arena)
}

/// Evaluates an expression with an explicit depth budget.
#[verifier::loop_isolation(false)]
#[verifier::rlimit(60)]
pub fn eval_fuel(fuel: u64, e: &Exp, env: usize, arena: &mut EnvArena) -> (r: Result<Exp, ScmErr>)
    requires
        st_wf(old(arena)@),
        env < old(arena)@.len(),
        e@.wf(old(arena)@.len() as int),
    ensures
        st_wf(final(arena)@),
        old(arena)@.len() <= final(arena)@.len(),
        res_view(r) == sem_eval(fuel as nat, e@, env as int, old(arena)@).r,
        final(arena)@ == sem_eval(fuel as nat, e@, env as int, old(arena)@).st,
        r matches Result::Ok(v) ==> v@.wf(final(arena)@.len() as int),
    decreases fuel, 0int,
{
    if fuel == 0 {
        return Result::Err(ScmErr::from("eval: depth limit exceeded"));
    }
    let f = fuel - 1;
    let ghost n0 = old(arena)@.len() as int;
    match e {
        Exp::Number(_) => { return Result::Ok(e.deep_clone()); },
        Exp::Bool(_) => { return Result::Ok(e.deep_clone()); },
        Exp::Symbol(s) => {
            match arena.lookup(env, s) {
                Option::Some(v) => { return Result::Ok(v); },
                Option::None => {
                    let msg = String::from_str("eval: Symbol '").concat(s.as_str()).concat(
                        " undefined",
                    );
                    return Result::Err(ScmErr::from(msg.as_str()));
                },
            }
        },
        Exp::List(list) => {
            let ghost items = views_of(list@);
            if list.len() == 0 {
                return Result::Err(ScmErr::from("eval: expect a non-empty list"));
            }
            proof {
                assert(items[0] == list@[0]@);
            }
            match &list[0] {
                Exp::Symbol(name) => {
                    if str_eq(name.as_str(), "quote") {
                        if list.len() >= 2 {
                            proof {
                                assert(items[1] == list@[1]@);
                                assert(items[1].wf(n0));
                            }
                            return Result::Ok(list[1].deep_clone());
                        } else {
                            return Result::Err(ScmErr::from("quote: nothing to quote"));
                        }
                    } else if str_eq(name.as_str(), "lambda") {
                        let mut tail: Vec<Exp> = Vec::new();
                        let mut i: usize = 1;
                        while i < list.len()
                            invariant
                                1 <= i <= list@.len(),
                                views_of(tail@) =~= items.drop_first().take(i - 1),
                            decreases list@.len() - i,
                        {
                            proof {
                                assert(items[i as int] == list@[i as int]@);
                            }
                            tail.push(list[i].deep_clone());
                            proof {
                                assert(views_of(tail@).drop_last() =~= items.drop_first().take(
                                    i - 1,
                                ));
                                assert(views_of(tail@) =~= items.drop_first().take(i as int));
                            }
                            i = i + 1;
                        }
                        proof {
                            assert(views_of(tail@) =~= items.drop_first());
                            assert forall|k: int|
                                0 <= k < items.drop_first().len() implies #[trigger] items.drop_first()[k].wf(
                                n0,
                            ) by {
                                assert(items[k + 1].wf(n0));
                            }
                            crate::exp::lemma_all_wf_intro(items.drop_first(), n0);
                        }
                        let body_exp = Exp::List(tail);
                        let ghost bodyv = body_exp@;
                        let bx = Box::new(body_exp);
                        proof {
                            assert((*bx)@ == bodyv);
                        }
                        let r = Exp::Closure(ScmClosure { body: bx, env });
                        proof {
                            let c2 = ExpV::Closure {
                                body: Box::new(ExpV::List(items.drop_first())),
                                env: env as int,
                            };
                            assert(views_of(tail@) == items.drop_first());
                            assert(r@ == c2);
                            assert(all_wf(views_of(tail@), n0));
                            assert(bodyv.wf(n0));
                            assert(r@.wf(n0));
                        }
                        return Result::Ok(r);
                    } else if str_eq(name.as_str(), "define") {
                        if list.len() == 3 {
                            proof {
                                assert(items[1] == list@[1]@);
                                assert(items[2] == list@[2]@);
                                assert(items[2].wf(n0));
                            }
                            match &list[1] {
                                Exp::Symbol(key) => {
                                    match eval_fuel(f, &list[2], env, arena) {
                                        Result::Ok(v) => {
                                            proof {
                                                crate::env::lemma_st_wf_define(
                                                    arena@,
                                                    env as int,
                                                    key@,
                                                    v@,
                                                );
                                            }
                                            arena.define(env, clone_string(key), v);
                                            return Result::Ok(Exp::Empty);
                                        },
                                        Result::Err(er) => { return Result::Err(er); },
                                    }
                                },
                                _ => { return Result::Err(ScmErr::from("define: expected Symbol")); },
                            }
                        } else {
                            return Result::Err(ScmErr::from("define: nothing to define"));
                        }
                    } else if str_eq(name.as_str(), "set!") {
                        if list.len() < 3 {
                            Result::Err(ScmErr::from("set!: nothing to set!"))
                        } else {
                            proof {
                                assert(items[1] == list@[1]@);
                                assert(items[2] == list@[2]@);
                                assert(items[2].wf(n0));
                            }
                            match eval_fuel(f, &list[2], env, arena) {
                                Result::Ok(v) => {
                                    match &list[1] {
                                        Exp::Symbol(key) => {
                                            let ghost pre = arena@;
                                            let ghost vv = v@;
                                            let ok = arena.assign(env, key, v);
                                            proof {
                                                if ok {
                                                    crate::env::lemma_st_wf_assign(
                                                        pre,
                                                        env as int,
                                                        key@,
                                                        vv,
                                                    );
                                                }
                                            }
                                            if ok {
                                                Result::Ok(Exp::Empty)
                                            } else {
                                                Result::Err(
                                                    ScmErr::from("set!: Symbol undefined"),
                                                )
                                            }
                                        },
                                        _ => Result::Err(ScmErr::from("set!: expected Symbol")),
                                    }
                                },
                                Result::Err(er) => Result::Err(er),
                            }
                        }
                    } else if str_eq(name.as_str(), "if") {
                        if list.len() < 2 {
                            Result::Err(ScmErr::from("if: missing condition"))
                        } else if list.len() < 3 {
                            Result::Err(ScmErr::from("if: missing then clause"))
                        } else if list.len() < 4 {
                            Result::Err(ScmErr::from("if: missing else clause"))
                        } else {
                            proof {
                                assert(items[1] == list@[1]@);
                                assert(items[2] == list@[2]@);
                                assert(items[3] == list@[3]@);
                                assert(items[1].wf(n0) && items[2].wf(n0) && items[3].wf(n0));
                            }
                            match eval_fuel(f, &list[1], env, arena) {
                                Result::Ok(Exp::Bool(true)) => {
                                    proof {
                                        items[2].lemma_wf_widen(n0, arena@.len() as int);
                                    }
                                    eval_fuel(f, &list[2], env, arena)
                                },
                                Result::Ok(Exp::Bool(false)) => {
                                    proof {
                                        items[3].lemma_wf_widen(n0, arena@.len() as int);
                                    }
                                    eval_fuel(f, &list[3], env, arena)
                                },
                                Result::Ok(_) => Result::Err(
                                    ScmErr::from("if: expected Exp::Bool"),
                                ),
                                Result::Err(er) => Result::Err(er),
                            }
                        }
                    } else if str_eq(name.as_str(), "cond") {
                        eval_cond(f, list, env, arena)
                    } else if str_eq(name.as_str(), "begin") {
                        proof {
                            assert(items.drop_first() =~= items.skip(1));
                        }
                        eval_seq(f, list, 1, env, arena)
                    } else {
                        handle_lambda(f, list, env, arena)
                    }
                },
                Exp::List(_) => handle_lambda(f, list, env, arena),
                _ => Result::Err(ScmErr::from("eval: head of the list is not a function")),
            }
        },
        _ => Result::Err(ScmErr::from("eval: unexpected Exp")),
    }
}

/// Tries the clauses of a `cond` form (everything after the keyword).
#[verifier::loop_isolation(false)]
#[verifier::rlimit(60)]
fn eval_cond(fuel: u64, list: &Vec<Exp>, env: usize, arena: &mut EnvArena) -> (r: Result<
    Exp,
    ScmErr,
>)
    requires
        st_wf(old(arena)@),
        env < old(arena)@.len(),
        list@.len() >= 1,
        all_wf(views_of(list@), old(arena)@.len() as int),
    ensures
        st_wf(final(arena)@),
        old(arena)@.len() <= final(arena)@.len(),
        res_view(r) == sem_cond(
            fuel as nat,
            views_of(list@).drop_first(),
            env as int,
            old(arena)@,
        ).r,
        final(arena)@ == sem_cond(
            fuel as nat,
            views_of(list@).drop_first(),
            env as int,
            old(arena)@,
        ).st,
        r matches Result::Ok(v) ==> v@.wf(final(arena)@.len() as int),
    decreases fuel, 1int,
{
    let ghost clauses = views_of(list@).drop_first();
    let ghost st0 = old(arena)@;
    let ghost n0 = old(arena)@.len() as int;
    let mut i: usize = 1;
    proof {
        assert(clauses.skip(0) =~= clauses);
    }
    while i < list.len()
        invariant
            1 <= i <= list@.len(),
            st_wf(arena@),
            n0 <= arena@.len(),
            all_wf(views_of(list@), arena@.len() as int),
            sem_cond(fuel as nat, clauses, env as int, st0) == sem_cond(
                fuel as nat,
                clauses.skip(i - 1),
                env as int,
                arena@,
            ),
        decreases list@.len() - i,
    {
        let ghost na = arena@.len() as int;
        proof {
            assert(clauses.skip(i - 1).first() == views_of(list@)[i as int]);
            assert(views_of(list@)[i as int] == list@[i as int]@);
            assert(views_of(list@)[i as int].wf(na));
        }
        match &list[i] {
            Exp::List(pair) => {
                let ghost pv = views_of(pair@);
                if pair.len() < 2 {
                    return Result::Err(ScmErr::from("cond: missing then clause"));
                }
                proof {
                    assert(pv[0] == pair@[0]@);
                    assert(pv[1] == pair@[1]@);
                    assert(pv[0].wf(na) && pv[1].wf(na));
                }
                let is_else = match &pair[0] {
                    Exp::Symbol(s2) => str_eq(s2.as_str(), "else"),
                    _ => false,
                };
                if is_else {
                    return eval_fuel(fuel, &pair[1], env, arena);
                }
                match eval_fuel(fuel, &pair[0], env, arena) {
                    Result::Ok(Exp::Bool(true)) => {
                        proof {
                            pv[1].lemma_wf_widen(na, arena@.len() as int);
                        }
                        return eval_fuel(fuel, &pair[1], env, arena);
                    },
                    Result::Ok(Exp::Bool(false)) => {
                        proof {
                            assert(clauses.skip(i - 1).drop_first() =~= clauses.skip(i as int));
                            crate::exp::lemma_all_wf_widen(
                                views_of(list@),
                                na,
                                arena@.len() as int,
                            );
                        }
                    },
                    Result::Ok(_) => {
                        return Result::Err(ScmErr::from("cond: expected Exp::Bool"));
                    },
                    Result::Err(er) => {
                        return Result::Err(er);
                    },
                }
            },
            _ => {
                return Result::Err(ScmErr::from("cond: expected pairs"));
            },
        }
        i = i + 1;
    }
    proof {
        assert(clauses.skip(i - 1) =~= Seq::<ExpV>::empty());
    }
    Result::Err(ScmErr::from("cond: missing else clause"))
}

/// Evaluates the expressions of `list` from index `from` on, in order,
/// returning the last value (`Empty` when there are none).
#[verifier::loop_isolation(false)]
#[verifier::rlimit(60)]
fn eval_seq(fuel: u64, list: &Vec<Exp>, from: usize, env: usize, arena: &mut EnvArena) -> (r:
    Result<Exp, ScmErr>)
    requires
        st_wf(old(arena)@),
        env < old(arena)@.len(),
        from <= list@.len(),
        all_wf(views_of(list@), old(arena)@.len() as int),
    ensures
        st_wf(final(arena)@),
        old(arena)@.len() <= final(arena)@.len(),
        res_view(r) == sem_seq(
            fuel as nat,
            views_of(list@).skip(from as int),
            env as int,
            old(arena)@,
            ExpV::Empty,
        ).r,
        final(arena)@ == sem_seq(
            fuel as nat,
            views_of(list@).skip(from as int),
            env as int,
            old(arena)@,
            ExpV::Empty,
        ).st,
        r matches Result::Ok(v) ==> v@.wf(final(arena)@.len() as int),
    decreases fuel, 1int,
{
    let ghost full = views_of(list@);
    let ghost st0 = old(arena)@;
    let ghost n0 = old(arena)@.len() as int;
    let mut last = Exp::Empty;
    let mut i: usize = from;
    while i < list.len()
        invariant
            from <= i <= list@.len(),
            st_wf(arena@),
            n0 <= arena@.len(),
            all_wf(full, arena@.len() as int),
            last@.wf(arena@.len() as int),
            sem_seq(fuel as nat, full.skip(from as int), env as int, st0, ExpV::Empty) == sem_seq(
                fuel as nat,
                full.skip(i as int),
                env as int,
                arena@,
                last@,
            ),
        decreases list@.len() - i,
    {
        let ghost na = arena@.len() as int;
        proof {
            assert(full.skip(i as int).first() == full[i as int]);
            assert(full[i as int] == list@[i as int]@);
            assert(full[i as int].wf(na));
        }
        match eval_fuel(fuel, &list[i], env, arena) {
            Result::Ok(v) => {
                proof {
                    assert(full.skip(i as int).drop_first() =~= full.skip(i as int + 1));
                    crate::exp::lemma_all_wf_widen(full, na, arena@.len() as int);
                }
                last = v;
            },
            Result::Err(er) => {
                return Result::Err(er);
            },
        }
        i = i + 1;
    }
    proof {
        assert(full.skip(i as int) =~= Seq::<ExpV>::empty());
    }
    Result::Ok(last)
}

/// An application form: evaluates the head to a callable, then every
/// argument left to right, and applies.
#[verifier::loop_isolation(false)]
#[verifier::rlimit(60)]
fn handle_lambda(fuel: u64, list: &Vec<Exp>, env: usize, arena: &mut EnvArena) -> (r: Result<
    Exp,
    ScmErr,
>)
    requires
        st_wf(old(arena)@),
        env < old(arena)@.len(),
        list@.len() >= 1,
        all_wf(views_of(list@), old(arena)@.len() as int),
    ensures
        st_wf(final(arena)@),
        old(arena)@.len() <= final(arena)@.len(),
        res_view(r) == sem_call(
            fuel as nat,
            views_of(list@)[0],
            views_of(list@).drop_first(),
            env as int,
            old(arena)@,
        ).r,
        final(arena)@ == sem_call(
            fuel as nat,
            views_of(list@)[0],
            views_of(list@).drop_first(),
            env as int,
            old(arena)@,
        ).st,
        r matches Result::Ok(v) ==> v@.wf(final(arena)@.len() as int),
    decreases fuel, 2int,
{
    let ghost items = views_of(list@);
    let ghost tailv = items.drop_first();
    let ghost n0 = old(arena)@.len() as int;
    proof {
        assert(items[0] == list@[0]@);
        assert(items[0].wf(n0));
    }
    let func = match eval_fuel(fuel, &list[0], env, arena) {
        Result::Ok(v) => v,
        Result::Err(er) => {
            return Result::Err(er);
        },
    };
    let ghost st1 = arena@;
    let mut vals: Vec<Exp> = Vec::new();
    let mut i: usize = 1;
    proof {
        assert(tailv.skip(0) =~= tailv);
        assert(views_of(vals@) =~= Seq::<ExpV>::empty());
        crate::exp::lemma_all_wf_widen(items, n0, arena@.len() as int);
    }
    while i < list.len()
        invariant
            1 <= i <= list@.len(),
            st_wf(arena@),
            n0 <= arena@.len(),
            all_wf(items, arena@.len() as int),
            func@.wf(arena@.len() as int),
            all_wf(views_of(vals@), arena@.len() as int),
            sem_eval_args(fuel as nat, tailv, env as int, st1, Seq::empty()) == sem_eval_args(
                fuel as nat,
                tailv.skip(i - 1),
                env as int,
                arena@,
                views_of(vals@),
            ),
        decreases list@.len() - i,
    {
        let ghost na = arena@.len() as int;
        proof {
            assert(tailv.skip(i - 1).first() == items[i as int]);
            assert(items[i as int] == list@[i as int]@);
            assert(items[i as int].wf(na));
        }
        match eval_fuel(fuel, &list[i], env, arena) {
            Result::Ok(v) => {
                let ghost vv = v@;
                proof {
                    assert(tailv.skip(i - 1).drop_first() =~= tailv.skip(i as int));
                    crate::exp::lemma_all_wf_widen(items, na, arena@.len() as int);
                    crate::exp::lemma_all_wf_widen(
                        views_of(vals@),
                        na,
                        arena@.len() as int,
                    );
                    func@.lemma_wf_widen(na, arena@.len() as int);
                }
                let ghost prevv = views_of(vals@);
                vals.push(v);
                proof {
                    assert(views_of(vals@).drop_last() =~= prevv);
                    assert(views_of(vals@).last() == vv);
                    assert(views_of(vals@) =~= prevv.push(vv));
                    assert(all_wf(views_of(vals@), arena@.len() as int));
                }
            },
            Result::Err(er) => {
                return Result::Err(er);
            },
        }
        i = i + 1;
    }
    proof {
        assert(tailv.skip(i - 1) =~= Seq::<ExpV>::empty());
    }
    apply(fuel, func, vals, arena)
}

/// Applies a callable to already-evaluated arguments: a built-in computes
/// directly; a closure gets a fresh scope binding each parameter to its
/// argument, parented to the captured scope, and its body expressions are
/// evaluated there in order.  Unlike the looser zip the reference model
/// hints at, a call with the wrong number of arguments is an explicit
/// error here.
#[verifier::loop_isolation(false)]
#[verifier::rlimit(60)]
fn apply(fuel: u64, func: Exp, args: Vec<Exp>, arena: &mut EnvArena) -> (r: Result<Exp, ScmErr>)
    requires
        st_wf(old(arena)@),
        func@.wf(old(arena)@.len() as int),
        all_wf(views_of(args@), old(arena)@.len() as int),
    ensures
        st_wf(final(arena)@),
        old(arena)@.len() <= final(arena)@.len(),
        res_view(r) == sem_apply(fuel as nat, func@, views_of(args@), old(arena)@).r,
        final(arena)@ == sem_apply(fuel as nat, func@, views_of(args@), old(arena)@).st,
        r matches Result::Ok(v) ==> v@.wf(final(arena)@.len() as int),
    decreases fuel, 0int,
{
    if fuel == 0 {
        return Result::Err(ScmErr::from("eval: depth limit exceeded"));
    }
    let f = fuel - 1;
    let ghost n0 = old(arena)@.len() as int;
    match func {
        Exp::Primitive(p) => {
            let r = apply_prim(p, &args);
            proof {
                if r is Ok {
                    crate::prelude::lemma_sem_prim_wf(p, views_of(args@), n0);
                }
            }
            r
        },
        Exp::Closure(clos) => {
            let body: &Exp = &clos.body;
            match body {
                Exp::List(b) => {
                    let ghost bv = views_of(b@);
                    proof {
                        assert((*body)@ == ExpV::List(bv));
                        assert(func@ matches ExpV::Closure { body: bb, env: ee } && ee
                            == clos.env as int && *bb == ExpV::List(bv));
                        assert(ExpV::List(bv).wf(n0));
                        assert(all_wf(bv, n0));
                    }
                    if b.len() == 0 {
                        return Result::Err(
                            ScmErr::from("closure unpacking error: expected a non-empty list"),
                        );
                    }
                    proof {
                        assert(bv[0] == b@[0]@);
                    }
                    match &b[0] {
                        Exp::List(vars) => {
                            let ghost vv = views_of(vars@);
                            let mut i: usize = 0;
                            proof {
                                assert(vv.skip(0) =~= vv);
                            }
                            while i < vars.len()
                                invariant
                                    i <= vars@.len(),
                                    params_ok(vv) == params_ok(vv.skip(i as int)),
                                decreases vars@.len() - i,
                            {
                                proof {
                                    assert(vv.skip(i as int).first() == vv[i as int]);
                                    assert(vv[i as int] == vars@[i as int]@);
                                }
                                match &vars[i] {
                                    Exp::Symbol(_) => {
                                        proof {
                                            assert(vv.skip(i as int).drop_first() =~= vv.skip(
                                                i as int + 1,
                                            ));
                                        }
                                    },
                                    _ => {
                                        return Result::Err(
                                            ScmErr::from(
                                                "closure unpacking error: expected a list of Symbol's",
                                            ),
                                        );
                                    },
                                }
                                i = i + 1;
                            }
                            proof {
                                assert(vv.skip(vars@.len() as int) =~= Seq::<ExpV>::empty());
                                assert(params_ok(vv));
                            }
                            if vars.len() != args.len() {
                                return Result::Err(ScmErr::from("apply: arity mismatch"));
                            }
                            let mut frame = Env::from_outer(Some(clos.env));
                            let mut j: usize = 0;
                            while j < vars.len()
                                invariant
                                    j <= vars@.len(),
                                    frame@.outer == Option::Some(clos.env as int),
                                    frame@.entries =~= zip_entries(
                                        param_names(vv),
                                        views_of(args@),
                                    ).take(j as int),
                                decreases vars@.len() - j,
                            {
                                proof {
                                    lemma_params_ok_index(vv, j as int);
                                    assert(vv[j as int] == vars@[j as int]@);
                                }
                                match &vars[j] {
                                    Exp::Symbol(nm) => {
                                        frame.data.push(
                                            Bind {
                                                name: clone_string(nm),
                                                val: args[j].deep_clone(),
                                            },
                                        );
                                        proof {
                                            assert(frame@.entries =~= zip_entries(
                                                param_names(vv),
                                                views_of(args@),
                                            ).take(j as int + 1));
                                        }
                                    },
                                    _ => {
                                        return Result::Err(
                                            ScmErr::from(
                                                "closure unpacking error: expected a list of Symbol's",
                                            ),
                                        );
                                    },
                                }
                                j = j + 1;
                            }
                            proof {
                                assert(frame@.entries =~= zip_entries(
                                    param_names(vv),
                                    views_of(args@),
                                ));
                                lemma_zip_entries_wf(
                                    param_names(vv),
                                    views_of(args@),
                                    n0,
                                );
                                crate::env::lemma_entries_wf_widen(
                                    frame@.entries,
                                    n0,
                                    n0 + 1,
                                );
                                crate::env::lemma_st_wf_push(old(arena)@, frame@);
                            }
                            let newenv = make_env_ptr(arena, frame);
                            if b.len() < 2 {
                                return Result::Err(
                                    ScmErr::from("closure unpacking error: missing definition"),
                                );
                            }
                            proof {
                                assert forall|k: int|
                                    0 <= k < bv.len() implies #[trigger] bv[k].wf(
                                    arena@.len() as int,
                                ) by {
                                    assert(bv[k].wf(n0));
                                    bv[k].lemma_wf_widen(n0, arena@.len() as int);
                                }
                                crate::exp::lemma_all_wf_intro(bv, arena@.len() as int);
                            }
                            eval_seq(f, b, 1, newenv, arena)
                        },
                        _ => Result::Err(
                            ScmErr::from("closure unpacking error: expected a non-empty list"),
                        ),
                    }
                },
                _ => Result::Err(ScmErr::from("closure unpacking error: expected a list")),
            }
        },
        _ => Result::Err(
            ScmErr::from("apply: a function can only be Exp::Primitive or Exp::Closure"),
        ),
    }
}

} // verus!
