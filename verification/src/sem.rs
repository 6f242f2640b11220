//! The semantics of evaluation, as specification functions: a fuel-bounded
//! big-step interpreter over expression models and a store of scopes.  The
//! executable evaluator is proved to return exactly what these functions
//! say, store included.

use vstd::prelude::*;

use crate::env::sem_assign;
use crate::env::sem_define;
use crate::env::sem_lookup;
use crate::env::BindV;
use crate::env::FrameV;
use crate::exp::ExpV;
use crate::exp::Prim;
use crate::prelude::sem_prim;

verus! {

/// Outcome of evaluating one expression: a value or an error, plus the
/// store of scopes afterwards.
pub struct SemOut {
    pub r: Result<ExpV, Seq<char>>,
    pub st: Seq<FrameV>,
}

/// Outcome of evaluating a list of argument expressions left to right.
pub struct ArgsOut {
    pub r: Result<Seq<ExpV>, Seq<char>>,
    pub st: Seq<FrameV>,
}

/// The message given when the evaluation depth budget runs out.  The
/// budget stands in for the native call stack, whose exhaustion is the one
/// failure the reference model cannot report.
pub open spec fn depth_msg() -> Seq<char> {
    "eval: depth limit exceeded"@
}

/// Every parameter in a parameter list is a symbol.
pub open spec fn params_ok(vars: Seq<ExpV>) -> bool
    decreases vars.len(),
{
    vars.len() == 0 || (params_ok(vars.drop_first()) && vars.first() is Symbol)
}

/// The names of a parameter list of symbols.
pub open spec fn param_names(vars: Seq<ExpV>) -> Seq<Seq<char>> {
    Seq::new(vars.len(), |i: int| vars[i]->Symbol_0)
}

/// The bindings of a call frame: each parameter to its argument.
pub open spec fn zip_entries(names: Seq<Seq<char>>, args: Seq<ExpV>) -> Seq<BindV> {
    Seq::new(names.len(), |i: int| BindV { name: names[i], val: args[i] })
}

pub proof fn lemma_params_ok_index(vars: Seq<ExpV>, i: int)
    requires
        params_ok(vars),
        0 <= i < vars.len(),
    ensures
        vars[i] is Symbol,
    decreases vars.len(),
{
    if i > 0 {
        lemma_params_ok_index(vars.drop_first(), i - 1);
    }
}

/// A call frame built from sound argument values is itself sound.
pub proof fn lemma_zip_entries_wf(names: Seq<Seq<char>>, args: Seq<ExpV>, n: int)
    requires
        crate::exp::all_wf(args, n),
        names.len() == args.len(),
    ensures
        crate::env::entries_wf(zip_entries(names, args), n),
    decreases args.len(),
{
    if args.len() != 0 {
        let z = zip_entries(names, args);
        assert(z.drop_last() =~= zip_entries(names.drop_last(), args.drop_last()));
        lemma_zip_entries_wf(names.drop_last(), args.drop_last(), n);
        assert(z.last().val == args.last());
    }
}

/// Evaluates `e` in scope `env` against store `st`.
///
/// Numbers and booleans are their own value; a symbol resolves through the
/// scope chain; a non-empty sequence is a special form when its head is one
/// of the seven keywords and an application otherwise.  `fuel` bounds the
/// evaluation depth.
pub open spec fn sem_eval(fuel: nat, e: ExpV, env: int, st: Seq<FrameV>) -> SemOut
    decreases fuel, 0int,
{
    if fuel == 0 {
        SemOut { r: Result::Err(depth_msg()), st }
    } else {
        let f = (fuel - 1) as nat;
        match e {
            ExpV::Number(_) => SemOut { r: Result::Ok(e), st },
            ExpV::Bool(_) => SemOut { r: Result::Ok(e), st },
            ExpV::Symbol(name) => match sem_lookup(st, env, name) {
                Option::Some(v) => SemOut { r: Result::Ok(v), st },
                Option::None => SemOut {
                    r: Result::Err("eval: Symbol '"@ + name + " undefined"@),
                    st,
                },
            },
            ExpV::List(items) => {
                if items.len() == 0 {
                    SemOut { r: Result::Err("eval: expect a non-empty list"@), st }
                } else {
                    match items[0] {
                        ExpV::Symbol(name) => {
                            if name == "quote"@ {
                                if items.len() >= 2 {
                                    SemOut { r: Result::Ok(items[1]), st }
                                } else {
                                    SemOut { r: Result::Err("quote: nothing to quote"@), st }
                                }
                            } else if name == "lambda"@ {
                                let c = ExpV::Closure {
                                    body: Box::new(ExpV::List(items.drop_first())),
                                    env,
                                };
                                SemOut { r: Result::Ok(c), st }
                            } else if name == "define"@ {
                                if items.len() == 3 {
                                    match items[1] {
                                        ExpV::Symbol(key) => {
                                            let o = sem_eval(f, items[2], env, st);
                                            match o.r {
                                                Result::Ok(v) => SemOut {
                                                    r: Result::Ok(ExpV::Empty),
                                                    st: sem_define(o.st, env, key, v),
                                                },
                                                Result::Err(m) => SemOut {
                                                    r: Result::Err(m),
                                                    st: o.st,
                                                },
                                            }
                                        },
                                        _ => SemOut {
                                            r: Result::Err("define: expected Symbol"@),
                                            st,
                                        },
                                    }
                                } else {
                                    SemOut { r: Result::Err("define: nothing to define"@), st }
                                }
                            } else if name == "set!"@ {
                                if items.len() < 3 {
                                    SemOut { r: Result::Err("set!: nothing to set!"@), st }
                                } else {
                                    let o = sem_eval(f, items[2], env, st);
                                    match o.r {
                                        Result::Ok(v) => match items[1] {
                                            ExpV::Symbol(key) => match sem_assign(
                                                o.st,
                                                env,
                                                key,
                                                v,
                                            ) {
                                                Option::Some(st2) => SemOut {
                                                    r: Result::Ok(ExpV::Empty),
                                                    st: st2,
                                                },
                                                Option::None => SemOut {
                                                    r: Result::Err("set!: Symbol undefined"@),
                                                    st: o.st,
                                                },
                                            },
                                            _ => SemOut {
                                                r: Result::Err("set!: expected Symbol"@),
                                                st: o.st,
                                            },
                                        },
                                        Result::Err(m) => SemOut { r: Result::Err(m), st: o.st },
                                    }
                                }
                            } else if name == "if"@ {
                                if items.len() < 2 {
                                    SemOut { r: Result::Err("if: missing condition"@), st }
                                } else if items.len() < 3 {
                                    SemOut { r: Result::Err("if: missing then clause"@), st }
                                } else if items.len() < 4 {
                                    SemOut { r: Result::Err("if: missing else clause"@), st }
                                } else {
                                    let o = sem_eval(f, items[1], env, st);
                                    match o.r {
                                        Result::Ok(ExpV::Bool(true)) => sem_eval(
                                            f,
                                            items[2],
                                            env,
                                            o.st,
                                        ),
                                        Result::Ok(ExpV::Bool(false)) => sem_eval(
                                            f,
                                            items[3],
                                            env,
                                            o.st,
                                        ),
                                        Result::Ok(_) => SemOut {
                                            r: Result::Err("if: expected Exp::Bool"@),
                                            st: o.st,
                                        },
                                        Result::Err(m) => SemOut { r: Result::Err(m), st: o.st },
                                    }
                                }
                            } else if name == "cond"@ {
                                sem_cond(f, items.drop_first(), env, st)
                            } else if name == "begin"@ {
                                sem_seq(f, items.drop_first(), env, st, ExpV::Empty)
                            } else {
                                sem_call(f, items[0], items.drop_first(), env, st)
                            }
                        },
                        ExpV::List(_) => sem_call(f, items[0], items.drop_first(), env, st),
                        _ => SemOut {
                            r: Result::Err("eval: head of the list is not a function"@),
                            st,
                        },
                    }
                }
            },
            _ => SemOut { r: Result::Err("eval: unexpected Exp"@), st },
        }
    }
}

/// An application: evaluate the head to a callable, then every argument
/// left to right, then apply.
pub open spec fn sem_call(fuel: nat, head: ExpV, tail: Seq<ExpV>, env: int, st: Seq<FrameV>) -> SemOut
    decreases fuel, tail.len() + 2,
{
    let o = sem_eval(fuel, head, env, st);
    match o.r {
        Result::Ok(func) => {
            let a = sem_eval_args(fuel, tail, env, o.st, Seq::empty());
            match a.r {
                Result::Ok(vals) => sem_apply(fuel, func, vals, a.st),
                Result::Err(m) => SemOut { r: Result::Err(m), st: a.st },
            }
        },
        Result::Err(m) => SemOut { r: Result::Err(m), st: o.st },
    }
}

/// Evaluates argument expressions left to right, accumulating their
/// values; the first error aborts.
pub open spec fn sem_eval_args(
    fuel: nat,
    items: Seq<ExpV>,
    env: int,
    st: Seq<FrameV>,
    acc: Seq<ExpV>,
) -> ArgsOut
    decreases fuel, items.len() + 1,
{
    if items.len() == 0 {
        ArgsOut { r: Result::Ok(acc), st }
    } else {
        let o = sem_eval(fuel, items.first(), env, st);
        match o.r {
            Result::Ok(v) => sem_eval_args(fuel, items.drop_first(), env, o.st, acc.push(v)),
            Result::Err(m) => ArgsOut { r: Result::Err(m), st: o.st },
        }
    }
}

/// Evaluates expressions in order, returning the last value (`last` when
/// there are none); the first error aborts.  This is `begin`, and also a
/// closure body.
pub open spec fn sem_seq(fuel: nat, items: Seq<ExpV>, env: int, st: Seq<FrameV>, last: ExpV) -> SemOut
    decreases fuel, items.len() + 1,
{
    if items.len() == 0 {
        SemOut { r: Result::Ok(last), st }
    } else {
        let o = sem_eval(fuel, items.first(), env, st);
        match o.r {
            Result::Ok(v) => sem_seq(fuel, items.drop_first(), env, o.st, v),
            Result::Err(m) => SemOut { r: Result::Err(m), st: o.st },
        }
    }
}

/// Tries `cond` clauses in order: a clause whose test is the literal
/// symbol `else` is taken unconditionally; otherwise the test must give a
/// boolean, true taking the clause and false moving on.  Exhausting the
/// clauses is an error.
pub open spec fn sem_cond(fuel: nat, clauses: Seq<ExpV>, env: int, st: Seq<FrameV>) -> SemOut
    decreases fuel, clauses.len() + 1,
{
    if clauses.len() == 0 {
        SemOut { r: Result::Err("cond: missing else clause"@), st }
    } else {
        match clauses.first() {
            ExpV::List(pair) => {
                if pair.len() < 2 {
                    SemOut { r: Result::Err("cond: missing then clause"@), st }
                } else if pair[0] == ExpV::Symbol("else"@) {
                    sem_eval(fuel, pair[1], env, st)
                } else {
                    let o = sem_eval(fuel, pair[0], env, st);
                    match o.r {
                        Result::Ok(ExpV::Bool(true)) => sem_eval(fuel, pair[1], env, o.st),
                        Result::Ok(ExpV::Bool(false)) => sem_cond(
                            fuel,
                            clauses.drop_first(),
                            env,
                            o.st,
                        ),
                        Result::Ok(_) => SemOut {
                            r: Result::Err("cond: expected Exp::Bool"@),
                            st: o.st,
                        },
                        Result::Err(m) => SemOut { r: Result::Err(m), st: o.st },
                    }
                }
            },
            _ => SemOut { r: Result::Err("cond: expected pairs"@), st },
        }
    }
}

/// Applies a callable to already-evaluated arguments.
///
/// A built-in computes directly.  A closure's body must be a sequence
/// whose first element is the parameter list, all symbols; a fresh scope
/// binding each parameter to its argument is pushed, parented to the
/// closure's captured scope, and the body expressions are evaluated there
/// in order.  A call with the wrong number of arguments is an error (the
/// explicit arity check this model commits to).
pub open spec fn sem_apply(fuel: nat, func: ExpV, args: Seq<ExpV>, st: Seq<FrameV>) -> SemOut
    decreases fuel, 0int,
{
    if fuel == 0 {
        SemOut { r: Result::Err(depth_msg()), st }
    } else {
        let f = (fuel - 1) as nat;
        match func {
            ExpV::Primitive(p) => match sem_prim(p, args) {
                Result::Ok(v) => SemOut { r: Result::Ok(v), st },
                Result::Err(m) => SemOut { r: Result::Err(m), st },
            },
            ExpV::Closure { body, env } => match *body {
                ExpV::List(b) => {
                    if b.len() == 0 {
                        SemOut {
                            r: Result::Err("closure unpacking error: expected a non-empty list"@),
                            st,
                        }
                    } else {
                        match b[0] {
                            ExpV::List(vars) => {
                                if !params_ok(vars) {
                                    SemOut {
                                        r: Result::Err(
                                            "closure unpacking error: expected a list of Symbol's"@,
                                        ),
                                        st,
                                    }
                                } else if vars.len() != args.len() {
                                    SemOut { r: Result::Err("apply: arity mismatch"@), st }
                                } else {
                                    let frame = FrameV {
                                        entries: zip_entries(param_names(vars), args),
                                        outer: Option::Some(env),
                                    };
                                    let st2 = st.push(frame);
                                    if b.len() < 2 {
                                        SemOut {
                                            r: Result::Err(
                                                "closure unpacking error: missing definition"@,
                                            ),
                                            st: st2,
                                        }
                                    } else {
                                        sem_seq(
                                            f,
                                            b.drop_first(),
                                            st.len() as int,
                                            st2,
                                            ExpV::Empty,
                                        )
                                    }
                                }
                            },
                            _ => SemOut {
                                r: Result::Err(
                                    "closure unpacking error: expected a non-empty list"@,
                                ),
                                st,
                            },
                        }
                    }
                },
                _ => SemOut { r: Result::Err("closure unpacking error: expected a list"@), st },
            },
            _ => SemOut {
                r: Result::Err("apply: a function can only be Exp::Primitive or Exp::Closure"@),
                st,
            },
        }
    }
}

} // verus!
