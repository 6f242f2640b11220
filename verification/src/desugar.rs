//! The desugarer: a pure tree rewrite expanding the two convenience
//! forms into their canonical expansions, applied to every subtree.
//!
//! Rule one: `(define (f . params) body...)` becomes
//! `(define f (lambda params body...))`.  Rule two: a `lambda` with more
//! than one body expression has its body wrapped in a single `begin`.

use vstd::prelude::*;

use crate::err::res_view;
use crate::err::ScmErr;
use crate::exp::clone_string;
use crate::exp::views_of;
use crate::exp::Exp;
use crate::exp::ExpV;
use crate::text::str_eq;

verus! {

broadcast use crate::exp::group_exp_axioms;

/// A `lambda` form with the given (already rewritten) parameters and
/// body expressions; several body expressions are wrapped in a `begin`.
pub open spec fn mk_lambda(params: Seq<ExpV>, body: Seq<ExpV>) -> ExpV {
    if body.len() > 1 {
        ExpV::List(
            seq![
                ExpV::Symbol("lambda"@),
                ExpV::List(params),
                ExpV::List(seq![ExpV::Symbol("begin"@)] + body),
            ],
        )
    } else {
        ExpV::List(seq![ExpV::Symbol("lambda"@), ExpV::List(params), body[0]])
    }
}

/// The expansion of a `define`-with-parameters form.
pub open spec fn mk_define(fname: Seq<char>, params: Seq<ExpV>, body: Seq<ExpV>) -> ExpV {
    ExpV::List(seq![ExpV::Symbol("define"@), ExpV::Symbol(fname), mk_lambda(params, body)])
}

/// What desugaring one expression gives.
pub open spec fn sug(e: ExpV) -> Result<ExpV, Seq<char>>
    decreases e, 0int,
{
    match e {
        ExpV::List(l) => {
            if l.len() >= 1 && l[0] == ExpV::Symbol("define"@) {
                if l.len() < 3 {
                    if l.len() == 2 {
                        Result::Err("desugar: too few arguments (2/3)"@)
                    } else {
                        Result::Err("desugar: too few arguments (1/3)"@)
                    }
                } else {
                    match l[1] {
                        ExpV::List(f_args) => {
                            if f_args.len() < 1 {
                                Result::Err("desugar: too few arguments (0/1)"@)
                            } else {
                                match f_args[0] {
                                    ExpV::Symbol(fname) => {
                                        match sug_all(f_args.drop_first(), Seq::empty()) {
                                            Result::Ok(params) => {
                                                match sug_all(l.skip(2), Seq::empty()) {
                                                    Result::Ok(body) => Result::Ok(
                                                        mk_define(fname, params, body),
                                                    ),
                                                    Result::Err(m) => Result::Err(m),
                                                }
                                            },
                                            Result::Err(m) => Result::Err(m),
                                        }
                                    },
                                    _ => Result::Err("desugar: can only define a Symbol"@),
                                }
                            }
                        },
                        _ => match sug_all(l, Seq::empty()) {
                            Result::Ok(cs) => Result::Ok(ExpV::List(cs)),
                            Result::Err(m) => Result::Err(m),
                        },
                    }
                }
            } else if l.len() >= 1 && l[0] == ExpV::Symbol("lambda"@) && l.len() > 3 {
                match sug_all(l, Seq::empty()) {
                    Result::Ok(cs) => Result::Ok(
                        ExpV::List(
                            seq![
                                cs[0],
                                cs[1],
                                ExpV::List(seq![ExpV::Symbol("begin"@)] + cs.skip(2)),
                            ],
                        ),
                    ),
                    Result::Err(m) => Result::Err(m),
                }
            } else {
                match sug_all(l, Seq::empty()) {
                    Result::Ok(cs) => Result::Ok(ExpV::List(cs)),
                    Result::Err(m) => Result::Err(m),
                }
            }
        },
        _ => Result::Ok(e),
    }
}

/// Desugars the expressions of `s` in order, after `acc`; the first
/// error aborts.
pub open spec fn sug_all(s: Seq<ExpV>, acc: Seq<ExpV>) -> Result<Seq<ExpV>, Seq<char>>
    decreases s, 1int,
{
    if s.len() == 0 {
        Result::Ok(acc)
    } else {
        match sug(s.first()) {
            Result::Ok(v) => sug_all(s.drop_first(), acc.push(v)),
            Result::Err(m) => Result::Err(m),
        }
    }
}

pub proof fn lemma_sug_all_len(s: Seq<ExpV>, acc: Seq<ExpV>)
    requires
        sug_all(s, acc) is Ok,
    ensures
        sug_all(s, acc)->Ok_0.len() == acc.len() + s.len(),
    decreases s,
{
    if s.len() != 0 {
        match sug(s.first()) {
            Result::Ok(v) => {
                lemma_sug_all_len(s.drop_first(), acc.push(v));
            },
            Result::Err(_) => {},
        }
    }
}

/// A canonical form: every `define` already binds a symbol, and every
/// `lambda` already has a single body expression, at every depth.
pub open spec fn canon(e: ExpV) -> bool
    decreases e, 0int,
{
    match e {
        ExpV::List(l) => shape_ok(l) && canon_all(l),
        _ => true,
    }
}

/// The two shapes the rewrite rules fire on are absent.
pub open spec fn shape_ok(l: Seq<ExpV>) -> bool {
    &&& (l.len() >= 1 && l[0] == ExpV::Symbol("define"@) ==> l.len() >= 3 && !(l[1] is List))
    &&& (l.len() >= 1 && l[0] == ExpV::Symbol("lambda"@) ==> l.len() <= 3)
}

pub open spec fn canon_all(s: Seq<ExpV>) -> bool
    decreases s, 1int,
{
    s.len() == 0 || (canon(s.first()) && canon_all(s.drop_first()))
}

/// Desugaring an already-canonical form — a single-body lambda, an
/// already-expanded define — is a no-op: it returns the tree unchanged.
pub proof fn lemma_desugar_idempotent(e: ExpV)
    requires
        canon(e),
    ensures
        sug(e) == Result::<ExpV, Seq<char>>::Ok(e),
    decreases e, 0int,
{
    match e {
        ExpV::List(l) => {
            lemma_sug_all_id(l, Seq::empty());
            assert(Seq::<ExpV>::empty() + l =~= l);
        },
        _ => {},
    }
}

pub proof fn lemma_sug_all_id(s: Seq<ExpV>, acc: Seq<ExpV>)
    requires
        canon_all(s),
    ensures
        sug_all(s, acc) == Result::<Seq<ExpV>, Seq<char>>::Ok(acc + s),
    decreases s, 1int,
{
    if s.len() == 0 {
        assert(acc + s =~= acc);
    } else {
        lemma_desugar_idempotent(s.first());
        lemma_sug_all_id(s.drop_first(), acc.push(s.first()));
        assert(acc.push(s.first()) + s.drop_first() =~= acc + s);
    }
}

/// Rewrites the two sugar forms everywhere in the tree.
pub fn desugar(exp: Exp) -> (r: Result<Exp, ScmErr>)
    ensures
        res_view(r) == sug(exp@),
{
    desugar_ref(&exp)
}

/// Desugars through a reference; the recursive worker behind `desugar`.
fn desugar_ref(e: &Exp) -> (r: Result<Exp, ScmErr>)
    ensures
        res_view(r) == sug(e@),
    decreases e, 0int,
{
    match e {
        Exp::List(l) => {
            let ghost items = views_of(l@);
            proof {
                if l@.len() >= 1 {
                    assert(items[0] == l@[0]@);
                }
            }
            let mut is_def = false;
            let mut is_lam = false;
            if l.len() >= 1 {
                match &l[0] {
                    Exp::Symbol(h) => {
                        is_def = str_eq(h.as_str(), "define");
                        is_lam = str_eq(h.as_str(), "lambda");
                    },
                    _ => {},
                }
            }
            proof {
                assert(is_def == (items.len() >= 1 && items[0] == ExpV::Symbol("define"@)));
                assert(is_lam == (items.len() >= 1 && items[0] == ExpV::Symbol("lambda"@)));
            }
            if is_def {
                if l.len() < 3 {
                    if l.len() == 2 {
                        return Result::Err(ScmErr::from("desugar: too few arguments (2/3)"));
                    } else {
                        return Result::Err(ScmErr::from("desugar: too few arguments (1/3)"));
                    }
                }
                proof {
                    assert(items[1] == l@[1]@);
                }
                match &l[1] {
                    Exp::List(f_args) => {
                        proof {
                            assert(items[1] == ExpV::List(views_of(f_args@)));
                            assert(views_of(f_args@).len() == f_args@.len());
                        }
                        if f_args.len() < 1 {
                            return Result::Err(ScmErr::from("desugar: too few arguments (0/1)"));
                        }
                        proof {
                            assert(views_of(f_args@)[0] == f_args@[0]@);
                        }
                        match &f_args[0] {
                            Exp::Symbol(fname) => {
                                proof {
                                    assert(decreases_to!(*e => *l));
                                    assert(decreases_to!(*l => l@));
                                    assert(decreases_to!(l@ => l@[1]));
                                    assert(decreases_to!(l@[1] => *f_args));
                                    assert(decreases_to!(*f_args => f_args@));
                                }
                                let params = match desugar_all(f_args, 1) {
                                    Result::Ok(p) => p,
                                    Result::Err(m) => {
                                        proof {
                                            assert(views_of(f_args@).skip(1)
                                                =~= items[1]->List_0.drop_first());
                                        }
                                        return Result::Err(m);
                                    },
                                };
                                proof {
                                    assert(views_of(f_args@).skip(1)
                                        =~= items[1]->List_0.drop_first());
                                }
                                let body = match desugar_all(l, 2) {
                                    Result::Ok(b) => b,
                                    Result::Err(m) => {
                                        proof {
                                            assert(views_of(l@).skip(2) =~= items.skip(2));
                                        }
                                        return Result::Err(m);
                                    },
                                };
                                proof {
                                    assert(views_of(l@).skip(2) =~= items.skip(2));
                                    lemma_sug_all_len(items.skip(2), Seq::empty());
                                }
                                let lam = mk_lambda_exec(params, body);
                                let mut dv: Vec<Exp> = Vec::new();
                                dv.push(Exp::Symbol("define".to_owned()));
                                dv.push(Exp::Symbol(clone_string(fname)));
                                dv.push(lam);
                                let r = Exp::List(dv);
                                proof {
                                    assert(views_of(dv@) =~= seq![
                                        ExpV::Symbol("define"@),
                                        ExpV::Symbol(fname@),
                                        dv@[2]@,
                                    ]);
                                }
                                Result::Ok(r)
                            },
                            _ => Result::Err(ScmErr::from("desugar: can only define a Symbol")),
                        }
                    },
                    _ => {
                        let cs = match desugar_all(l, 0) {
                            Result::Ok(c) => c,
                            Result::Err(m) => {
                                proof {
                                    assert(views_of(l@).skip(0) =~= items);
                                }
                                return Result::Err(m);
                            },
                        };
                        proof {
                            assert(views_of(l@).skip(0) =~= items);
                        }
                        Result::Ok(Exp::List(cs))
                    },
                }
            } else if is_lam && l.len() > 3 {
                let cs = match desugar_all(l, 0) {
                    Result::Ok(c) => c,
                    Result::Err(m) => {
                        proof {
                            assert(views_of(l@).skip(0) =~= items);
                        }
                        return Result::Err(m);
                    },
                };
                proof {
                    assert(views_of(l@).skip(0) =~= items);
                    lemma_sug_all_len(items, Seq::empty());
                }
                let ghost csv = views_of(cs@);
                let mut rest = cs;
                let c0 = rest.remove(0);
                let c1 = rest.remove(0);
                proof {
                    assert(c0@ == csv[0]);
                    assert(c1@ == csv[1]);
                    assert(views_of(rest@) =~= csv.skip(2));
                }
                let mut bg: Vec<Exp> = Vec::new();
                bg.push(Exp::Symbol("begin".to_owned()));
                bg.append(&mut rest);
                proof {
                    assert(views_of(bg@) =~= seq![ExpV::Symbol("begin"@)] + csv.skip(2));
                }
                let mut lv: Vec<Exp> = Vec::new();
                lv.push(c0);
                lv.push(c1);
                lv.push(Exp::List(bg));
                let r = Exp::List(lv);
                proof {
                    assert(views_of(lv@) =~= seq![
                        csv[0],
                        csv[1],
                        ExpV::List(seq![ExpV::Symbol("begin"@)] + csv.skip(2)),
                    ]);
                }
                Result::Ok(r)
            } else {
                let cs = match desugar_all(l, 0) {
                    Result::Ok(c) => c,
                    Result::Err(m) => {
                        proof {
                            assert(views_of(l@).skip(0) =~= items);
                        }
                        return Result::Err(m);
                    },
                };
                proof {
                    assert(views_of(l@).skip(0) =~= items);
                }
                Result::Ok(Exp::List(cs))
            }
        },
        _ => Result::Ok(e.deep_clone()),
    }
}

/// Desugars the elements of `l` from index `from` on, in order.
#[verifier::loop_isolation(false)]
fn desugar_all(l: &Vec<Exp>, from: usize) -> (r: Result<Vec<Exp>, ScmErr>)
    requires
        from <= l@.len(),
    ensures
        (match sug_all(views_of(l@).skip(from as int), Seq::empty()) {
            Result::Ok(vs) => r matches Result::Ok(out) && views_of(out@) == vs,
            Result::Err(m) => r matches Result::Err(er) && er@ == m,
        }),
    decreases l@, 1int,
{
    let ghost full = views_of(l@);
    let ghost tail = full.skip(from as int);
    let mut out: Vec<Exp> = Vec::new();
    let mut i: usize = from;
    proof {
        assert(tail.skip(0) =~= tail);
        assert(views_of(out@) =~= Seq::<ExpV>::empty());
    }
    while i < l.len()
        invariant
            from <= i <= l@.len(),
            sug_all(tail, Seq::empty()) == sug_all(tail.skip(i - from), views_of(out@)),
        decreases l@.len() - i,
    {
        proof {
            assert(tail.skip(i - from).first() == full[i as int]);
            assert(full[i as int] == l@[i as int]@);
        }
        match desugar_ref(&l[i]) {
            Result::Ok(v) => {
                let ghost vv = v@;
                let ghost prev = views_of(out@);
                out.push(v);
                proof {
                    assert(out@.drop_last() =~= out@.take(out@.len() - 1));
                    assert(views_of(out@) =~= prev.push(vv));
                    assert(tail.skip(i - from).drop_first() =~= tail.skip(i - from + 1));
                }
            },
            Result::Err(er) => {
                return Result::Err(er);
            },
        }
        i = i + 1;
    }
    proof {
        assert(tail.skip(i - from) =~= Seq::<ExpV>::empty());
    }
    Result::Ok(out)
}

/// Builds a `lambda` form from rewritten parameters and body
/// expressions, wrapping several body expressions in a `begin`.
fn mk_lambda_exec(params: Vec<Exp>, body: Vec<Exp>) -> (r: Exp)
    requires
        body@.len() >= 1,
    ensures
        r@ == mk_lambda(views_of(params@), views_of(body@)),
{
    let ghost pv = views_of(params@);
    let ghost bv = views_of(body@);
    if body.len() > 1 {
        let mut bg: Vec<Exp> = Vec::new();
        bg.push(Exp::Symbol("begin".to_owned()));
        let mut b = body;
        bg.append(&mut b);
        proof {
            assert(views_of(bg@) =~= seq![ExpV::Symbol("begin"@)] + bv);
        }
        let mut lv: Vec<Exp> = Vec::new();
        lv.push(Exp::Symbol("lambda".to_owned()));
        lv.push(Exp::List(params));
        lv.push(Exp::List(bg));
        let r = Exp::List(lv);
        proof {
            assert(views_of(lv@) =~= seq![
                ExpV::Symbol("lambda"@),
                ExpV::List(pv),
                ExpV::List(seq![ExpV::Symbol("begin"@)] + bv),
            ]);
        }
        r
    } else {
        let mut b = body;
        let b0 = b.remove(0);
        proof {
            assert(b0@ == bv[0]);
        }
        let mut lv: Vec<Exp> = Vec::new();
        lv.push(Exp::Symbol("lambda".to_owned()));
        lv.push(Exp::List(params));
        lv.push(b0);
        let r = Exp::List(lv);
        proof {
            assert(views_of(lv@) =~= seq![ExpV::Symbol("lambda"@), ExpV::List(pv), bv[0]]);
        }
        r
    }
}

} // verus!
