//! The built-in functions and constants, and the root scope that holds
//! them.  Numbers are machine integers, so the arithmetic operators state
//! exactly when they overflow instead of wrapping.

use vstd::prelude::*;

use crate::env::Bind;
use crate::env::BindV;
use crate::env::Env;
use crate::err::res_view;
use crate::err::ScmErr;
use crate::exp::all_wf;
use crate::exp::lemma_all_wf_index;
use crate::exp::views_of;
use crate::exp::Exp;
use crate::exp::ExpV;
use crate::exp::Prim;

verus! {

broadcast use crate::exp::group_exp_axioms;

/// Sum of `acc` and the numbers in `args`, left to right; a non-number or
/// a partial sum outside the machine range is an error.
pub open spec fn sem_fold_add(args: Seq<ExpV>, acc: int) -> Result<int, Seq<char>>
    decreases args.len(),
{
    if args.len() == 0 {
        Result::Ok(acc)
    } else {
        match args.first() {
            ExpV::Number(x) => {
                let s = acc + x;
                if s < i64::MIN as int || s > i64::MAX as int {
                    Result::Err("add: Number overflow"@)
                } else {
                    sem_fold_add(args.drop_first(), s)
                }
            },
            _ => Result::Err("add: expected Exp::Number"@),
        }
    }
}

/// Product of `acc` and the numbers in `args`, left to right, with the
/// same error policy as the sum.
pub open spec fn sem_fold_mul(args: Seq<ExpV>, acc: int) -> Result<int, Seq<char>>
    decreases args.len(),
{
    if args.len() == 0 {
        Result::Ok(acc)
    } else {
        match args.first() {
            ExpV::Number(x) => {
                let s = acc * x;
                if s < i64::MIN as int || s > i64::MAX as int {
                    Result::Err("mul: Number overflow"@)
                } else {
                    sem_fold_mul(args.drop_first(), s)
                }
            },
            _ => Result::Err("mul: expected Exp::Number"@),
        }
    }
}

/// Quotient of `a` and `b` truncated towards zero (`b != 0`).
pub open spec fn div_trunc(a: int, b: int) -> int {
    let ma = if a < 0 {
        -a
    } else {
        a
    };
    let mb = if b < 0 {
        -b
    } else {
        b
    };
    let q = ma / mb;
    if (a < 0) != (b < 0) {
        -q
    } else {
        q
    }
}

/// Both arguments are numbers; used by the binary operators.
pub open spec fn two_numbers(args: Seq<ExpV>) -> bool {
    args.len() == 2 && args[0] is Number && args[1] is Number
}

/// What each built-in returns, for every argument list.
pub open spec fn sem_prim(p: Prim, args: Seq<ExpV>) -> Result<ExpV, Seq<char>> {
    match p {
        Prim::Add => match sem_fold_add(args, 0) {
            Result::Ok(n) => Result::Ok(ExpV::Number(n)),
            Result::Err(m) => Result::Err(m),
        },
        Prim::Mul => match sem_fold_mul(args, 1) {
            Result::Ok(n) => Result::Ok(ExpV::Number(n)),
            Result::Err(m) => Result::Err(m),
        },
        Prim::Sub => if two_numbers(args) {
            let d = args[0]->Number_0 - args[1]->Number_0;
            if d < i64::MIN as int || d > i64::MAX as int {
                Result::Err("sub: Number overflow"@)
            } else {
                Result::Ok(ExpV::Number(d))
            }
        } else {
            Result::Err("sub: expected Exp::Number"@)
        },
        Prim::Div => if two_numbers(args) {
            let a = args[0]->Number_0;
            let b = args[1]->Number_0;
            if b == 0 {
                Result::Err("div: division by zero"@)
            } else {
                let d = div_trunc(a, b);
                if d < i64::MIN as int || d > i64::MAX as int {
                    Result::Err("div: Number overflow"@)
                } else {
                    Result::Ok(ExpV::Number(d))
                }
            }
        } else {
            Result::Err("div: expected Exp::Number"@)
        },
        Prim::NumEq => if two_numbers(args) {
            Result::Ok(ExpV::Bool(args[0]->Number_0 == args[1]->Number_0))
        } else {
            Result::Err("eq: expected Exp::Number"@)
        },
        Prim::Lt => if two_numbers(args) {
            Result::Ok(ExpV::Bool(args[0]->Number_0 < args[1]->Number_0))
        } else {
            Result::Err("lt: expected Exp::Number"@)
        },
        Prim::Le => if two_numbers(args) {
            Result::Ok(ExpV::Bool(args[0]->Number_0 <= args[1]->Number_0))
        } else {
            Result::Err("le: expected Exp::Number"@)
        },
        Prim::Gt => if two_numbers(args) {
            Result::Ok(ExpV::Bool(args[0]->Number_0 > args[1]->Number_0))
        } else {
            Result::Err("gt: expected Exp::Number"@)
        },
        Prim::Ge => if two_numbers(args) {
            Result::Ok(ExpV::Bool(args[0]->Number_0 >= args[1]->Number_0))
        } else {
            Result::Err("ge: expected Exp::Number"@)
        },
        Prim::Car => if args.len() != 1 {
            Result::Err("car: nothing to car"@)
        } else {
            match args[0] {
                ExpV::List(l) => if l.len() >= 1 {
                    Result::Ok(l[0])
                } else {
                    Result::Err("car: expected a List of length 2"@)
                },
                _ => Result::Err("car: expected a List"@),
            }
        },
        Prim::Cdr => if args.len() != 1 {
            Result::Err("cdr: nothing to cdr"@)
        } else {
            match args[0] {
                ExpV::List(l) => if l.len() >= 2 {
                    Result::Ok(l[1])
                } else {
                    Result::Err("car: expected a List of length 2"@)
                },
                _ => Result::Err("cdr: expected a List"@),
            }
        },
        Prim::Cons => if args.len() == 2 {
            Result::Ok(ExpV::List(seq![args[0], args[1]]))
        } else {
            Result::Err("cons: expected two Exp to cons"@)
        },
        Prim::IsNull => if args.len() == 0 {
            Result::Err("null?: nothing to check"@)
        } else {
            match args[0] {
                ExpV::List(l) => Result::Ok(ExpV::Bool(l.len() == 0)),
                _ => Result::Err("null?: expected a List"@),
            }
        },
    }
}

/// A built-in handed sound values gives back a sound value.
pub proof fn lemma_sem_prim_wf(p: Prim, args: Seq<ExpV>, n: int)
    requires
        all_wf(args, n),
        sem_prim(p, args) is Ok,
    ensures
        sem_prim(p, args)->Ok_0.wf(n),
{
    broadcast use lemma_all_wf_index;

    match p {
        Prim::Car => {
            assert(args[0].wf(n));
        },
        Prim::Cdr => {
            assert(args[0].wf(n));
        },
        Prim::Cons => {
            assert(args[0].wf(n));
            assert(args[1].wf(n));
            let l = seq![args[0], args[1]];
            let l1 = l.drop_last();
            assert(l1 =~= seq![args[0]]);
            assert(l1.drop_last() =~= Seq::<ExpV>::empty());
            assert(all_wf(l1.drop_last(), n));
            assert(all_wf(l1, n));
            assert(all_wf(l, n));
        },
        _ => {},
    }
}

/// Variadic sum, reducing from 0.
#[verifier::loop_isolation(false)]
pub fn add(args: &Vec<Exp>) -> (r: Result<Exp, ScmErr>)
    ensures
        res_view(r) == sem_prim(Prim::Add, views_of(args@)),
{
    let ghost full = views_of(args@);
    let mut acc: i64 = 0;
    let mut i: usize = 0;
    proof {
        assert(full.skip(0) =~= full);
    }
    while i < args.len()
        invariant
            i <= args@.len(),
            sem_fold_add(full, 0) == sem_fold_add(full.skip(i as int), acc as int),
        decreases args@.len() - i,
    {
        proof {
            assert(full.skip(i as int).first() == args@[i as int]@);
        }
        match &args[i] {
            Exp::Number(x) => {
                let wide: i128 = acc as i128 + *x as i128;
                if wide < i64::MIN as i128 || wide > i64::MAX as i128 {
                    return Result::Err(ScmErr::from("add: Number overflow"));
                }
                proof {
                    assert(full.skip(i as int).drop_first() =~= full.skip(i as int + 1));
                }
                acc = wide as i64;
            },
            _ => {
                return Result::Err(ScmErr::from("add: expected Exp::Number"));
            },
        }
        i = i + 1;
    }
    proof {
        assert(full.skip(args@.len() as int) =~= Seq::<ExpV>::empty());
    }
    Result::Ok(Exp::Number(acc))
}

/// Variadic product, reducing from 1.
#[verifier::loop_isolation(false)]
pub fn mul(args: &Vec<Exp>) -> (r: Result<Exp, ScmErr>)
    ensures
        res_view(r) == sem_prim(Prim::Mul, views_of(args@)),
{
    let ghost full = views_of(args@);
    let mut acc: i64 = 1;
    let mut i: usize = 0;
    proof {
        assert(full.skip(0) =~= full);
    }
    while i < args.len()
        invariant
            i <= args@.len(),
            sem_fold_mul(full, 1) == sem_fold_mul(full.skip(i as int), acc as int),
        decreases args@.len() - i,
    {
        proof {
            assert(full.skip(i as int).first() == args@[i as int]@);
        }
        match &args[i] {
            Exp::Number(x) => {
                proof {
                    assert((acc as int) * ((*x) as int) < i128::MAX as int && (acc as int) * ((
                    *x) as int) > i128::MIN as int) by (nonlinear_arith)
                        requires
                            i64::MIN as int <= acc as int <= i64::MAX as int,
                            i64::MIN as int <= (*x) as int <= i64::MAX as int,
                    ;
                }
                let wide: i128 = acc as i128 * *x as i128;
                if wide < i64::MIN as i128 || wide > i64::MAX as i128 {
                    return Result::Err(ScmErr::from("mul: Number overflow"));
                }
                proof {
                    assert(full.skip(i as int).drop_first() =~= full.skip(i as int + 1));
                }
                acc = wide as i64;
            },
            _ => {
                return Result::Err(ScmErr::from("mul: expected Exp::Number"));
            },
        }
        i = i + 1;
    }
    proof {
        assert(full.skip(args@.len() as int) =~= Seq::<ExpV>::empty());
    }
    Result::Ok(Exp::Number(acc))
}

/// Binary difference.
pub fn sub(args: &Vec<Exp>) -> (r: Result<Exp, ScmErr>)
    ensures
        res_view(r) == sem_prim(Prim::Sub, views_of(args@)),
{
    if args.len() == 2 {
        match (&args[0], &args[1]) {
            (Exp::Number(a), Exp::Number(b)) => {
                let wide: i128 = *a as i128 - *b as i128;
                if wide < i64::MIN as i128 || wide > i64::MAX as i128 {
                    Result::Err(ScmErr::from("sub: Number overflow"))
                } else {
                    Result::Ok(Exp::Number(wide as i64))
                }
            },
            _ => Result::Err(ScmErr::from("sub: expected Exp::Number")),
        }
    } else {
        Result::Err(ScmErr::from("sub: expected Exp::Number"))
    }
}

/// Binary quotient, truncated towards zero.
pub fn div(args: &Vec<Exp>) -> (r: Result<Exp, ScmErr>)
    ensures
        res_view(r) == sem_prim(Prim::Div, views_of(args@)),
{
    if args.len() == 2 {
        match (&args[0], &args[1]) {
            (Exp::Number(a), Exp::Number(b)) => {
                if *b == 0 {
                    return Result::Err(ScmErr::from("div: division by zero"));
                }
                let neg = (*a < 0) != (*b < 0);
                let ua: u64 = if *a >= 0 {
                    *a as u64
                } else {
                    ((-(*a + 1)) as u64) + 1
                };
                let ub: u64 = if *b >= 0 {
                    *b as u64
                } else {
                    ((-(*b + 1)) as u64) + 1
                };
                let q: u64 = ua / ub;
                proof {
                    assert(ua / ub <= ua) by (nonlinear_arith)
                        requires ub >= 1,
                    ;
                }
                if neg {
                    if q == (i64::MAX as u64) + 1 {
                        Result::Ok(Exp::Number(i64::MIN))
                    } else {
                        Result::Ok(Exp::Number(-(q as i64)))
                    }
                } else {
                    if q > i64::MAX as u64 {
                        Result::Err(ScmErr::from("div: Number overflow"))
                    } else {
                        Result::Ok(Exp::Number(q as i64))
                    }
                }
            },
            _ => Result::Err(ScmErr::from("div: expected Exp::Number")),
        }
    } else {
        Result::Err(ScmErr::from("div: expected Exp::Number"))
    }
}

/// Binary numeric equality.
pub fn eq(args: &Vec<Exp>) -> (r: Result<Exp, ScmErr>)
    ensures
        res_view(r) == sem_prim(Prim::NumEq, views_of(args@)),
{
    if args.len() == 2 {
        match (&args[0], &args[1]) {
            (Exp::Number(a), Exp::Number(b)) => Result::Ok(Exp::Bool(*a == *b)),
            _ => Result::Err(ScmErr::from("eq: expected Exp::Number")),
        }
    } else {
        Result::Err(ScmErr::from("eq: expected Exp::Number"))
    }
}

/// Binary less-than.
pub fn lt(args: &Vec<Exp>) -> (r: Result<Exp, ScmErr>)
    ensures
        res_view(r) == sem_prim(Prim::Lt, views_of(args@)),
{
    if args.len() == 2 {
        match (&args[0], &args[1]) {
            (Exp::Number(a), Exp::Number(b)) => Result::Ok(Exp::Bool(*a < *b)),
            _ => Result::Err(ScmErr::from("lt: expected Exp::Number")),
        }
    } else {
        Result::Err(ScmErr::from("lt: expected Exp::Number"))
    }
}

/// Binary less-or-equal.
pub fn le(args: &Vec<Exp>) -> (r: Result<Exp, ScmErr>)
    ensures
        res_view(r) == sem_prim(Prim::Le, views_of(args@)),
{
    if args.len() == 2 {
        match (&args[0], &args[1]) {
            (Exp::Number(a), Exp::Number(b)) => Result::Ok(Exp::Bool(*a <= *b)),
            _ => Result::Err(ScmErr::from("le: expected Exp::Number")),
        }
    } else {
        Result::Err(ScmErr::from("le: expected Exp::Number"))
    }
}

/// Binary greater-than.
pub fn gt(args: &Vec<Exp>) -> (r: Result<Exp, ScmErr>)
    ensures
        res_view(r) == sem_prim(Prim::Gt, views_of(args@)),
{
    if args.len() == 2 {
        match (&args[0], &args[1]) {
            (Exp::Number(a), Exp::Number(b)) => Result::Ok(Exp::Bool(*a > *b)),
            _ => Result::Err(ScmErr::from("gt: expected Exp::Number")),
        }
    } else {
        Result::Err(ScmErr::from("gt: expected Exp::Number"))
    }
}

/// Binary greater-or-equal.
pub fn ge(args: &Vec<Exp>) -> (r: Result<Exp, ScmErr>)
    ensures
        res_view(r) == sem_prim(Prim::Ge, views_of(args@)),
{
    if args.len() == 2 {
        match (&args[0], &args[1]) {
            (Exp::Number(a), Exp::Number(b)) => Result::Ok(Exp::Bool(*a >= *b)),
            _ => Result::Err(ScmErr::from("ge: expected Exp::Number")),
        }
    } else {
        Result::Err(ScmErr::from("ge: expected Exp::Number"))
    }
}

/// First element of a list.
pub fn car(args: &Vec<Exp>) -> (r: Result<Exp, ScmErr>)
    ensures
        res_view(r) == sem_prim(Prim::Car, views_of(args@)),
{
    if args.len() != 1 {
        return Result::Err(ScmErr::from("car: nothing to car"));
    }
    proof {
        assert(views_of(args@)[0] == args@[0]@);
    }
    match &args[0] {
        Exp::List(l) => {
            proof {
                assert(args@[0] == Exp::List(*l));
                assert(views_of(l@).len() == l@.len());
            }
            if l.len() >= 1 {
                proof {
                    assert(views_of(l@)[0] == l@[0]@);
                }
                Result::Ok(l[0].deep_clone())
            } else {
                Result::Err(ScmErr::from("car: expected a List of length 2"))
            }
        },
        _ => Result::Err(ScmErr::from("car: expected a List")),
    }
}

/// Second element of a list (a positional second, matching the flat
/// two-slot pairs that `cons` builds).
pub fn cdr(args: &Vec<Exp>) -> (r: Result<Exp, ScmErr>)
    ensures
        res_view(r) == sem_prim(Prim::Cdr, views_of(args@)),
{
    if args.len() != 1 {
        return Result::Err(ScmErr::from("cdr: nothing to cdr"));
    }
    proof {
        assert(views_of(args@)[0] == args@[0]@);
    }
    match &args[0] {
        Exp::List(l) => {
            proof {
                assert(args@[0] == Exp::List(*l));
                assert(views_of(l@).len() == l@.len());
            }
            if l.len() >= 2 {
                proof {
                    assert(views_of(l@)[1] == l@[1]@);
                }
                Result::Ok(l[1].deep_clone())
            } else {
                Result::Err(ScmErr::from("car: expected a List of length 2"))
            }
        },
        _ => Result::Err(ScmErr::from("cdr: expected a List")),
    }
}

/// A flat two-slot pair of its two arguments.
pub fn cons(args: &Vec<Exp>) -> (r: Result<Exp, ScmErr>)
    ensures
        res_view(r) == sem_prim(Prim::Cons, views_of(args@)),
{
    if args.len() == 2 {
        let mut l: Vec<Exp> = Vec::new();
        l.push(args[0].deep_clone());
        l.push(args[1].deep_clone());
        let r = Exp::List(l);
        proof {
            assert(views_of(l@) =~= seq![args@[0]@, args@[1]@]);
        }
        Result::Ok(r)
    } else {
        Result::Err(ScmErr::from("cons: expected two Exp to cons"))
    }
}

/// Whether a list is empty.
pub fn is_null(args: &Vec<Exp>) -> (r: Result<Exp, ScmErr>)
    ensures
        res_view(r) == sem_prim(Prim::IsNull, views_of(args@)),
{
    if args.len() == 0 {
        return Result::Err(ScmErr::from("null?: nothing to check"));
    }
    proof {
        assert(views_of(args@)[0] == args@[0]@);
    }
    match &args[0] {
        Exp::List(l) => {
            proof {
                assert(args@[0] == Exp::List(*l));
                assert(args@[0]@ == ExpV::List(views_of(l@)));
                assert(views_of(l@).len() == l@.len());
            }
            Result::Ok(Exp::Bool(l.len() == 0))
        },
        _ => Result::Err(ScmErr::from("null?: expected a List")),
    }
}

/// Runs the built-in named by `p` on already-evaluated arguments.
pub fn apply_prim(p: Prim, args: &Vec<Exp>) -> (r: Result<Exp, ScmErr>)
    ensures
        res_view(r) == sem_prim(p, views_of(args@)),
{
    match p {
        Prim::Add => crate::prelude::add(args),
        Prim::Sub => crate::prelude::sub(args),
        Prim::Mul => crate::prelude::mul(args),
        Prim::Div => div(args),
        Prim::NumEq => eq(args),
        Prim::Lt => lt(args),
        Prim::Le => le(args),
        Prim::Gt => gt(args),
        Prim::Ge => ge(args),
        Prim::Car => car(args),
        Prim::Cdr => cdr(args),
        Prim::Cons => cons(args),
        Prim::IsNull => is_null(args),
    }
}

/// The bindings the root scope starts with.
pub open spec fn prelude_entries() -> Seq<BindV> {
    seq![
        BindV { name: "+"@, val: ExpV::Primitive(Prim::Add) },
        BindV { name: "-"@, val: ExpV::Primitive(Prim::Sub) },
        BindV { name: "*"@, val: ExpV::Primitive(Prim::Mul) },
        BindV { name: "/"@, val: ExpV::Primitive(Prim::Div) },
        BindV { name: "="@, val: ExpV::Primitive(Prim::NumEq) },
        BindV { name: "<"@, val: ExpV::Primitive(Prim::Lt) },
        BindV { name: "<="@, val: ExpV::Primitive(Prim::Le) },
        BindV { name: ">"@, val: ExpV::Primitive(Prim::Gt) },
        BindV { name: ">="@, val: ExpV::Primitive(Prim::Ge) },
        BindV { name: "car"@, val: ExpV::Primitive(Prim::Car) },
        BindV { name: "cdr"@, val: ExpV::Primitive(Prim::Cdr) },
        BindV { name: "cons"@, val: ExpV::Primitive(Prim::Cons) },
        BindV { name: "null?"@, val: ExpV::Primitive(Prim::IsNull) },
        BindV { name: "#t"@, val: ExpV::Bool(true) },
        BindV { name: "#f"@, val: ExpV::Bool(false) },
        BindV { name: "null"@, val: ExpV::List(Seq::empty()) },
    ]
}

/// The root scope: built-ins, the boolean literals and the empty list.
pub fn get_prelude() -> (e: Env)
    ensures
        e@.outer is None,
        e@.entries =~= prelude_entries(),
{
    let mut e = Env::from_outer(None);
    proof {
        assert(e@.entries == Seq::new(e.data@.len(), |i: int| e.data@[i]@));
    }
    e.data.push(Bind { name: "+".to_owned(), val: Exp::Primitive(Prim::Add) });
    e.data.push(Bind { name: "-".to_owned(), val: Exp::Primitive(Prim::Sub) });
    e.data.push(Bind { name: "*".to_owned(), val: Exp::Primitive(Prim::Mul) });
    e.data.push(Bind { name: "/".to_owned(), val: Exp::Primitive(Prim::Div) });
    e.data.push(Bind { name: "=".to_owned(), val: Exp::Primitive(Prim::NumEq) });
    e.data.push(Bind { name: "<".to_owned(), val: Exp::Primitive(Prim::Lt) });
    e.data.push(Bind { name: "<=".to_owned(), val: Exp::Primitive(Prim::Le) });
    e.data.push(Bind { name: ">".to_owned(), val: Exp::Primitive(Prim::Gt) });
    e.data.push(Bind { name: ">=".to_owned(), val: Exp::Primitive(Prim::Ge) });
    e.data.push(Bind { name: "car".to_owned(), val: Exp::Primitive(Prim::Car) });
    e.data.push(Bind { name: "cdr".to_owned(), val: Exp::Primitive(Prim::Cdr) });
    e.data.push(Bind { name: "cons".to_owned(), val: Exp::Primitive(Prim::Cons) });
    e.data.push(Bind { name: "null?".to_owned(), val: Exp::Primitive(Prim::IsNull) });
    e.data.push(Bind { name: "#t".to_owned(), val: Exp::Bool(true) });
    e.data.push(Bind { name: "#f".to_owned(), val: Exp::Bool(false) });
    e.data.push(Bind { name: "null".to_owned(), val: Exp::List(Vec::new()) });
    proof {
        assert(views_of(Seq::<Exp>::empty()) =~= Seq::<ExpV>::empty());
        assert(e@.entries =~= prelude_entries());
    }
    e
}

} // verus!
