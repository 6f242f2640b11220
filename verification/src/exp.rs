//! The expression type: the one tree that serves both as the abstract syntax
//! produced by the reader and as runtime list data ("code is data").

use vstd::prelude::*;

verus! {

/// Tag of a built-in function installed by the prelude.  Its behaviour lives
/// in the apply engine; the tag itself carries no state.
#[derive(Clone, Copy, PartialEq, Eq, Structural, Debug)]
pub enum Prim {
    Add,
    Sub,
    Mul,
    Div,
    NumEq,
    Lt,
    Le,
    Gt,
    Ge,
    Car,
    Cdr,
    Cons,
    IsNull,
}

/// A user-defined function: a body of the shape `(params expr...)` kept as a
/// plain expression, plus the arena index of the environment captured when
/// the `lambda` form was evaluated.
#[derive(Debug)]
pub struct ScmClosure {
    pub body: Box<Exp>,
    pub env: usize,
}

/// The Scheme expression type.
#[derive(Debug)]
pub enum Exp {
    /// A boolean (the prelude binds `#t` and `#f` to these).
    Bool(bool),
    /// A symbol: an identifier, or a yet-unresolved name.
    Symbol(String),
    /// A number.  Numbers are machine integers here.
    Number(i64),
    /// An ordered sequence, used both as an AST node and as list data.
    List(Vec<Exp>),
    /// A user-defined function.
    Closure(ScmClosure),
    /// A built-in function provided by the prelude.
    Primitive(Prim),
    /// The unit value returned by `define`, `set!` and the empty `begin`.
    Empty,
}

/// The mathematical model of an expression: symbols are character sequences,
/// numbers are unbounded integers, lists are sequences of models.
pub enum ExpV {
    Bool(bool),
    Symbol(Seq<char>),
    Number(int),
    List(Seq<ExpV>),
    Closure { body: Box<ExpV>, env: int },
    Primitive(Prim),
    Empty,
}

/// The model of one expression.
pub open spec fn exp_view(e: Exp) -> ExpV
    decreases e,
{
    match e {
        Exp::Bool(b) => ExpV::Bool(b),
        Exp::Symbol(s) => ExpV::Symbol(s@),
        Exp::Number(n) => ExpV::Number(n as int),
        Exp::List(v) => ExpV::List(views_of(v@)),
        Exp::Closure(c) => ExpV::Closure { body: Box::new(exp_view(*c.body)), env: c.env as int },
        Exp::Primitive(p) => ExpV::Primitive(p),
        Exp::Empty => ExpV::Empty,
    }
}

/// The models of the elements of a sequence of expressions.
pub open spec fn views_of(s: Seq<Exp>) -> Seq<ExpV>
    decreases s,
{
    if s.len() == 0 {
        Seq::empty()
    } else {
        views_of(s.drop_last()).push(exp_view(s.last()))
    }
}

impl View for Exp {
    type V = ExpV;

    open spec fn view(&self) -> ExpV {
        exp_view(*self)
    }
}

pub broadcast proof fn lemma_views_of_len(s: Seq<Exp>)
    ensures
        #[trigger] views_of(s).len() == s.len(),
    decreases s,
{
    if s.len() != 0 {
        lemma_views_of_len(s.drop_last());
    }
}

pub broadcast proof fn lemma_views_of_index(s: Seq<Exp>, i: int)
    requires
        0 <= i < s.len(),
    ensures
        #[trigger] views_of(s)[i] == s[i]@,
    decreases s,
{
    lemma_views_of_len(s);
    if i < s.len() - 1 {
        lemma_views_of_index(s.drop_last(), i);
    }
}

pub broadcast group group_exp_axioms {
    lemma_views_of_len,
    lemma_views_of_index,
}

impl ExpV {
    /// Every environment index mentioned by a closure inside this value lies
    /// below `n`, the length of the arena the value belongs to.
    pub open spec fn wf(self, n: int) -> bool
        decreases self,
    {
        match self {
            ExpV::List(items) => all_wf(items, n),
            ExpV::Closure { body, env } => 0 <= env < n && body.wf(n),
            _ => true,
        }
    }

    /// Well-formedness only ever asks that indices lie below some bound, so
    /// it survives growing the arena.
    pub proof fn lemma_wf_widen(self, n: int, m: int)
        requires
            self.wf(n),
            n <= m,
        ensures
            self.wf(m),
        decreases self,
    {
        match self {
            ExpV::List(items) => {
                lemma_all_wf_widen(items, n, m);
            },
            ExpV::Closure { body, env } => {
                body.lemma_wf_widen(n, m);
            },
            _ => {},
        }
    }
}

/// Every element of `items` is well formed against an arena of length `n`.
pub open spec fn all_wf(items: Seq<ExpV>, n: int) -> bool
    decreases items,
{
    items.len() == 0 || (all_wf(items.drop_last(), n) && items.last().wf(n))
}

pub proof fn lemma_all_wf_widen(items: Seq<ExpV>, n: int, m: int)
    requires
        all_wf(items, n),
        n <= m,
    ensures
        all_wf(items, m),
    decreases items,
{
    if items.len() != 0 {
        lemma_all_wf_widen(items.drop_last(), n, m);
        items.last().lemma_wf_widen(n, m);
    }
}

/// `all_wf` says exactly that each element is well formed.
pub broadcast proof fn lemma_all_wf_index(items: Seq<ExpV>, n: int, i: int)
    requires
        all_wf(items, n),
        0 <= i < items.len(),
    ensures
        #[trigger] items[i].wf(n),
    decreases items,
{
    if i < items.len() - 1 {
        lemma_all_wf_index(items.drop_last(), n, i);
    }
}

/// A sequence is well formed when each of its elements is.
pub proof fn lemma_all_wf_intro(items: Seq<ExpV>, n: int)
    requires
        forall|i: int| 0 <= i < items.len() ==> #[trigger] items[i].wf(n),
    ensures
        all_wf(items, n),
    decreases items,
{
    if items.len() != 0 {
        assert forall|i: int|
            0 <= i < items.drop_last().len() implies #[trigger] items.drop_last()[i].wf(n) by {
            assert(items.drop_last()[i] == items[i]);
            assert(items[i].wf(n));
        }
        lemma_all_wf_intro(items.drop_last(), n);
        assert(items[items.len() - 1].wf(n));
    }
}

impl Exp {
    /// A structural copy of the expression.  (The derived `Clone` would be
    /// opaque to the verifier, so the copy is spelled out.)
    #[verifier::loop_isolation(false)]
    pub fn deep_clone(&self) -> (r: Exp)
        ensures
            r@ == self@,
        decreases self,
    {
        broadcast use group_exp_axioms;

        match self {
            Exp::Bool(b) => Exp::Bool(*b),
            Exp::Symbol(s) => Exp::Symbol(clone_string(s)),
            Exp::Number(n) => Exp::Number(*n),
            Exp::List(v) => {
                let mut out: Vec<Exp> = Vec::new();
                let mut i: usize = 0;
                while i < v.len()
                    invariant
                        i <= v.len(),
                        out@.len() == i as int,
                        forall|j: int| 0 <= j < i as int ==> out@[j]@ == #[trigger] v@[j]@,
                    decreases v.len() - i,
                {
                    out.push(v[i].deep_clone());
                    i = i + 1;
                }
                let r = Exp::List(out);
                proof {
                    let s1 = views_of(out@);
                    let s2 = views_of(v@);
                    assert(s1 =~= s2);
                }
                r
            },
            Exp::Closure(c) => Exp::Closure(ScmClosure {
                body: Box::new(c.body.deep_clone()),
                env: c.env,
            }),
            Exp::Primitive(p) => Exp::Primitive(*p),
            Exp::Empty => Exp::Empty,
        }
    }
}

impl Exp {
    /// Decides well-formedness against an arena of `n` scopes at run
    /// time (expressions fresh from the reader mention no scopes at all,
    /// so for them this is always true).
    #[verifier::loop_isolation(false)]
    pub fn wf_check(&self, n: usize) -> (b: bool)
        ensures
            b == self@.wf(n as int),
        decreases self,
    {
        broadcast use group_exp_axioms, lemma_all_wf_index;

        match self {
            Exp::List(v) => {
                let mut i: usize = 0;
                while i < v.len()
                    invariant
                        i <= v@.len(),
                        forall|j: int|
                            0 <= j < i as int ==> #[trigger] views_of(v@)[j].wf(n as int),
                    decreases v@.len() - i,
                {
                    if !v[i].wf_check(n) {
                        proof {
                            assert(views_of(v@)[i as int] == v@[i as int]@);
                            assert(!all_wf(views_of(v@), n as int));
                        }
                        return false;
                    }
                    proof {
                        assert(views_of(v@)[i as int] == v@[i as int]@);
                    }
                    i = i + 1;
                }
                proof {
                    lemma_all_wf_intro(views_of(v@), n as int);
                }
                true
            },
            Exp::Closure(c) => c.env < n && c.body.wf_check(n),
            _ => true,
        }
    }
}

/// A clone of a `String` keeps its characters.
pub fn clone_string(s: &String) -> (r: String)
    ensures
        r@ == s@,
{
    s.clone()
}

} // verus!
