//! The environment model: a chain of mutable symbol-to-value scopes with
//! lexical nesting.  Scopes live in an arena and refer to their enclosing
//! scope by index, which gives shared, mutable scope chains without
//! reference counting: every index stays valid because the arena only grows.

use vstd::prelude::*;

use crate::exp::all_wf;
use crate::exp::Exp;
use crate::exp::ExpV;

verus! {

/// One binding of a name to a value.
pub struct Bind {
    pub name: String,
    pub val: Exp,
}

/// The model of a binding.
pub struct BindV {
    pub name: Seq<char>,
    pub val: ExpV,
}

impl View for Bind {
    type V = BindV;

    open spec fn view(&self) -> BindV {
        BindV { name: self.name@, val: self.val@ }
    }
}

/// One scope: its local bindings, and the arena index of the enclosing
/// scope, if any.  The outer link is fixed at construction and always
/// points to an older (smaller-indexed) scope.
pub struct Env {
    pub data: Vec<Bind>,
    pub outer: Option<usize>,
}

/// The model of a scope.  Later entries shadow earlier ones, so inserting
/// a binding is just appending it.
pub struct FrameV {
    pub entries: Seq<BindV>,
    pub outer: Option<int>,
}

impl View for Env {
    type V = FrameV;

    open spec fn view(&self) -> FrameV {
        FrameV {
            entries: Seq::new(self.data@.len(), |i: int| self.data@[i]@),
            outer: match self.outer {
                Option::Some(o) => Option::Some(o as int),
                Option::None => Option::None,
            },
        }
    }
}

impl Env {
    /// A fresh, empty scope below the given enclosing scope.
    pub fn from_outer(outer: Option<usize>) -> (e: Env)
        ensures
            e@.entries =~= Seq::<BindV>::empty(),
            e@.outer == (match outer {
                Option::Some(o) => Option::Some(o as int),
                Option::None => Option::<int>::None,
            }),
    {
        Env { data: Vec::new(), outer }
    }
}

/// The arena holding every scope created so far, addressed by index.
pub struct EnvArena {
    pub frames: Vec<Env>,
}

impl View for EnvArena {
    type V = Seq<FrameV>;

    open spec fn view(&self) -> Seq<FrameV> {
        Seq::new(self.frames@.len(), |i: int| self.frames@[i]@)
    }
}

/// The value bound to `name` among `entries`, the latest binding winning.
pub open spec fn entries_lookup(entries: Seq<BindV>, name: Seq<char>) -> Option<ExpV>
    decreases entries,
{
    if entries.len() == 0 {
        Option::None
    } else if entries.last().name == name {
        Option::Some(entries.last().val)
    } else {
        entries_lookup(entries.drop_last(), name)
    }
}

/// The value of `name` seen from scope `env`: the innermost scope on the
/// outer chain that binds `name` decides, and an exhausted chain gives none.
pub open spec fn sem_lookup(st: Seq<FrameV>, env: int, name: Seq<char>) -> Option<ExpV>
    decreases env,
{
    if !(0 <= env < st.len()) {
        Option::None
    } else {
        match entries_lookup(st[env].entries, name) {
            Option::Some(v) => Option::Some(v),
            Option::None => match st[env].outer {
                Option::Some(o) => if 0 <= o < env {
                    sem_lookup(st, o, name)
                } else {
                    Option::None
                },
                Option::None => Option::None,
            },
        }
    }
}

/// Binding `name` in scope `env`: the local scope gains the binding and no
/// other scope changes.
pub open spec fn sem_define(st: Seq<FrameV>, env: int, name: Seq<char>, val: ExpV) -> Seq<FrameV> {
    st.update(
        env,
        FrameV { entries: st[env].entries.push(BindV { name, val }), outer: st[env].outer },
    )
}

/// Assigning to `name` from scope `env`: the innermost scope on the chain
/// that already binds `name` is rebound in place; if no scope on the chain
/// binds it there is no result.
pub open spec fn sem_assign(st: Seq<FrameV>, env: int, name: Seq<char>, val: ExpV) -> Option<
    Seq<FrameV>,
>
    decreases env,
{
    if !(0 <= env < st.len()) {
        Option::None
    } else if entries_lookup(st[env].entries, name) is Some {
        Option::Some(sem_define(st, env, name, val))
    } else {
        match st[env].outer {
            Option::Some(o) => if 0 <= o < env {
                sem_assign(st, o, name, val)
            } else {
                Option::None
            },
            Option::None => Option::None,
        }
    }
}

/// Scope `f` at index `i` is sound against an arena of length `n`: its
/// outer link points strictly downwards and its values mention only valid
/// scope indices.
pub open spec fn frame_wf(f: FrameV, i: int, n: int) -> bool {
    &&& match f.outer {
        Option::Some(o) => 0 <= o < i,
        Option::None => true,
    }
    &&& entries_wf(f.entries, n)
}

/// Every value among `entries` is well formed against an arena of length `n`.
pub open spec fn entries_wf(entries: Seq<BindV>, n: int) -> bool
    decreases entries,
{
    entries.len() == 0 || (entries_wf(entries.drop_last(), n) && entries.last().val.wf(n))
}

/// The whole arena is sound: every scope is.
pub open spec fn st_wf(st: Seq<FrameV>) -> bool {
    forall|i: int| 0 <= i < st.len() ==> #[trigger] frame_wf(st[i], i, st.len() as int)
}

pub proof fn lemma_entries_wf_widen(entries: Seq<BindV>, n: int, m: int)
    requires
        entries_wf(entries, n),
        n <= m,
    ensures
        entries_wf(entries, m),
    decreases entries,
{
    if entries.len() != 0 {
        lemma_entries_wf_widen(entries.drop_last(), n, m);
        entries.last().val.lemma_wf_widen(n, m);
    }
}

pub proof fn lemma_entries_lookup_wf(entries: Seq<BindV>, name: Seq<char>, n: int)
    requires
        entries_wf(entries, n),
        entries_lookup(entries, name) is Some,
    ensures
        entries_lookup(entries, name)->Some_0.wf(n),
    decreases entries,
{
    if entries.len() != 0 && entries.last().name != name {
        lemma_entries_lookup_wf(entries.drop_last(), name, n);
    }
}

/// A scope's entries are sound when each bound value is.
pub proof fn lemma_entries_wf_intro(entries: Seq<BindV>, n: int)
    requires
        forall|j: int| 0 <= j < entries.len() ==> #[trigger] entries[j].val.wf(n),
    ensures
        entries_wf(entries, n),
    decreases entries,
{
    if entries.len() != 0 {
        assert forall|j: int|
            0 <= j < entries.drop_last().len() implies #[trigger] entries.drop_last()[j].val.wf(
            n,
        ) by {
            assert(entries.drop_last()[j] == entries[j]);
            assert(entries[j].val.wf(n));
        }
        lemma_entries_wf_intro(entries.drop_last(), n);
        assert(entries[entries.len() - 1].val.wf(n));
    }
}

/// A value found by lookup in a sound arena is itself sound.
pub proof fn lemma_sem_lookup_wf(st: Seq<FrameV>, env: int, name: Seq<char>)
    requires
        st_wf(st),
        sem_lookup(st, env, name) is Some,
    ensures
        sem_lookup(st, env, name)->Some_0.wf(st.len() as int),
    decreases env,
{
    if 0 <= env < st.len() {
        if entries_lookup(st[env].entries, name) is Some {
            assert(frame_wf(st[env], env, st.len() as int));
            lemma_entries_lookup_wf(st[env].entries, name, st.len() as int);
        } else {
            match st[env].outer {
                Option::Some(o) => {
                    if 0 <= o < env {
                        lemma_sem_lookup_wf(st, o, name);
                    }
                },
                Option::None => {},
            }
        }
    }
}

/// Appending a sound scope keeps the arena sound.
pub proof fn lemma_st_wf_push(st: Seq<FrameV>, f: FrameV)
    requires
        st_wf(st),
        frame_wf(f, st.len() as int, (st.len() + 1) as int),
    ensures
        st_wf(st.push(f)),
{
    let st2 = st.push(f);
    assert forall|i: int| 0 <= i < st2.len() implies #[trigger] frame_wf(st2[i], i, st2.len() as int) by {
        if i < st.len() {
            assert(frame_wf(st[i], i, st.len() as int));
            lemma_entries_wf_widen(st[i].entries, st.len() as int, st2.len() as int);
            assert(st2[i] == st[i]);
        } else {
            assert(st2[i] == f);
        }
    }
}

/// Rebinding a name in one scope keeps the arena sound.
pub proof fn lemma_st_wf_define(st: Seq<FrameV>, env: int, name: Seq<char>, val: ExpV)
    requires
        st_wf(st),
        0 <= env < st.len(),
        val.wf(st.len() as int),
    ensures
        st_wf(sem_define(st, env, name, val)),
{
    let st2 = sem_define(st, env, name, val);
    assert forall|i: int| 0 <= i < st2.len() implies #[trigger] frame_wf(st2[i], i, st2.len() as int) by {
        assert(frame_wf(st[i], i, st.len() as int));
        if i == env {
            let e2 = st2[i].entries;
            assert(e2.drop_last() =~= st[i].entries);
            assert(e2.last().val == val);
        } else {
            assert(st2[i] == st[i]);
        }
    }
}

/// Assignment, when it succeeds, keeps the arena sound and its length.
pub proof fn lemma_st_wf_assign(st: Seq<FrameV>, env: int, name: Seq<char>, val: ExpV)
    requires
        st_wf(st),
        val.wf(st.len() as int),
        sem_assign(st, env, name, val) is Some,
    ensures
        st_wf(sem_assign(st, env, name, val)->Some_0),
        sem_assign(st, env, name, val)->Some_0.len() == st.len(),
    decreases env,
{
    if 0 <= env < st.len() {
        if entries_lookup(st[env].entries, name) is Some {
            lemma_st_wf_define(st, env, name, val);
        } else {
            match st[env].outer {
                Option::Some(o) => {
                    if 0 <= o < env {
                        lemma_st_wf_assign(st, o, name, val);
                    }
                },
                Option::None => {},
            }
        }
    }
}

/// The view of an `Option<Exp>` result.
pub open spec fn opt_view(r: Option<Exp>) -> Option<ExpV> {
    match r {
        Option::Some(e) => Option::Some(e@),
        Option::None => Option::None,
    }
}

/// Places a scope into the arena and hands back its address.
pub fn make_env_ptr(arena: &mut EnvArena, env: Env) -> (i: usize)
    ensures
        final(arena)@ =~= old(arena)@.push(env@),
        i as int == old(arena)@.len(),
{
    let i = arena.frames.len();
    arena.frames.push(env);
    proof {
        assert(final(arena)@ =~= old(arena)@.push(env@));
    }
    i
}

impl EnvArena {
    /// An arena with no scopes yet.
    pub fn new() -> (a: EnvArena)
        ensures
            a@ =~= Seq::<FrameV>::empty(),
    {
        EnvArena { frames: Vec::new() }
    }

    pub fn len(&self) -> (n: usize)
        ensures
            n as int == self@.len(),
    {
        self.frames.len()
    }

    /// Finds the definition of a symbol, walking the outer chain from
    /// scope `env`; the innermost binding wins.
    #[verifier::loop_isolation(false)]
    pub fn lookup(&self, env: usize, name: &String) -> (r: Option<Exp>)
        requires
            st_wf(self@),
            env < self@.len(),
        ensures
            opt_view(r) == sem_lookup(self@, env as int, name@),
            r is Some ==> r->0@.wf(self@.len() as int),
        decreases env,
    {
        proof {
            assert(frame_wf(self@[env as int], env as int, self@.len() as int));
        }
        let frame = &self.frames[env];
        let mut j: usize = frame.data.len();
        proof {
            assert(self@[env as int].entries.take(j as int) =~= self@[env as int].entries);
        }
        while j > 0
            invariant
                j <= frame.data@.len(),
                entries_lookup(self@[env as int].entries, name@) == entries_lookup(
                    self@[env as int].entries.take(j as int),
                    name@,
                ),
            decreases j,
        {
            j = j - 1;
            let b = &frame.data[j];
            if b.name == *name {
                proof {
                    assert(self@[env as int].entries.take(j as int + 1).last() == b@);
                    assert(entries_lookup(self@[env as int].entries, name@) == Option::Some(b@.val));
                    lemma_entries_lookup_wf(
                        self@[env as int].entries,
                        name@,
                        self@.len() as int,
                    );
                }
                return Some(b.val.deep_clone());
            }
            proof {
                assert(self@[env as int].entries.take(j as int + 1).drop_last() =~= self@[
                    env as int
                ].entries.take(j as int));
            }
        }
        proof {
            assert(self@[env as int].entries.take(0) =~= Seq::<BindV>::empty());
        }
        match frame.outer {
            Some(o) => self.lookup(o, name),
            None => None,
        }
    }

    /// Binds a symbol in the local scope `env` alone; an existing binding
    /// there is shadowed, enclosing scopes are untouched.
    pub fn define(&mut self, env: usize, name: String, val: Exp)
        requires
            env < old(self)@.len(),
        ensures
            final(self)@ =~= sem_define(old(self)@, env as int, name@, val@),
    {
        let ghost old_st = self@;
        let bind = Bind { name, val };
        let ghost bv = bind@;
        self.frames[env].data.push(bind);
        proof {
            assert(self@[env as int].entries =~= old_st[env as int].entries.push(bv));
            assert(self@ =~= sem_define(old_st, env as int, bv.name, bv.val));
        }
    }

    /// Assigns to the innermost scope on the chain from `env` that already
    /// binds the symbol.  Returns false, changing nothing, when no scope
    /// on the chain binds it.
    #[verifier::loop_isolation(false)]
    pub fn assign(&mut self, env: usize, name: &String, val: Exp) -> (ok: bool)
        requires
            st_wf(old(self)@),
            env < old(self)@.len(),
        ensures
            match sem_assign(old(self)@, env as int, name@, val@) {
                Option::Some(st2) => ok && final(self)@ =~= st2,
                Option::None => !ok && final(self)@ =~= old(self)@,
            },
        decreases env,
    {
        proof {
            assert(frame_wf(self@[env as int], env as int, self@.len() as int));
        }
        let found = self.frame_binds(env, name);
        if found {
            self.define(env, crate::exp::clone_string(name), val);
            return true;
        }
        let outer = self.frames[env].outer;
        match outer {
            Some(o) => self.assign(o, name, val),
            None => false,
        }
    }

    /// Whether the local scope `env` itself binds the symbol.
    #[verifier::loop_isolation(false)]
    fn frame_binds(&self, env: usize, name: &String) -> (found: bool)
        requires
            env < self@.len(),
        ensures
            found == (entries_lookup(self@[env as int].entries, name@) is Some),
    {
        let frame = &self.frames[env];
        let mut j: usize = frame.data.len();
        proof {
            assert(self@[env as int].entries.take(j as int) =~= self@[env as int].entries);
        }
        while j > 0
            invariant
                j <= frame.data@.len(),
                entries_lookup(self@[env as int].entries, name@) == entries_lookup(
                    self@[env as int].entries.take(j as int),
                    name@,
                ),
            decreases j,
        {
            j = j - 1;
            let b = &frame.data[j];
            if b.name == *name {
                proof {
                    assert(self@[env as int].entries.take(j as int + 1).last() == b@);
                }
                return true;
            }
            proof {
                assert(self@[env as int].entries.take(j as int + 1).drop_last() =~= self@[
                    env as int
                ].entries.take(j as int));
            }
        }
        proof {
            assert(self@[env as int].entries.take(0) =~= Seq::<BindV>::empty());
        }
        false
    }
}

} // verus!
