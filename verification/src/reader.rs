//! The incremental reader: a line-buffered tokenizer knowing the full
//! token grammar (quote prefixes, strings with escapes, comments), and a
//! structural parser that pulls tokens on demand and desugars what it
//! read.  It consumes a fixed supply of lines; the surrounding program
//! decides where the lines come from.

use vstd::prelude::*;

use crate::desugar::sug;
use crate::err::res_view;
use crate::err::ScmErr;
use crate::exp::views_of;
use crate::exp::Exp;
use crate::exp::ExpV;
use crate::parser::atom;
use crate::parser::atom_spec;
use crate::parser::is_ws;
use crate::parser::strs_view;
use crate::text::str_to_chars;
use crate::text::string_from_chars;

verus! {

broadcast use crate::exp::group_exp_axioms;

/// A character that ends a plain token.
pub open spec fn is_tok_delim(c: char) -> bool {
    is_ws(c) || c == '(' || c == ')' || c == '\'' || c == '"' || c == '`' || c == ',' || c == ';'
}

/// The first index at or after `i` holding something other than
/// whitespace (or the end of the line).
pub open spec fn ws_from(s: Seq<char>, i: int) -> int
    decreases s.len() - i,
{
    if !(0 <= i < s.len()) {
        s.len() as int
    } else if is_ws(s[i]) {
        ws_from(s, i + 1)
    } else {
        i
    }
}

/// The first index at or after `i` holding a token delimiter (or the end
/// of the line).
pub open spec fn run_from(s: Seq<char>, i: int) -> int
    decreases s.len() - i,
{
    if !(0 <= i < s.len()) {
        s.len() as int
    } else if is_tok_delim(s[i]) {
        i
    } else {
        run_from(s, i + 1)
    }
}

/// The index just after the closing quote of a string literal whose body
/// starts at `i`, honouring backslash escapes; the end of the line if the
/// literal never closes.
pub open spec fn str_end(s: Seq<char>, i: int) -> int
    decreases s.len() - i,
{
    if !(0 <= i < s.len()) {
        s.len() as int
    } else if s[i] == '\\' {
        if i + 2 <= s.len() {
            str_end(s, i + 2)
        } else {
            s.len() as int
        }
    } else if s[i] == '"' {
        i + 1
    } else {
        str_end(s, i + 1)
    }
}

pub proof fn lemma_ws_from_bounds(s: Seq<char>, i: int)
    requires
        0 <= i <= s.len(),
    ensures
        i <= ws_from(s, i) <= s.len(),
    decreases s.len() - i,
{
    if i < s.len() && is_ws(s[i]) {
        lemma_ws_from_bounds(s, i + 1);
    }
}

pub proof fn lemma_run_from_bounds(s: Seq<char>, i: int)
    requires
        0 <= i <= s.len(),
    ensures
        i <= run_from(s, i) <= s.len(),
    decreases s.len() - i,
{
    if i < s.len() && !is_tok_delim(s[i]) {
        lemma_run_from_bounds(s, i + 1);
    }
}

pub proof fn lemma_str_end_bounds(s: Seq<char>, i: int)
    requires
        0 <= i <= s.len(),
    ensures
        i <= str_end(s, i) <= s.len(),
    decreases s.len() - i,
{
    if i < s.len() {
        if s[i] == '\\' {
            if i + 2 <= s.len() {
                lemma_str_end_bounds(s, i + 2);
            }
        } else if s[i] != '"' {
            lemma_str_end_bounds(s, i + 1);
        }
    }
}

/// Pulls the next raw token off a line: the token (possibly empty, for a
/// line of nothing but whitespace) and the unconsumed remainder.
pub open spec fn scan(l: Seq<char>) -> (Seq<char>, Seq<char>) {
    let i = ws_from(l, 0);
    if i >= l.len() {
        (Seq::empty(), Seq::empty())
    } else if l[i] == ',' {
        if i + 1 < l.len() && l[i + 1] == '@' {
            (l.subrange(i, i + 2), l.skip(i + 2))
        } else {
            (l.subrange(i, i + 1), l.skip(i + 1))
        }
    } else if l[i] == '(' || l[i] == ')' || l[i] == '\'' || l[i] == '`' {
        (l.subrange(i, i + 1), l.skip(i + 1))
    } else if l[i] == '"' {
        let j = str_end(l, i + 1);
        (l.subrange(i, j), l.skip(j))
    } else if l[i] == ';' {
        (l.skip(i), Seq::empty())
    } else {
        let j = run_from(l, i + 1);
        (l.subrange(i, j), l.skip(j))
    }
}

/// Scanning a non-empty line always consumes something.
pub proof fn lemma_scan_shrinks(l: Seq<char>)
    requires
        l.len() > 0,
    ensures
        scan(l).1.len() < l.len(),
        scan(l).0.len() + scan(l).1.len() <= l.len(),
{
    lemma_ws_from_bounds(l, 0);
    let i = ws_from(l, 0);
    if i < l.len() {
        if l[i] == '"' {
            lemma_str_end_bounds(l, i + 1);
        } else if !(l[i] == ',' || l[i] == '(' || l[i] == ')' || l[i] == '\'' || l[i] == '`'
            || l[i] == ';') {
            lemma_run_from_bounds(l, i + 1);
        }
    }
}

/// The tokens still to come from a buffered line and the lines after it:
/// empty and comment tokens are skipped, and an exhausted line pulls the
/// next one in.
pub open spec fn stream_toks(line: Option<Seq<char>>, rest: Seq<Seq<char>>) -> Seq<Seq<char>>
    decreases rest.len(), line_len(line) + 1,
    via stream_toks_dec
{
    match line {
        Option::None => Seq::empty(),
        Option::Some(l) => {
            if l.len() == 0 {
                if rest.len() == 0 {
                    Seq::empty()
                } else {
                    stream_toks(Option::Some(rest.first()), rest.drop_first())
                }
            } else {
                let t = scan(l).0;
                let r = scan(l).1;
                if t.len() == 0 || t[0] == ';' {
                    stream_toks(Option::Some(r), rest)
                } else {
                    seq![t] + stream_toks(Option::Some(r), rest)
                }
            }
        },
    }
}

pub open spec fn line_len(line: Option<Seq<char>>) -> int {
    match line {
        Option::None => 0,
        Option::Some(l) => l.len() as int,
    }
}

#[via_fn]
proof fn stream_toks_dec(line: Option<Seq<char>>, rest: Seq<Seq<char>>) {
    match line {
        Option::Some(l) => {
            if l.len() != 0 {
                lemma_scan_shrinks(l);
            }
        },
        _ => {},
    }
}

/// Outcome of reading one form from a token stream: the form or an
/// error, and the tokens left over.
pub struct RdOut {
    pub r: Result<ExpV, Seq<char>>,
    pub rest: Seq<Seq<char>>,
}

/// Reads one form given its first token: `(` collects a sequence from
/// the following tokens, a stray `)` is an error, anything else is an
/// atom.
pub open spec fn rd_ahead(t: Seq<char>, toks: Seq<Seq<char>>) -> RdOut
    decreases toks.len(), 1int,
{
    if t == "("@ {
        rd_list(toks, Seq::empty())
    } else if t == ")"@ {
        RdOut { r: Result::Err("parser: Extra \")\" found"@), rest: toks }
    } else {
        RdOut { r: Result::Ok(atom_spec(t)), rest: toks }
    }
}

/// Collects forms until the matching `)`; running out of tokens first is
/// an error.
pub open spec fn rd_list(toks: Seq<Seq<char>>, acc: Seq<ExpV>) -> RdOut
    decreases toks.len(), 0int,
{
    if toks.len() == 0 {
        RdOut { r: Result::Err("parser: Unexpected EOF"@), rest: toks }
    } else if toks.first() == ")"@ {
        RdOut { r: Result::Ok(ExpV::List(acc)), rest: toks.drop_first() }
    } else {
        let o = rd_ahead(toks.first(), toks.drop_first());
        match o.r {
            Result::Ok(v) => if o.rest.len() < toks.len() {
                rd_list(o.rest, acc.push(v))
            } else {
                RdOut { r: Result::Err("parser: Unexpected EOF"@), rest: o.rest }
            },
            Result::Err(_) => o,
        }
    }
}

/// Reading never conjures tokens: what is left is at most what was
/// there, and collecting a list consumes at least the closing token.
pub proof fn lemma_rd_ahead_bound(t: Seq<char>, toks: Seq<Seq<char>>)
    ensures
        rd_ahead(t, toks).rest.len() <= toks.len(),
    decreases toks.len(), 1int,
{
    if t == "("@ {
        lemma_rd_list_bound(toks, Seq::empty());
    }
}

pub proof fn lemma_rd_list_bound(toks: Seq<Seq<char>>, acc: Seq<ExpV>)
    ensures
        rd_list(toks, acc).rest.len() <= toks.len(),
        rd_list(toks, acc).r is Ok ==> rd_list(toks, acc).rest.len() < toks.len(),
    decreases toks.len(), 0int,
{
    if toks.len() != 0 && toks.first() != ")"@ {
        lemma_rd_ahead_bound(toks.first(), toks.drop_first());
        let o = rd_ahead(toks.first(), toks.drop_first());
        match o.r {
            Result::Ok(v) => {
                if o.rest.len() < toks.len() {
                    lemma_rd_list_bound(o.rest, acc.push(v));
                }
            },
            Result::Err(_) => {},
        }
    }
}

/// A reader over a fixed supply of source lines.
pub struct Reader {
    /// The unconsumed remainder of the current line; none once the
    /// supply is exhausted.
    pub line: Option<Vec<char>>,
    /// The supply of lines, consumed in order.
    pub lines: Vec<String>,
    /// How many of `lines` have been consumed.
    pub at: usize,
}

impl Reader {
    /// The tokens this reader will still produce.
    pub open spec fn toks(self) -> Seq<Seq<char>> {
        stream_toks(
            match self.line {
                Option::Some(l) => Option::Some(l@),
                Option::None => Option::None,
            },
            strs_view(self.lines@).skip(self.at as int),
        )
    }

    pub open spec fn wf(self) -> bool {
        self.at <= self.lines@.len()
    }

    /// A reader over the given lines.
    pub fn new(lines: Vec<String>) -> (r: Reader)
        ensures
            r.wf(),
            r.toks() == stream_toks(
                Option::Some(Seq::<char>::empty()),
                strs_view(lines@),
            ),
    {
        let r = Reader { line: Some(Vec::new()), lines, at: 0 };
        proof {
            assert(strs_view(r.lines@).skip(0) =~= strs_view(r.lines@));
        }
        r
    }

    /// The next token, pulling lines in as the current one runs dry;
    /// comments and blank space are skipped.
    #[verifier::loop_isolation(false)]
    pub fn next_token(&mut self) -> (r: Option<String>)
        requires
            old(self).wf(),
        ensures
            final(self).wf(),
            (match r {
                Option::Some(t) => old(self).toks().len() > 0 && t@ == old(self).toks().first()
                    && final(self).toks() == old(self).toks().drop_first(),
                Option::None => old(self).toks().len() == 0 && final(self).toks().len() == 0,
            }),
    {
        loop
            invariant
                self.wf(),
                self.toks() == old(self).toks(),
            decreases
                    self.lines@.len() - self.at,
                    line_len(
                        match self.line {
                            Option::Some(l) => Option::Some(l@),
                            Option::None => Option::None,
                        },
                    ) + 1,
        {
            let cur = match &self.line {
                Option::None => {
                    return None;
                },
                Option::Some(l) => l,
            };
            if cur.len() == 0 {
                if self.at < self.lines.len() {
                    let next_line = str_to_chars(self.lines[self.at].as_str());
                    proof {
                        let ls = strs_view(self.lines@).skip(self.at as int);
                        assert(ls.first() == self.lines@[self.at as int]@);
                        assert(ls.drop_first() =~= strs_view(self.lines@).skip(
                            self.at as int + 1,
                        ));
                    }
                    self.line = Some(next_line);
                    self.at = self.at + 1;
                } else {
                    proof {
                        assert(strs_view(self.lines@).skip(self.at as int).len() == 0);
                    }
                    self.line = None;
                    return None;
                }
            } else {
                let (tok, rest_line) = scan_exec(cur);
                proof {
                    lemma_scan_shrinks(cur@);
                }
                let keep = tok.len() > 0 && tok[0] != ';';
                self.line = Some(rest_line);
                if keep {
                    return Some(string_from_chars(&tok));
                }
            }
        }
    }

    /// Reads one form whose first token is `token`, pulling the rest of
    /// the form's tokens from the stream.
    #[verifier::loop_isolation(false)]
    pub fn read_ahead(&mut self, token: &str) -> (r: Result<Exp, ScmErr>)
        requires
            old(self).wf(),
        ensures
            final(self).wf(),
            res_view(r) == rd_ahead(token@, old(self).toks()).r,
            final(self).toks() == rd_ahead(token@, old(self).toks()).rest,
        decreases old(self).toks().len(), 1int,
    {
        let ghost toks0 = old(self).toks();
        if crate::text::str_eq(token, "(") {
            let mut acc: Vec<Exp> = Vec::new();
            proof {
                assert(views_of(acc@) =~= Seq::<ExpV>::empty());
            }
            loop
                invariant
                    self.wf(),
                    self.toks().len() <= toks0.len(),
                    rd_list(toks0, Seq::empty()) == rd_list(self.toks(), views_of(acc@)),
                decreases self.toks().len(),
            {
                let ghost pre = self.toks();
                match self.next_token() {
                    Option::None => {
                        return Result::Err(ScmErr::from("parser: Unexpected EOF"));
                    },
                    Option::Some(t) => {
                        if crate::text::str_eq(t.as_str(), ")") {
                            let ghost accv = views_of(acc@);
                            return Result::Ok(Exp::List(acc));
                        }
                        proof {
                            lemma_rd_ahead_bound(t@, pre.drop_first());
                        }
                        match self.read_ahead(t.as_str()) {
                            Result::Ok(sub) => {
                                let ghost subv = sub@;
                                let ghost prev = views_of(acc@);
                                let ghost prev_acc = acc@;
                                acc.push(sub);
                                proof {
                                    assert(acc@.drop_last() =~= prev_acc);
                                    assert(views_of(acc@) =~= prev.push(subv));
                                }
                            },
                            Result::Err(e) => {
                                return Result::Err(e);
                            },
                        }
                    },
                }
            }
        } else if crate::text::str_eq(token, ")") {
            Result::Err(ScmErr::from("parser: Extra \")\" found"))
        } else {
            Result::Ok(atom(token))
        }
    }

    /// Reads one form starting from the given token and desugars it; no
    /// token left means end of input, which reads as the empty value.
    pub fn read_exp(&mut self, token: Option<String>) -> (r: Result<Exp, ScmErr>)
        requires
            old(self).wf(),
        ensures
            final(self).wf(),
            (match token {
                Option::Some(t) => ({
                    let o = rd_ahead(t@, old(self).toks());
                    final(self).toks() == o.rest && res_view(r) == (match o.r {
                        Result::Ok(v) => sug(v),
                        Result::Err(m) => Result::Err(m),
                    })
                }),
                Option::None => r matches Result::Ok(e) && e@ == ExpV::Empty
                    && final(self).toks() == old(self).toks(),
            }),
    {
        match token {
            Option::Some(t) => {
                match self.read_ahead(t.as_str()) {
                    Result::Ok(exp) => crate::desugar::desugar(exp),
                    Result::Err(e) => Result::Err(e),
                }
            },
            Option::None => Result::Ok(Exp::Empty),
        }
    }

    /// Reads the next form off the stream, desugared.
    pub fn read_next_exp(&mut self) -> (r: Result<Exp, ScmErr>)
        requires
            old(self).wf(),
        ensures
            final(self).wf(),
            old(self).toks().len() == 0 ==> (r matches Result::Ok(e) && e@ == ExpV::Empty),
            old(self).toks().len() > 0 ==> ({
                let o = rd_ahead(old(self).toks().first(), old(self).toks().drop_first());
                final(self).toks() == o.rest && res_view(r) == (match o.r {
                    Result::Ok(v) => sug(v),
                    Result::Err(m) => Result::Err(m),
                })
            }),
    {
        let next = self.next_token();
        self.read_exp(next)
    }

}

/// Pulls the next raw token off one line of characters.
#[verifier::loop_isolation(false)]
fn scan_exec(l: &Vec<char>) -> (r: (Vec<char>, Vec<char>))
    ensures
        r.0@ == scan(l@).0,
        r.1@ == scan(l@).1,
{
    let n = l.len();
    let mut i: usize = 0;
    while i < n && is_ws_exec(l[i])
        invariant
            0 <= i <= n,
            ws_from(l@, 0) == ws_from(l@, i as int),
        decreases n - i,
    {
        i = i + 1;
    }
    proof {
        assert(ws_from(l@, i as int) == i as int);
    }
    if i >= n {
        return (Vec::new(), Vec::new());
    }
    let c = l[i];
    if c == ',' {
        if i + 1 < n && l[i + 1] == '@' {
            let tok = copy_range(l, i, i + 2);
            let rest = copy_range(l, i + 2, n);
            (tok, rest)
        } else {
            let tok = copy_range(l, i, i + 1);
            let rest = copy_range(l, i + 1, n);
            (tok, rest)
        }
    } else if c == '(' || c == ')' || c == '\'' || c == '`' {
        let tok = copy_range(l, i, i + 1);
        let rest = copy_range(l, i + 1, n);
        (tok, rest)
    } else if c == '"' {
        let mut j: usize = i + 1;
        loop
            invariant
                i + 1 <= j <= n,
                str_end(l@, i as int + 1) == str_end(l@, j as int),
            decreases n - j,
        {
            if j >= n {
                break;
            }
            let d = l[j];
            if d == '\\' {
                if n - j >= 2 {
                    j = j + 2;
                } else {
                    proof {
                        assert(str_end(l@, j as int) == n as int);
                    }
                    j = n;
                    break;
                }
            } else if d == '"' {
                proof {
                    assert(str_end(l@, j as int) == j + 1);
                }
                j = j + 1;
                break;
            } else {
                j = j + 1;
            }
        }
        proof {
            assert(str_end(l@, i as int + 1) == j as int);
        }
        let tok = copy_range(l, i, j);
        let rest = copy_range(l, j, n);
        (tok, rest)
    } else if c == ';' {
        let tok = copy_range(l, i, n);
        (tok, Vec::new())
    } else {
        let mut j: usize = i + 1;
        while j < n && !is_tok_delim_exec(l[j])
            invariant
                i + 1 <= j <= n,
                run_from(l@, i as int + 1) == run_from(l@, j as int),
            decreases n - j,
        {
            j = j + 1;
        }
        proof {
            assert(run_from(l@, j as int) == j as int);
        }
        let tok = copy_range(l, i, j);
        let rest = copy_range(l, j, n);
        (tok, rest)
    }
}

/// Whitespace, decided at run time.
fn is_ws_exec(c: char) -> (r: bool)
    ensures
        r == is_ws(c),
{
    c == ' ' || c == '\t' || c == '\r' || c == '\n'
}

/// A token delimiter, decided at run time.
fn is_tok_delim_exec(c: char) -> (r: bool)
    ensures
        r == is_tok_delim(c),
{
    c == ' ' || c == '\t' || c == '\r' || c == '\n' || c == '(' || c == ')' || c == '\'' || c == '"'
        || c == '`' || c == ',' || c == ';'
}

/// The characters of `l` from `from` (inclusive) to `to` (exclusive).
#[verifier::loop_isolation(false)]
fn copy_range(l: &Vec<char>, from: usize, to: usize) -> (r: Vec<char>)
    requires
        from <= to <= l@.len(),
    ensures
        r@ == l@.subrange(from as int, to as int),
{
    let mut r: Vec<char> = Vec::new();
    let mut i: usize = from;
    while i < to
        invariant
            from <= i <= to,
            r@ =~= l@.subrange(from as int, i as int),
        decreases to - i,
    {
        r.push(l[i]);
        i = i + 1;
    }
    proof {
        assert(r@ =~= l@.subrange(from as int, to as int));
    }
    r
}

} // verus!
