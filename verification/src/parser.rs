//! The batch reader: a whitespace tokenizer and a recursive-descent
//! structural parser from tokens to expression trees.

use vstd::prelude::*;
use vstd::string::StrSliceExecFns;

use crate::err::res_view;
use crate::err::ScmErr;
use crate::exp::views_of;
use crate::exp::Exp;
use crate::exp::ExpV;
use crate::text::str_to_chars;
use crate::text::string_from_chars;

verus! {

broadcast use crate::exp::group_exp_axioms;

/// Whitespace, for tokenization.
pub open spec fn is_ws(c: char) -> bool {
    c == ' ' || c == '\t' || c == '\r' || c == '\n'
}

/// A decimal digit.
pub open spec fn is_digit(c: char) -> bool {
    48 <= c as u32 <= 57
}

/// The length of the leading run of characters that belong to one plain
/// token: everything up to whitespace or a parenthesis.
pub open spec fn run_len(s: Seq<char>) -> int
    decreases s.len(),
{
    if s.len() == 0 {
        0
    } else if is_ws(s[0]) || s[0] == '(' || s[0] == ')' {
        0
    } else {
        1 + run_len(s.drop_first())
    }
}

pub proof fn lemma_run_len_bounds(s: Seq<char>)
    ensures
        0 <= run_len(s) <= s.len(),
    decreases s.len(),
{
    if s.len() != 0 && !(is_ws(s[0]) || s[0] == '(' || s[0] == ')') {
        lemma_run_len_bounds(s.drop_first());
    }
}

/// The tokens of a source string: parentheses stand alone, everything
/// else splits on whitespace.
pub open spec fn simple_tokens(s: Seq<char>) -> Seq<Seq<char>>
    decreases s.len(),
    via simple_tokens_dec
{
    if s.len() == 0 {
        Seq::empty()
    } else if is_ws(s[0]) {
        simple_tokens(s.drop_first())
    } else if s[0] == '(' || s[0] == ')' {
        seq![seq![s[0]]] + simple_tokens(s.drop_first())
    } else {
        let j = run_len(s);
        seq![s.take(j)] + simple_tokens(s.skip(j))
    }
}

#[via_fn]
proof fn simple_tokens_dec(s: Seq<char>) {
    if s.len() != 0 && !(is_ws(s[0]) || s[0] == '(' || s[0] == ')') {
        lemma_run_len_bounds(s.drop_first());
        lemma_run_len_bounds(s);
    }
}

/// The views of a vector of strings.
pub open spec fn strs_view(v: Seq<String>) -> Seq<Seq<char>> {
    Seq::new(v.len(), |i: int| v[i]@)
}

/// A token delimiter: whitespace or a parenthesis.
fn is_delim(c: char) -> (r: bool)
    ensures
        r == (is_ws(c) || c == '(' || c == ')'),
{
    c == ' ' || c == '\t' || c == '\r' || c == '\n' || c == '(' || c == ')'
}

/// Splits a source string into tokens, treating each parenthesis as a
/// token of its own.
#[verifier::loop_isolation(false)]
pub fn tokenize(str_exp: &str) -> (r: Vec<String>)
    ensures
        strs_view(r@) == simple_tokens(str_exp@),
{
    let chars = str_to_chars(str_exp);
    let mut out: Vec<String> = Vec::new();
    let mut i: usize = 0;
    proof {
        assert(chars@.skip(0) =~= chars@);
        assert(strs_view(out@) =~= Seq::<Seq<char>>::empty());
        assert(strs_view(out@) + simple_tokens(chars@) =~= simple_tokens(chars@));
    }
    while i < chars.len()
        invariant
            i <= chars@.len(),
            simple_tokens(chars@) == strs_view(out@) + simple_tokens(chars@.skip(i as int)),
        decreases chars@.len() - i,
    {
        let c = chars[i];
        let ghost rest = chars@.skip(i as int);
        proof {
            assert(rest[0] == chars@[i as int]);
            assert(rest.drop_first() =~= chars@.skip(i as int + 1));
        }
        if c == ' ' || c == '\t' || c == '\r' || c == '\n' {
            i = i + 1;
        } else if c == '(' || c == ')' {
            let mut tok: Vec<char> = Vec::new();
            tok.push(c);
            out.push(string_from_chars(&tok));
            proof {
                assert(strs_view(out@) =~= strs_view(out@.drop_last()) + seq![seq![c]]);
                assert(strs_view(out@) + simple_tokens(chars@.skip(i as int + 1)) =~= strs_view(
                    out@.drop_last(),
                ) + (seq![seq![c]] + simple_tokens(chars@.skip(i as int + 1))));
            }
            i = i + 1;
        } else {
            proof {
                lemma_run_len_bounds(rest);
            }
            let mut tok: Vec<char> = Vec::new();
            let mut j: usize = i;
            tok.push(c);
            j = j + 1;
            proof {
                assert(tok@ =~= rest.take(j - i));
                assert(rest.len() == chars@.len() - i);
            }
            while j < chars.len() && !is_delim(chars[j])
                invariant
                    i < j <= chars@.len(),
                    tok@ =~= rest.take(j - i),
                    forall|m: int|
                        0 <= m < j - i ==> !(is_ws(#[trigger] rest[m]) || rest[m] == '('
                            || rest[m] == ')'),
                decreases chars@.len() - j,
            {
                proof {
                    assert(rest[j - i] == chars@[j as int]);
                }
                tok.push(chars[j]);
                j = j + 1;
                proof {
                    assert(tok@ =~= rest.take(j - i));
                }
            }
            proof {
                if j < chars.len() {
                    assert(rest[j - i] == chars@[j as int]);
                }
                lemma_run_exact(rest, j - i, chars@.len() - i);
            }
            out.push(string_from_chars(&tok));
            proof {
                assert(strs_view(out@) =~= strs_view(out@.drop_last()) + seq![rest.take(
                    run_len(rest),
                )]);
                assert(chars@.skip(j as int) =~= rest.skip(run_len(rest)));
                assert(strs_view(out@) + simple_tokens(chars@.skip(j as int)) =~= strs_view(
                    out@.drop_last(),
                ) + (seq![rest.take(run_len(rest))] + simple_tokens(rest.skip(run_len(rest)))));
            }
            i = j;
        }
    }
    proof {
        assert(chars@.skip(i as int) =~= Seq::<char>::empty());
        assert(strs_view(out@) + simple_tokens(chars@.skip(i as int)) =~= strs_view(out@));
    }
    out
}

/// Characters before the end of the run are run characters.
proof fn lemma_run_prefix(s: Seq<char>, k: int)
    requires
        0 <= k < run_len(s),
    ensures
        k < s.len(),
        !(is_ws(s[k]) || s[k] == '(' || s[k] == ')'),
    decreases k,
{
    lemma_run_len_bounds(s);
    if k > 0 {
        lemma_run_prefix(s.drop_first(), k - 1);
    }
}

/// A maximal run: `k` characters of run followed by a delimiter or the
/// end of the string pins `run_len` to exactly `k`.
proof fn lemma_run_exact(s: Seq<char>, k: int, n: int)
    requires
        0 < k <= s.len() == n,
        forall|j: int| 0 <= j < k ==> !(is_ws(#[trigger] s[j]) || s[j] == '(' || s[j] == ')'),
        k < n ==> (is_ws(s[k]) || s[k] == '(' || s[k] == ')'),
    ensures
        run_len(s) == k,
    decreases k,
{
    if k == 1 {
        assert(!(is_ws(s[0]) || s[0] == '(' || s[0] == ')'));
        assert(run_len(s) == 1 + run_len(s.drop_first()));
        if s.len() > 1 {
            assert(s.drop_first()[0] == s[1]);
            assert(run_len(s.drop_first()) == 0);
        } else {
            assert(s.drop_first().len() == 0);
            assert(run_len(s.drop_first()) == 0);
        }
    } else {
        let t = s.drop_first();
        assert forall|j: int| 0 <= j < k - 1 implies !(is_ws(#[trigger] t[j]) || t[j] == '('
            || t[j] == ')') by {
            assert(t[j] == s[j + 1]);
        }
        assert(k - 1 < t.len() ==> (is_ws(t[k - 1]) || t[k - 1] == '(' || t[k - 1] == ')'));
        lemma_run_exact(t, k - 1, n - 1);
    }
}

/// The numeric value of a digit string.
pub open spec fn digits_val(s: Seq<char>) -> int
    decreases s.len(),
{
    if s.len() == 0 {
        0
    } else {
        digits_val(s.drop_last()) * 10 + (s.last() as u32 - 48)
    }
}

/// Every character is a digit.
pub open spec fn all_digits(s: Seq<char>) -> bool {
    forall|i: int| 0 <= i < s.len() ==> is_digit(#[trigger] s[i])
}

/// A token that reads as an integer: an optional sign, then digits.
pub open spec fn is_int_token(s: Seq<char>) -> bool {
    if s.len() == 0 {
        false
    } else if s[0] == '+' || s[0] == '-' {
        s.len() > 1 && all_digits(s.drop_first())
    } else {
        all_digits(s)
    }
}

/// The signed value of an integer token.
pub open spec fn int_token_val(s: Seq<char>) -> int {
    if s[0] == '+' {
        digits_val(s.drop_first())
    } else if s[0] == '-' {
        -digits_val(s.drop_first())
    } else {
        digits_val(s)
    }
}

/// What a single token parses to: a number when it reads as an integer
/// that the machine range holds, a symbol otherwise.
pub open spec fn atom_spec(s: Seq<char>) -> ExpV {
    if is_int_token(s) && i64::MIN as int <= int_token_val(s) <= i64::MAX as int {
        ExpV::Number(int_token_val(s))
    } else {
        ExpV::Symbol(s)
    }
}

pub proof fn lemma_digits_val_nonneg(s: Seq<char>)
    requires
        all_digits(s),
    ensures
        digits_val(s) >= 0,
    decreases s.len(),
{
    if s.len() != 0 {
        assert(all_digits(s.drop_last())) by {
            assert(forall|i: int|
                0 <= i < s.len() - 1 ==> s.drop_last()[i] == #[trigger] s[i] && is_digit(s[i]));
        }
        lemma_digits_val_nonneg(s.drop_last());
    }
}

/// Extending a digit string by one digit multiplies its value by ten and
/// adds the digit; so values only grow along a prefix.
pub proof fn lemma_digits_val_grow(s: Seq<char>, k: int)
    requires
        all_digits(s),
        0 <= k <= s.len(),
    ensures
        digits_val(s) >= digits_val(s.take(k)),
    decreases s.len() - k,
{
    if k < s.len() {
        assert(s.take(k + 1).drop_last() =~= s.take(k));
        assert(digits_val(s.take(k + 1)) == digits_val(s.take(k)) * 10 + (s[k] as u32 - 48));
        assert(all_digits(s.take(k))) by {
            assert(forall|i: int| 0 <= i < k ==> s.take(k)[i] == #[trigger] s[i]);
        }
        lemma_digits_val_nonneg(s.take(k));
        lemma_digits_val_grow(s, k + 1);
    } else {
        assert(s.take(k) =~= s);
    }
}

/// Classifies one token: a number when it reads as a machine integer,
/// else a symbol.
#[verifier::loop_isolation(false)]
pub fn atom(token: &str) -> (r: Exp)
    ensures
        r@ == atom_spec(token@),
{
    let chars = str_to_chars(token);
    let n = chars.len();
    if n == 0 {
        return Exp::Symbol(token.to_owned());
    }
    let c0 = chars[0];
    let neg = c0 == '-';
    let signed = c0 == '-' || c0 == '+';
    let start: usize = if signed {
        1
    } else {
        0
    };
    let ghost digits = if signed {
        token@.drop_first()
    } else {
        token@
    };
    if signed && n == 1 {
        return Exp::Symbol(token.to_owned());
    }
    proof {
        assert(digits =~= chars@.skip(start as int));
    }
    let mut acc: u64 = 0;
    let mut i: usize = start;
    while i < n
        invariant
            start <= i <= n,
            acc as int == digits_val(digits.take(i - start)),
            acc <= 0x8000_0000_0000_0000u64,
            all_digits(digits.take(i - start)),
        decreases n - i,
    {
        let c = chars[i];
        let cv = c as u32;
        if cv < 48 || cv > 57 {
            proof {
                assert(digits[i - start] == chars@[i as int]);
                assert(!is_digit(digits[i - start]));
                assert(!all_digits(digits));
                assert(!is_int_token(token@));
            }
            return Exp::Symbol(token.to_owned());
        }
        let d = (cv - 48) as u64;
        let wide: u128 = acc as u128 * 10 + d as u128;
        proof {
            assert(digits.take(i - start + 1).drop_last() =~= digits.take(i - start));
            assert(digits.take(i - start + 1).last() == digits[i - start]);
        }
        if wide > 0x8000_0000_0000_0000u128 {
            proof {
                let k = i - start + 1;
                assert(all_digits(digits.take(k)));
                assert(digits_val(digits.take(k)) > 0x8000_0000_0000_0000);
                if is_int_token(token@) {
                    assert(all_digits(digits));
                    lemma_digits_val_grow(digits, k);
                    assert(digits.take(digits.len() as int) =~= digits);
                    assert(digits_val(digits) > 0x8000_0000_0000_0000);
                    assert(!(i64::MIN as int <= int_token_val(token@) <= i64::MAX as int));
                }
            }
            return Exp::Symbol(token.to_owned());
        }
        acc = wide as u64;
        i = i + 1;
    }
    proof {
        assert(digits.take(i - start) =~= digits);
        assert(is_int_token(token@));
        lemma_digits_val_nonneg(digits);
    }
    if neg {
        let val: i64 = if acc == 0x8000_0000_0000_0000u64 {
            i64::MIN
        } else {
            -(acc as i64)
        };
        Exp::Number(val)
    } else {
        if acc > i64::MAX as u64 {
            proof {
                assert(int_token_val(token@) > i64::MAX as int);
            }
            return Exp::Symbol(token.to_owned());
        }
        Exp::Number(acc as i64)
    }
}

/// Outcome of reading one form from a token stream: the form or an
/// error, plus the position after what was consumed.
pub struct ParseOut {
    pub r: Result<ExpV, Seq<char>>,
    pub pos: int,
}

/// Reads one form starting at `pos`: `(` opens a sequence, `)` here is
/// stray, anything else is an atom.
pub open spec fn parse_toks(toks: Seq<Seq<char>>, pos: int) -> ParseOut
    decreases toks.len() - pos, 0int,
{
    if !(0 <= pos < toks.len()) {
        ParseOut { r: Result::Err("gen_ast: Unexpected EOF"@), pos }
    } else if toks[pos] == "("@ {
        parse_list(toks, pos + 1, Seq::empty())
    } else if toks[pos] == ")"@ {
        ParseOut { r: Result::Err("gen_ast: Extra \")\" found"@), pos }
    } else {
        ParseOut { r: Result::Ok(atom_spec(toks[pos])), pos: pos + 1 }
    }
}

/// Collects forms into a sequence until the matching `)`.
pub open spec fn parse_list(toks: Seq<Seq<char>>, pos: int, acc: Seq<ExpV>) -> ParseOut
    decreases toks.len() - pos, 1int,
{
    if !(0 <= pos < toks.len()) {
        ParseOut { r: Result::Err("gen_ast: Mismatched parens"@), pos }
    } else if toks[pos] == ")"@ {
        ParseOut { r: Result::Ok(ExpV::List(acc)), pos: pos + 1 }
    } else {
        let o = parse_toks(toks, pos);
        match o.r {
            Result::Ok(v) => if pos < o.pos <= toks.len() {
                parse_list(toks, o.pos, acc.push(v))
            } else {
                ParseOut { r: Result::Err("gen_ast: Mismatched parens"@), pos }
            },
            Result::Err(m) => ParseOut { r: Result::Err(m), pos: o.pos },
        }
    }
}

/// Reading one form consumes at least one token and never reads past the
/// end, so the guard inside `parse_list` never fires.
pub proof fn lemma_parse_progress(toks: Seq<Seq<char>>, pos: int)
    requires
        0 <= pos <= toks.len(),
    ensures
        parse_toks(toks, pos).r is Ok ==> pos < parse_toks(toks, pos).pos <= toks.len(),
    decreases toks.len() - pos, 0int,
{
    if 0 <= pos < toks.len() && toks[pos] == "("@ {
        lemma_parse_list_progress(toks, pos + 1, Seq::empty());
    }
}

pub proof fn lemma_parse_list_progress(toks: Seq<Seq<char>>, pos: int, acc: Seq<ExpV>)
    requires
        0 <= pos <= toks.len(),
    ensures
        parse_list(toks, pos, acc).r is Ok ==> pos < parse_list(toks, pos, acc).pos <= toks.len(),
    decreases toks.len() - pos, 1int,
{
    if 0 <= pos < toks.len() && toks[pos] != ")"@ {
        lemma_parse_progress(toks, pos);
        let o = parse_toks(toks, pos);
        if o.r is Ok && pos < o.pos <= toks.len() {
            lemma_parse_list_progress(toks, o.pos, acc.push(o.r->Ok_0));
        }
    }
}

/// Builds one form from the tokens, starting at `*pos` and leaving `*pos`
/// after what was consumed.
#[verifier::loop_isolation(false)]
pub fn gen_ast(tokens: &Vec<String>, pos: &mut usize) -> (r: Result<Exp, ScmErr>)
    requires
        *old(pos) <= tokens@.len(),
    ensures
        res_view(r) == parse_toks(strs_view(tokens@), *old(pos) as int).r,
        *final(pos) as int == parse_toks(strs_view(tokens@), *old(pos) as int).pos,
        *final(pos) <= tokens@.len(),
        r is Ok ==> *old(pos) < *final(pos),
    decreases tokens@.len() - *old(pos), 0int,
{
    let ghost toks = strs_view(tokens@);
    if *pos >= tokens.len() {
        return Result::Err(ScmErr::from("gen_ast: Unexpected EOF"));
    }
    proof {
        assert(toks[*pos as int] == tokens@[*pos as int]@);
    }
    let head = &tokens[*pos];
    if crate::text::str_eq(head.as_str(), "(") {
        *pos = *pos + 1;
        let mut res: Vec<Exp> = Vec::new();
        let ghost start = *pos as int;
        loop
            invariant
                *pos <= tokens@.len(),
                start <= *pos as int,
                parse_list(toks, start, Seq::empty()) == parse_list(
                    toks,
                    *pos as int,
                    views_of(res@),
                ),
            decreases tokens@.len() - *pos,
        {
            if *pos >= tokens.len() {
                return Result::Err(ScmErr::from("gen_ast: Mismatched parens"));
            }
            proof {
                assert(toks[*pos as int] == tokens@[*pos as int]@);
            }
            if crate::text::str_eq(tokens[*pos].as_str(), ")") {
                *pos = *pos + 1;
                let ghost vres = views_of(res@);
                return Result::Ok(Exp::List(res));
            }
            proof {
                lemma_parse_progress(toks, *pos as int);
            }
            let ghost prev = views_of(res@);
            match gen_ast(tokens, pos) {
                Result::Ok(sub) => {
                    let ghost subv = sub@;
                    let ghost prev_res = res@;
                    res.push(sub);
                    proof {
                        assert(res@.drop_last() =~= prev_res);
                        assert(views_of(res@) =~= prev.push(subv));
                    }
                },
                Result::Err(e) => {
                    return Result::Err(e);
                },
            }
        }
    } else if crate::text::str_eq(head.as_str(), ")") {
        Result::Err(ScmErr::from("gen_ast: Extra \")\" found"))
    } else {
        let a = atom(head.as_str());
        *pos = *pos + 1;
        Result::Ok(a)
    }
}

/// Parses a whole source string into its first form.
pub fn parse(str_exp: &str) -> (r: Result<Exp, ScmErr>)
    ensures
        res_view(r) == parse_toks(simple_tokens(str_exp@), 0).r,
{
    let tokens = tokenize(str_exp);
    let mut pos: usize = 0;
    gen_ast(&tokens, &mut pos)
}

} // verus!
