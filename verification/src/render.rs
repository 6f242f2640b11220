//! Rendering values back to text: numbers as decimals, booleans as
//! words, sequences in brackets, callables as opaque placeholders, the
//! empty value as nothing.

use vstd::prelude::*;

use crate::exp::Exp;
use crate::exp::ExpV;
use crate::text::string_from_chars;

verus! {

broadcast use crate::exp::group_exp_axioms;

/// The character of one decimal digit.
pub open spec fn digit_char(d: int) -> char {
    if d == 0 {
        '0'
    } else if d == 1 {
        '1'
    } else if d == 2 {
        '2'
    } else if d == 3 {
        '3'
    } else if d == 4 {
        '4'
    } else if d == 5 {
        '5'
    } else if d == 6 {
        '6'
    } else if d == 7 {
        '7'
    } else if d == 8 {
        '8'
    } else {
        '9'
    }
}

/// The decimal digits of a non-negative integer.
pub open spec fn dec_nat(n: int) -> Seq<char>
    decreases n,
{
    if n < 10 {
        seq![digit_char(n)]
    } else {
        dec_nat(n / 10).push(digit_char(n % 10))
    }
}

/// The decimal rendering of an integer.
pub open spec fn dec_int(n: int) -> Seq<char> {
    if n < 0 {
        seq!['-'] + dec_nat(-n)
    } else {
        dec_nat(n)
    }
}

/// The text a value prints as.
pub open spec fn render(e: ExpV) -> Seq<char>
    decreases e, 0int,
{
    match e {
        ExpV::Bool(b) => if b {
            "true"@
        } else {
            "false"@
        },
        ExpV::Symbol(s) => seq!['\''] + s,
        ExpV::Number(n) => dec_int(n),
        ExpV::List(l) => seq!['['] + render_items_from(l, 0) + seq![']'],
        ExpV::Closure { .. } => "<Closure>"@,
        ExpV::Primitive(_) => "<Primitive>"@,
        ExpV::Empty => Seq::empty(),
    }
}

/// The elements from index `i` on, rendered and joined with a comma and
/// a space.
pub open spec fn render_items_from(l: Seq<ExpV>, i: int) -> Seq<char>
    decreases l, l.len() - i,
{
    if !(0 <= i < l.len()) {
        Seq::empty()
    } else if i == l.len() - 1 {
        render(l[i])
    } else {
        render(l[i]) + ", "@ + render_items_from(l, i + 1)
    }
}

/// One decimal digit (`d` below ten).
fn digit_exec(d: u64) -> (c: char)
    requires
        d < 10,
    ensures
        c == digit_char(d as int),
{
    if d == 0 {
        '0'
    } else if d == 1 {
        '1'
    } else if d == 2 {
        '2'
    } else if d == 3 {
        '3'
    } else if d == 4 {
        '4'
    } else if d == 5 {
        '5'
    } else if d == 6 {
        '6'
    } else if d == 7 {
        '7'
    } else if d == 8 {
        '8'
    } else {
        '9'
    }
}

/// Appends the decimal digits of `n`.
fn push_u64_dec(n: u64, out: &mut Vec<char>)
    ensures
        final(out)@ == old(out)@ + dec_nat(n as int),
    decreases n,
{
    if n < 10 {
        out.push(digit_exec(n));
        proof {
            assert(final(out)@ =~= old(out)@ + dec_nat(n as int));
        }
    } else {
        push_u64_dec(n / 10, out);
        out.push(digit_exec(n % 10));
        proof {
            assert(final(out)@ =~= old(out)@ + dec_nat(n as int));
        }
    }
}

/// Appends the decimal rendering of a signed number.
fn push_i64_dec(n: i64, out: &mut Vec<char>)
    ensures
        final(out)@ == old(out)@ + dec_int(n as int),
{
    if n < 0 {
        out.push('-');
        let mag: u64 = ((-(n + 1)) as u64) + 1;
        push_u64_dec(mag, out);
        proof {
            assert(final(out)@ =~= old(out)@ + dec_int(n as int));
        }
    } else {
        push_u64_dec(n as u64, out);
    }
}

/// Appends the characters of a literal.
#[verifier::loop_isolation(false)]
fn push_str_chars(s: &str, out: &mut Vec<char>)
    ensures
        final(out)@ == old(out)@ + s@,
{
    let chars = crate::text::str_to_chars(s);
    let mut i: usize = 0;
    while i < chars.len()
        invariant
            i <= chars@.len(),
            out@ =~= old(out)@ + chars@.take(i as int),
        decreases chars@.len() - i,
    {
        out.push(chars[i]);
        proof {
            assert(out@ =~= old(out)@ + chars@.take(i as int + 1));
        }
        i = i + 1;
    }
    proof {
        assert(chars@.take(i as int) =~= s@);
    }
}

/// Appends the rendering of a value.
#[verifier::loop_isolation(false)]
fn render_into(e: &Exp, out: &mut Vec<char>)
    ensures
        final(out)@ == old(out)@ + render(e@),
    decreases e, 0int,
{
    match e {
        Exp::Bool(b) => {
            if *b {
                push_str_chars("true", out);
            } else {
                push_str_chars("false", out);
            }
        },
        Exp::Symbol(s) => {
            out.push('\'');
            push_str_chars(s.as_str(), out);
            proof {
                assert(final(out)@ =~= old(out)@ + (seq!['\''] + s@));
            }
        },
        Exp::Number(n) => {
            push_i64_dec(*n, out);
        },
        Exp::List(l) => {
            out.push('[');
            render_items_into(l, 0, out);
            out.push(']');
            proof {
                assert(final(out)@ =~= old(out)@ + (seq!['['] + render_items_from(
                    crate::exp::views_of(l@),
                    0,
                ) + seq![']']));
            }
        },
        Exp::Closure(_) => {
            push_str_chars("<Closure>", out);
        },
        Exp::Primitive(_) => {
            push_str_chars("<Primitive>", out);
        },
        Exp::Empty => {
            proof {
                assert(final(out)@ =~= old(out)@ + Seq::<char>::empty());
            }
        },
    }
}

/// Appends the renderings of the elements from `from` on, comma-joined.
fn render_items_into(l: &Vec<Exp>, from: usize, out: &mut Vec<char>)
    requires
        from <= l@.len(),
    ensures
        final(out)@ == old(out)@ + render_items_from(crate::exp::views_of(l@), from as int),
    decreases l@, l@.len() - from,
{
    let ghost lv = crate::exp::views_of(l@);
    if from >= l.len() {
        proof {
            assert(out@ =~= old(out)@ + render_items_from(lv, from as int));
        }
        return ;
    }
    proof {
        assert(lv[from as int] == l@[from as int]@);
    }
    render_into(&l[from], out);
    if from + 1 < l.len() {
        push_str_chars(", ", out);
        render_items_into(l, from + 1, out);
        proof {
            assert(final(out)@ =~= old(out)@ + (render(lv[from as int]) + ", "@
                + render_items_from(lv, from as int + 1)));
        }
    } else {
        proof {
            assert(final(out)@ =~= old(out)@ + render_items_from(lv, from as int));
        }
    }
}

impl Exp {
    /// The text this value prints as.
    pub fn to_display_string(&self) -> (r: String)
        ensures
            r@ == render(self@),
    {
        let mut out: Vec<char> = Vec::new();
        render_into(self, &mut out);
        string_from_chars(&out)
    }
}

} // verus!
