//! Edge cases and error variants: one input for each error the engine
//! can report, the documented scope laws on concrete programs, and the
//! number model's corners.

use rusk::desugar::desugar;
use rusk::exp::Exp;
use rusk::parser::{atom, parse};
use rusk::reader::Reader;
use rusk::run::Interp;

fn run_one(env: &mut Interp, input: &str) -> String {
    let lines: Vec<String> = input.lines().map(|s| s.to_string()).collect();
    let mut reader = Reader::new(lines);
    match reader.read_next_exp() {
        Ok(exp) => match env.eval_exp(exp) {
            Ok(v) => format!("Ok({})", v.to_display_string()),
            Err(e) => format!("Err({})", e.reason()),
        },
        Err(e) => format!("Error: {}", e.reason()),
    }
}

#[test]
fn self_evaluating_atoms() {
    let mut env = Interp::new();
    assert_eq!(env.eval_exp(Exp::Number(42)).unwrap().to_display_string(), "42");
    assert_eq!(env.eval_exp(Exp::Number(-7)).unwrap().to_display_string(), "-7");
    assert_eq!(env.eval_exp(Exp::Bool(true)).unwrap().to_display_string(), "true");
    assert_eq!(env.eval_exp(Exp::Bool(false)).unwrap().to_display_string(), "false");
}

#[test]
fn inner_scope_shadows_and_is_discarded() {
    let mut env = Interp::new();
    assert_eq!(run_one(&mut env, "(define x 1)"), "Ok()");
    assert_eq!(run_one(&mut env, "((lambda (x) x) 2)"), "Ok(2)");
    assert_eq!(run_one(&mut env, "x"), "Ok(1)");
}

#[test]
fn set_mutates_defining_scope_through_closure() {
    let mut env = Interp::new();
    assert_eq!(run_one(&mut env, "(define x 3)"), "Ok()");
    assert_eq!(run_one(&mut env, "(define bump (lambda () (set! x (+ x 1))))"), "Ok()");
    assert_eq!(run_one(&mut env, "(bump)"), "Ok()");
    assert_eq!(run_one(&mut env, "x"), "Ok(4)");
}

#[test]
fn arithmetic_and_comparison() {
    let mut env = Interp::new();
    assert_eq!(run_one(&mut env, "(+ 1 2)"), "Ok(3)");
    assert_eq!(run_one(&mut env, "(* 2 3)"), "Ok(6)");
    assert_eq!(run_one(&mut env, "(= 1 1)"), "Ok(true)");
    assert_eq!(run_one(&mut env, "(< 1 2)"), "Ok(true)");
    assert_eq!(run_one(&mut env, "(<= 1 1)"), "Ok(true)");
    assert_eq!(run_one(&mut env, "(> 2 1)"), "Ok(true)");
    assert_eq!(run_one(&mut env, "(>= 1 2)"), "Ok(false)");
    assert_eq!(run_one(&mut env, "(- 0 5)"), "Ok(-5)");
    assert_eq!(run_one(&mut env, "(+)"), "Ok(0)");
    assert_eq!(run_one(&mut env, "(*)"), "Ok(1)");
    assert_eq!(run_one(&mut env, "(+ 1 2 3 4)"), "Ok(10)");
}

#[test]
fn division_truncates_toward_zero() {
    let mut env = Interp::new();
    assert_eq!(run_one(&mut env, "(/ 7 2)"), "Ok(3)");
    assert_eq!(run_one(&mut env, "(/ (- 0 7) 2)"), "Ok(-3)");
    assert_eq!(run_one(&mut env, "(/ 7 (- 0 2))"), "Ok(-3)");
}

#[test]
fn arithmetic_errors() {
    let mut env = Interp::new();
    assert_eq!(run_one(&mut env, "(+ 1 #t)"), "Err(add: expected Exp::Number)");
    assert_eq!(run_one(&mut env, "(- 1 #f)"), "Err(sub: expected Exp::Number)");
    assert_eq!(run_one(&mut env, "(/ 1 0)"), "Err(div: division by zero)");
    assert_eq!(
        run_one(&mut env, "(+ 9223372036854775807 1)"),
        "Err(add: Number overflow)"
    );
    assert_eq!(
        run_one(&mut env, "(* 4611686018427387904 2)"),
        "Err(mul: Number overflow)"
    );
}

#[test]
fn undefined_symbol_is_an_error() {
    let mut env = Interp::new();
    assert_eq!(run_one(&mut env, "nope"), "Err(eval: Symbol 'nope undefined)");
}

#[test]
fn set_unbound_is_an_error() {
    let mut env = Interp::new();
    assert_eq!(run_one(&mut env, "(set! zz 1)"), "Err(set!: Symbol undefined)");
}

#[test]
fn arity_mismatch_is_an_error() {
    let mut env = Interp::new();
    assert_eq!(run_one(&mut env, "(define f (lambda (x) x))"), "Ok()");
    assert_eq!(run_one(&mut env, "(f 1 2)"), "Err(apply: arity mismatch)");
    assert_eq!(run_one(&mut env, "(f)"), "Err(apply: arity mismatch)");
}

#[test]
fn form_errors() {
    let mut env = Interp::new();
    assert_eq!(run_one(&mut env, "(quote)"), "Err(quote: nothing to quote)");
    assert_eq!(run_one(&mut env, "(cond (#f 1))"), "Err(cond: missing else clause)");
    assert_eq!(run_one(&mut env, "(if #t 1)"), "Err(if: missing else clause)");
    assert_eq!(run_one(&mut env, "(define 5 1)"), "Err(define: expected Symbol)");
    assert_eq!(run_one(&mut env, "(1 2)"), "Err(eval: head of the list is not a function)");
    assert_eq!(run_one(&mut env, "()"), "Err(eval: expect a non-empty list)");
}

#[test]
fn list_primitive_errors() {
    let mut env = Interp::new();
    assert_eq!(run_one(&mut env, "(car 5)"), "Err(car: expected a List)");
    assert_eq!(run_one(&mut env, "(cdr 5)"), "Err(cdr: expected a List)");
    assert_eq!(run_one(&mut env, "(car null)"), "Err(car: expected a List of length 2)");
    assert_eq!(run_one(&mut env, "(null? 5)"), "Err(null?: expected a List)");
    assert_eq!(run_one(&mut env, "(null? null)"), "Ok(true)");
    assert_eq!(run_one(&mut env, "(null? (cons 1 null))"), "Ok(false)");
    assert_eq!(run_one(&mut env, "(cons 1)"), "Err(cons: expected two Exp to cons)");
}

#[test]
fn parse_errors() {
    assert_eq!(
        parse(")").unwrap_err().reason().as_str(),
        "gen_ast: Extra \")\" found"
    );
    assert_eq!(parse("(+ 1 2").unwrap_err().reason().as_str(), "gen_ast: Mismatched parens");
    assert_eq!(parse("").unwrap_err().reason().as_str(), "gen_ast: Unexpected EOF");
    let mut env = Interp::new();
    assert_eq!(run_one(&mut env, ")"), "Error: parser: Extra \")\" found");
    assert_eq!(run_one(&mut env, "(+ 1 2"), "Error: parser: Unexpected EOF");
}

#[test]
fn atom_classifies_numbers_and_symbols() {
    match atom("42") {
        Exp::Number(n) => assert_eq!(n, 42),
        _ => panic!("42 should be a number"),
    }
    match atom("-42") {
        Exp::Number(n) => assert_eq!(n, -42),
        _ => panic!("-42 should be a number"),
    }
    match atom("+7") {
        Exp::Number(n) => assert_eq!(n, 7),
        _ => panic!("+7 should be a number"),
    }
    match atom("1.5") {
        Exp::Symbol(s) => assert_eq!(s, "1.5"),
        _ => panic!("a fraction is not a machine integer"),
    }
    match atom("-") {
        Exp::Symbol(s) => assert_eq!(s, "-"),
        _ => panic!("a bare sign is a symbol"),
    }
    match atom("9223372036854775807") {
        Exp::Number(n) => assert_eq!(n, 9223372036854775807),
        _ => panic!("i64::MAX should fit"),
    }
    match atom("-9223372036854775808") {
        Exp::Number(n) => assert_eq!(n, -9223372036854775808),
        _ => panic!("i64::MIN should fit"),
    }
    match atom("9223372036854775808") {
        Exp::Symbol(_) => {}
        _ => panic!("one past i64::MAX does not fit"),
    }
}

#[test]
fn define_with_params_sugar() {
    let mut env = Interp::new();
    assert_eq!(run_one(&mut env, "(define (add3 x y z) (+ x (+ y z)))"), "Ok()");
    assert_eq!(run_one(&mut env, "(add3 1 2 3)"), "Ok(6)");
}

#[test]
fn desugaring_is_idempotent_on_canonical_forms() {
    let parsed = parse("(define (f x y) (quote q) (+ x y))").unwrap();
    let once = desugar(parsed).unwrap();
    let rendered_once = once.to_display_string();
    let twice = desugar(once).unwrap();
    assert_eq!(twice.to_display_string(), rendered_once);

    let plain = parse("(lambda (x) (+ x 1))").unwrap();
    let rendered_plain = plain.to_display_string();
    let sweetened = desugar(plain).unwrap();
    assert_eq!(sweetened.to_display_string(), rendered_plain);
}

#[test]
fn desugar_errors() {
    let e = desugar(parse("(define (5) 1)").unwrap()).unwrap_err();
    assert_eq!(e.reason().as_str(), "desugar: can only define a Symbol");
    let e = desugar(parse("(define x)").unwrap()).unwrap_err();
    assert_eq!(e.reason().as_str(), "desugar: too few arguments (2/3)");
    let e = desugar(parse("(define ())").unwrap()).unwrap_err();
    assert_eq!(e.reason().as_str(), "desugar: too few arguments (2/3)");
}

#[test]
fn comments_and_strings_tokenize() {
    let mut env = Interp::new();
    assert_eq!(run_one(&mut env, "; nothing here\n(+ 1 2)"), "Ok(3)");
    assert_eq!(run_one(&mut env, "(quote \"a b\")"), "Ok('\"a b\")");
}

#[test]
fn begin_empty_gives_unit() {
    let mut env = Interp::new();
    assert_eq!(run_one(&mut env, "(begin)"), "Ok()");
}

#[test]
fn cond_skips_unreached_branches() {
    let mut env = Interp::new();
    assert_eq!(
        run_one(&mut env, "(cond (#f whatever) (#t 456) (else missing))"),
        "Ok(456)"
    );
}
