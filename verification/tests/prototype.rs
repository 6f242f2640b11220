//! The whole-string front end: `tokenize`, `parse`, and evaluation of
//! what they produce.

use rusk::parser::{parse, tokenize};
use rusk::exp::Exp;
use rusk::run::Interp;

fn check_io_str(input: &str, output: &str, it: &mut Interp) {
    let left = match parse(input) {
        Ok(exp) => match it.eval_exp(exp) {
            Ok(v) => format!("Ok({})", v.to_display_string()),
            Err(e) => format!("Err({})", e.reason()),
        },
        Err(e) => format!("Error: {}", e.reason()),
    };
    assert_eq!(left, output);
}

#[test]
fn test_tokenize() {
    let left = "(+ 1 2)";
    let right: Vec<String> = vec!["(", "+", "1", "2", ")"]
        .iter()
        .map(|x| x.to_string())
        .collect();
    assert_eq!(tokenize(left), right)
}

#[test]
fn test_parse() {
    let left = "(+ 1 2)";
    let right: Vec<Exp> = vec![
        Exp::Symbol("+".to_string()),
        Exp::Number(1),
        Exp::Number(2),
    ]
    .into_iter()
    .collect();
    let left = match parse(left) {
        Ok(Exp::List(l)) => l,
        _ => panic!("should parse to a list"),
    };
    for (l, r) in left.iter().zip(right.iter()) {
        match (l, r) {
            (Exp::Symbol(ls), Exp::Symbol(rs)) => assert_eq!(ls, rs),
            (Exp::Number(lf), Exp::Number(rf)) => assert_eq!(lf, rf),
            _ => panic!("should be Symbol or Number"),
        }
    }
}

#[test]
fn test_plus() {
    let mut env = Interp::new();
    check_io_str("(+ 1 2)", "Ok(3)", &mut env);
}

#[test]
fn test_plus_nested() {
    let mut env = Interp::new();
    check_io_str("(+ 1 (* 2 3))", "Ok(7)", &mut env);
}

#[test]
fn test_quote() {
    let mut env = Interp::new();
    check_io_str("(quote (1 2 3))", "Ok([1, 2, 3])", &mut env);
}

#[test]
fn test_define_val() {
    let mut env = Interp::new();
    check_io_str("(define x 3)", "Ok()", &mut env);
    check_io_str("x", "Ok(3)", &mut env);
    check_io_str("(+ x 1)", "Ok(4)", &mut env);
}

#[test]
fn test_define_proc_basic() {
    let mut env = Interp::new();
    check_io_str("(define x 3)", "Ok()", &mut env);
    check_io_str("x", "Ok(3)", &mut env);
    check_io_str("(define one (lambda () 1))", "Ok()", &mut env);
    check_io_str("(one)", "Ok(1)", &mut env);
    check_io_str("(+ (one) (+ 2 x))", "Ok(6)", &mut env);
}

#[test]
fn test_define_proc_call_prim() {
    let mut env = Interp::new();
    check_io_str("(define x 3)", "Ok()", &mut env);
    check_io_str("x", "Ok(3)", &mut env);
    check_io_str("(define inc (lambda (x) (+ x 1)))", "Ok()", &mut env);
    check_io_str("(inc 100)", "Ok(101)", &mut env);
    check_io_str("(inc x)", "Ok(4)", &mut env);
}

#[test]
fn test_cond() {
    let mut env = Interp::new();
    check_io_str("(if #t 123 wtf)", "Ok(123)", &mut env);
    check_io_str("(if #f wtf 123)", "Ok(123)", &mut env);
    check_io_str(
        "(cond (#f wtf0) (#f wtf1) (#t 456) (else wtf3))",
        "Ok(456)",
        &mut env,
    );
    check_io_str(
        "(cond (#f wtf0) (#f wtf1) (#f wtf2) (else 789))",
        "Ok(789)",
        &mut env,
    );
}

#[test]
fn test_eq() {
    let mut env = Interp::new();
    check_io_str("(define one (lambda () 1))", "Ok()", &mut env);
    check_io_str("(= 1 1)", "Ok(true)", &mut env);
    check_io_str("(= 1 (one))", "Ok(true)", &mut env);
    check_io_str("(if (= 1 (one)) 123 wtf)", "Ok(123)", &mut env);
    check_io_str("(if (= (one) (+ 4 5)) wtf 123)", "Ok(123)", &mut env);
}

#[test]
fn test_cons() {
    let mut env = Interp::new();
    check_io_str("(car (cons 123 456))", "Ok(123)", &mut env);
    check_io_str("(cdr (cons 123 456))", "Ok(456)", &mut env);
    check_io_str("(define p (cons (cons 1 2) (cons 3 4)))", "Ok()", &mut env);
    check_io_str("(cdr (car p))", "Ok(2)", &mut env);
    check_io_str("(cdr p)", "Ok([3, 4])", &mut env);
    check_io_str("p", "Ok([[1, 2], [3, 4]])", &mut env);
    check_io_str("(define l (cons 1 (cons 2 (cons 3 null))))", "Ok()", &mut env);
    check_io_str("(car (cdr l))", "Ok(2)", &mut env);
    check_io_str("(cdr (cdr (cdr l)))", "Ok([])", &mut env);
}

#[test]
fn test_fibonacci() {
    let mut env = Interp::new();
    check_io_str(
        "(define fib (lambda (n) (if (< n 2) 1 (+ (fib (- n 1)) (fib (- n 2))))))",
        "Ok()",
        &mut env,
    );
    check_io_str("(fib 20)", "Ok(10946)", &mut env);
    check_io_str(
        "(define range (lambda (a b) (if (= a b) (quote ()) (cons a (range (+ a 1) b)))))",
        "Ok()",
        &mut env,
    );
    check_io_str(
        "(define map (lambda (f l) (if (null? l) null (cons (f (car l)) (map f (cdr l))))))",
        "Ok()",
        &mut env,
    );
    check_io_str(
        "(range 0 10)",
        "Ok([0, [1, [2, [3, [4, [5, [6, [7, [8, [9, []]]]]]]]]]])",
        &mut env,
    );
    check_io_str(
        "(map fib (range 0 20))",
        "Ok([1, [1, [2, [3, [5, [8, [13, [21, [34, [55, [89, [144, [233, [377, [610, [987, [1597, [2584, [4181, [6765, []]]]]]]]]]]]]]]]]]]]])",
        &mut env,
    );
}

#[test]
fn test_set() {
    let mut env = Interp::new();
    check_io_str("(define inc (lambda (x) (+ x 1)))", "Ok()", &mut env);
    check_io_str("(define x 3)", "Ok()", &mut env);
    check_io_str("(set! x (inc x))", "Ok()", &mut env);
    check_io_str("x", "Ok(4)", &mut env);
    check_io_str("(set! x (inc x))", "Ok()", &mut env);
    check_io_str("x", "Ok(5)", &mut env);
}
