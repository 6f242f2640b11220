//! The incremental reader driving the evaluator, as the interactive
//! front end does.

use rusk::reader::Reader;
use rusk::run::Interp;

fn check_io(pairs: Vec<(&str, &str)>) {
    let mut env = Interp::new();
    for (input, output) in pairs {
        let lines: Vec<String> = input.lines().map(|s| s.to_string()).collect();
        let mut reader = Reader::new(lines);
        let left = match reader.read_next_exp() {
            Ok(exp) => match env.eval_exp(exp) {
                Ok(v) => format!("Ok({})", v.to_display_string()),
                Err(e) => format!("Err({})", e.reason()),
            },
            Err(e) => format!("Error: {}", e.reason()),
        };
        assert_eq!(left, output.to_string());
    }
}

#[test]
fn plus_simple() {
    check_io(vec![("(+ 1 2)", "Ok(3)")]);
}

#[test]
fn plus_nested() {
    check_io(vec![("(+ 1 (* 2 3))", "Ok(7)")]);
}

#[test]
fn quote() {
    check_io(vec![("(quote (1 2 3))", "Ok([1, 2, 3])")]);
}

#[test]
fn define_val() {
    check_io(vec![
        ("(define x 3)", "Ok()"),
        ("x", "Ok(3)"),
        ("(+ x 1)", "Ok(4)"),
    ]);
}

#[test]
fn define_proc_basic() {
    check_io(vec![
        ("(define x 3)", "Ok()"),
        ("x", "Ok(3)"),
        ("(define one (lambda () 1))", "Ok()"),
        ("(one)", "Ok(1)"),
        ("(+ (one) (+ 2 x))", "Ok(6)"),
    ]);
}

#[test]
fn define_proc_call_prim() {
    check_io(vec![
        ("(define x 3)", "Ok()"),
        ("x", "Ok(3)"),
        ("(define inc (lambda (x) (+ x 1)))", "Ok()"),
        ("(inc 100)", "Ok(101)"),
        ("(inc x)", "Ok(4)"),
    ]);
}

#[test]
fn cond() {
    check_io(vec![
        ("(if #t 123 wtf)", "Ok(123)"),
        ("(if #f wtf 123)", "Ok(123)"),
        ("(cond (#f wtf0) (#f wtf1) (#t 456) (else wtf3))", "Ok(456)"),
        ("(cond (#f wtf0) (#f wtf1) (#f wtf2) (else 789))", "Ok(789)"),
    ]);
}

#[test]
fn eq() {
    check_io(vec![
        ("(define one (lambda () 1))", "Ok()"),
        ("(= 1 1)", "Ok(true)"),
        ("(= 1 (one))", "Ok(true)"),
        ("(if (= 1 (one)) 123 wtf)", "Ok(123)"),
        ("(if (= (one) (+ 4 5)) wtf 123)", "Ok(123)"),
    ]);
}

#[test]
fn cons_car_cdr() {
    check_io(vec![
        ("(car (cons 123 456))", "Ok(123)"),
        ("(cdr (cons 123 456))", "Ok(456)"),
        ("(define p (cons (cons 1 2) (cons 3 4)))", "Ok()"),
        ("(cdr (car p))", "Ok(2)"),
        ("(cdr p)", "Ok([3, 4])"),
        ("p", "Ok([[1, 2], [3, 4]])"),
        ("(define l (cons 1 (cons 2 (cons 3 null))))", "Ok()"),
        ("(car (cdr l))", "Ok(2)"),
        ("(cdr (cdr (cdr l)))", "Ok([])"),
    ]);
}

#[test]
fn begin() {
    check_io(vec![(
        "(begin (define one (lambda () 1)) (+ (one) 2))",
        "Ok(3)",
    )]);
}

#[test]
fn multiline_simple() {
    check_io(vec![(
        "(begin
            (define one
                (lambda () 1))
            (+ (one) 2))",
        "Ok(3)",
    )]);
}

#[test]
fn multiline_comment() {
    check_io(vec![(
        "(begin
            (define one ; something here
                ; generating the number 1
                ;; more quotes
                (lambda () 1))
            (+ (one) 2))",
        "Ok(3)",
    )]);
}

#[test]
fn inline_lambda() {
    check_io(vec![(
        "((lambda (x y z)
                (+ x
                   (+ y z))) 1
                             2
                             3)",
        "Ok(6)",
    )]);
}
