//! Larger programs: recursion through closures, and deep captured
//! scopes.

use rusk::reader::Reader;
use rusk::run::Interp;

fn check_io(pairs: Vec<(&str, &str)>) {
    let mut env = Interp::new();
    for (input, output) in pairs {
        let lines: Vec<String> = input.lines().map(|s| s.to_string()).collect();
        let mut reader = Reader::new(lines);
        let left = match reader.read_next_exp() {
            Ok(exp) => match env.eval_exp(exp) {
                Ok(v) => format!("Ok({})", v.to_display_string()),
                Err(e) => format!("Err({})", e.reason()),
            },
            Err(e) => format!("Error: {}", e.reason()),
        };
        assert_eq!(left, output.to_string());
    }
}

#[test]
fn fibonacci() {
    check_io(vec![
        (
            "(define fib (lambda (n) (if (< n 2) 1 (+ (fib (- n 1)) (fib (- n 2))))))",
            "Ok()",
        ),
        (
            "(fib 20)", 
            "Ok(10946)"
        ),
        (
            "(define range (lambda (a b) (if (= a b) (quote ()) (cons a (range (+ a 1) b)))))",
            "Ok()",
        ),
        (
            "(define map (lambda (f l) (if (null? l) null (cons (f (car l)) (map f (cdr l))))))",
            "Ok()",
        ),
        (
            "(range 0 10)",
            "Ok([0, [1, [2, [3, [4, [5, [6, [7, [8, [9, []]]]]]]]]]])",
        ),
        (
            "(map fib (range 0 10))",
            "Ok([1, [1, [2, [3, [5, [8, [13, [21, [34, [55, \
             []]]]]]]]]]])",
        ),
    ]);
}

#[test]
fn man_or_boy() {
    check_io(vec![
        (
            "(define A (lambda (k x1 x2 x3 x4 x5) 
                (define B (lambda () (set! k (- k 1)) (A k B x1 x2 x3 x4))) 
                (if (<= k 0) (+ (x4) (x5)) (B))))",
            "Ok()",
        ),
        (
            "(A 4 (lambda () 1) (lambda () -1) (lambda () -1) (lambda () 1) (lambda () 0))",
            "Ok(1)",
        ),
    ]);
}

#[test]
fn fibonacci_long() {
    check_io(vec![
        (
            "(define fib (lambda (n) (if (< n 2) 1 (+ (fib (- n 1)) (fib (- n 2))))))",
            "Ok()",
        ),
        (
            "(define range (lambda (a b) (if (= a b) (quote ()) (cons a (range (+ a 1) b)))))",
            "Ok()",
        ),
        (
            "(define map (lambda (f l) (if (null? l) null (cons (f (car l)) (map f (cdr l))))))",
            "Ok()",
        ),
        (
            "(map fib (range 0 20))",
            "Ok([1, [1, [2, [3, [5, [8, [13, [21, [34, [55, [89, [144, \
             [233, [377, [610, [987, [1597, [2584, [4181, [6765, \
             []]]]]]]]]]]]]]]]]]]]])",
        ),
    ]);
}
