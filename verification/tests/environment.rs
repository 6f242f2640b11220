//! Scope mutation: `set!` writes through to the defining scope.

use rusk::reader::Reader;
use rusk::run::Interp;

fn check_io(pairs: Vec<(&str, &str)>) {
    let mut env = Interp::new();
    for (input, output) in pairs {
        let lines: Vec<String> = input.lines().map(|s| s.to_string()).collect();
        let mut reader = Reader::new(lines);
        let left = match reader.read_next_exp() {
            Ok(exp) => match env.eval_exp(exp) {
                Ok(v) => format!("Ok({})", v.to_display_string()),
                Err(e) => format!("Err({})", e.reason()),
            },
            Err(e) => format!("Error: {}", e.reason()),
        };
        assert_eq!(left, output.to_string());
    }
}

#[test]
fn set_simple() {
    check_io(vec![
        ("(define inc (lambda (x) (+ x 1)))", "Ok()"),
        ("(define x 3)", "Ok()"),
        ("(set! x (inc x))", "Ok()"),
        ("x", "Ok(4)"),
        ("(set! x (inc x))", "Ok()"),
        ("x", "Ok(5)"),
    ]);
}

#[test]
fn set_bank_account() {
    check_io(vec![
        (
            "(define account
                (lambda (bal)
                    (lambda (amt)
                        (begin 
                            (set! bal (+ bal amt)) 
                            bal))))",
            "Ok()",
        ),
        ("(define a1 (account 100))", "Ok()"),
        ("(a1 0)", "Ok(100)"),
        ("(a1 10)", "Ok(110)"),
        ("(a1 10)", "Ok(120)"),
    ]);
}
