//! The two desugaring rules, driven end to end through the reader.

use rusk::reader::Reader;
use rusk::run::Interp;

fn check_io(pairs: Vec<(&str, &str)>) {
    let mut env = Interp::new();
    for (input, output) in pairs {
        let lines: Vec<String> = input.lines().map(|s| s.to_string()).collect();
        let mut reader = Reader::new(lines);
        let left = match reader.read_next_exp() {
            Ok(exp) => match env.eval_exp(exp) {
                Ok(v) => format!("Ok({})", v.to_display_string()),
                Err(e) => format!("Err({})", e.reason()),
            },
            Err(e) => format!("Error: {}", e.reason()),
        };
        assert_eq!(left, output.to_string());
    }
}

#[test]
fn sugar_lambda() {
    check_io(vec![(
        "((lambda (x y z)
                (quote whatever)
                (+ x
                   (+ y z))) 1
                             2
                             3)",
        "Ok(6)",
    )]);
}

#[test]
fn sugar_define_definition() {
    check_io(vec![
        (
            "(define (add3 x y z)
                (+ x
                   (+ y z)))",
            "Ok()",
        ),
        (
            "(add3 101 
                   102 
                   103))",
            "Ok(306)",
        ),
    ]);
}

#[test]
fn sugar_define_body() {
    check_io(vec![
        (
            "(define (three)
                (quote whatever)
                (define one (lambda () 1))
                (+ (one) 2))",
            "Ok()",
        ),
        ("(three)", "Ok(3)"),
    ]);
}
