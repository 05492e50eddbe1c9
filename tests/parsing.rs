use lisp::{parse, print_ast_children, Lval, RisprError};

fn program(line: &str) -> Vec<Box<Lval>> {
    match parse(line) {
        Ok(Lval::Sexp(children)) => children,
        Ok(_) => panic!("a program is a list"),
        Err(e) => panic!("{} failed: {}", line, e.message()),
    }
}

#[test]
fn unbalanced_line_fails() {
    let r = parse("(+ 1 2");
    assert!(matches!(r, Err(RisprError::ParseError(_))));
    assert_eq!(r.unwrap_err().message(), "missing ')'");
}

#[test]
fn parse_is_deterministic() {
    let line = "(+ 1 (* 2 3) 4)";
    assert_eq!(parse(line).unwrap(), parse(line).unwrap());
}

#[test]
fn tree_shape() {
    let expected = Lval::Sexp(vec![Box::new(Lval::Sexp(vec![
        Box::new(Lval::Sym("+".to_string())),
        Box::new(Lval::Num(1)),
        Box::new(Lval::Sexp(vec![
            Box::new(Lval::Sym("*".to_string())),
            Box::new(Lval::Num(-2)),
            Box::new(Lval::Num(3)),
        ])),
    ]))]);
    assert_eq!(parse("(+ 1 (* -2 3))").unwrap(), expected);
}

#[test]
fn print_round_trip() {
    let line = "  ( +   1(* 2 -3)   4 )  (- 5)";
    let printed = print_ast_children(&program(line));
    assert_eq!(printed, "(+ 1 (* 2 -3) 4) (- 5)");
    assert_eq!(parse(&printed).unwrap(), parse(line).unwrap());
}

#[test]
fn tree_text() {
    assert_eq!(parse("(+ 1 2)").unwrap().to_string(), "((+ 1 2))");
    assert_eq!(parse("-9223372036854775808").unwrap().to_string(), "(-9223372036854775808)");
}

#[test]
fn numeral_out_of_range() {
    let r = parse("(+ 9223372036854775808 1)");
    assert!(matches!(r, Err(RisprError::ParseError(_))));
    assert_eq!(r.unwrap_err().message(), "unexpected input at column 4");
    assert_eq!(program("-9223372036854775808"), vec![Box::new(Lval::Num(i64::MIN))]);
}

#[test]
fn unexpected_character() {
    let r = parse("(+ 1 x)");
    assert_eq!(r.unwrap_err().message(), "unexpected input at column 6");
}

#[test]
fn empty_input() {
    assert_eq!(parse("").unwrap_err().message(), "empty input");
    assert_eq!(parse("   ").unwrap_err().message(), "empty input");
}

#[test]
fn empty_list() {
    assert_eq!(parse("(+ ())").unwrap_err().message(), "empty expression '()' at column 4");
}

#[test]
fn stray_close() {
    assert_eq!(parse("(+ 1 2))").unwrap_err().message(), "unexpected ')' at column 8");
    assert_eq!(parse(")").unwrap_err().message(), "unexpected ')' at column 1");
}

#[test]
fn sign_without_digits_is_a_symbol() {
    assert_eq!(
        program("(- 1)"),
        vec![Box::new(Lval::Sexp(vec![
            Box::new(Lval::Sym("-".to_string())),
            Box::new(Lval::Num(1)),
        ]))]
    );
    assert_eq!(program("-"), vec![Box::new(Lval::Sym("-".to_string()))]);
}
