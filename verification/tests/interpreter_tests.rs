use lsymc::interpreter::{eval_lsymc, EvalError};
use lsymc::lexer::Lexer;
use lsymc::lsymc::Lsymc;
use lsymc::parser::parse;
use lsymc::store::Store;

fn run(src: &str) -> (Result<Lsymc, EvalError>, Vec<String>) {
    let toks = Lexer::lex(src).unwrap();
    let tree = parse(toks).unwrap();
    let mut st = Store::new();
    let mut out: Vec<String> = Vec::new();
    let r = eval_lsymc(&tree, &mut st, &mut out);
    (r, out)
}

fn run_in(src: &str, st: &mut Store) -> (Result<Lsymc, EvalError>, Vec<String>) {
    let toks = Lexer::lex(src).unwrap();
    let tree = parse(toks).unwrap();
    let mut out: Vec<String> = Vec::new();
    let r = eval_lsymc(&tree, st, &mut out);
    (r, out)
}

#[test]
fn atoms_self_evaluate() {
    let mut st = Store::new();
    let mut out: Vec<String> = Vec::new();
    for v in [
        Lsymc::Int(7),
        Lsymc::Float("2.5".to_owned()),
        Lsymc::String("hi".to_owned()),
        Lsymc::Bool(true),
        Lsymc::Nil,
    ] {
        let r = eval_lsymc(&v, &mut st, &mut out).unwrap();
        assert_eq!(r, v);
        // Re-evaluating the already-evaluated atom is a no-op.
        let again = eval_lsymc(&r, &mut st, &mut out).unwrap();
        assert_eq!(again, v);
    }
    assert!(out.is_empty());
}

fn eval_ident(name: &str, st: &mut Store) -> Result<Lsymc, EvalError> {
    let mut out: Vec<String> = Vec::new();
    eval_lsymc(&Lsymc::Ident(name.to_owned()), st, &mut out)
}

#[test]
fn reserved_literal_names() {
    let mut st = Store::new();
    assert_eq!(eval_ident("#true", &mut st).unwrap(), Lsymc::Bool(true));
    assert_eq!(eval_ident("#false", &mut st).unwrap(), Lsymc::Bool(false));
    assert_eq!(eval_ident("#nil", &mut st).unwrap(), Lsymc::Nil);
    // The reserved names are intercepted before any lookup: a binding of
    // the same name is never observable.
    st.set("#true", Lsymc::Int(0));
    assert_eq!(eval_ident("#true", &mut st).unwrap(), Lsymc::Bool(true));
}

#[test]
fn unbound_symbol() {
    let mut st = Store::new();
    assert_eq!(
        eval_ident("nosuch", &mut st),
        Err(EvalError::UnboundSymbol("nosuch".to_owned()))
    );
}

#[test]
fn def_body_sees_bindings() {
    let (r, _) = run("(def ((x 10) (y 20)) (+ x y))");
    assert_eq!(r.unwrap(), Lsymc::Int(30));
}

#[test]
fn def_bindings_not_recursive() {
    // A bound expression is evaluated in the enclosing scope, so a sibling
    // binding's name is not visible to it.
    let (r, _) = run("(def ((x 1) (y x)) y)");
    assert_eq!(r, Err(EvalError::UnboundSymbol("x".to_owned())));
}

#[test]
fn def_last_body_wins() {
    let (r, _) = run("(def ((x 1)) 5 6)");
    assert_eq!(r.unwrap(), Lsymc::Int(6));
}

#[test]
fn def_inner_shadows_outer() {
    let (r, _) = run("(def ((x 1)) (def ((x 2)) x))");
    assert_eq!(r.unwrap(), Lsymc::Int(2));
    let (r, _) = run("(def ((x 1)) (def ((y 2)) x))");
    assert_eq!(r.unwrap(), Lsymc::Int(1));
}

#[test]
fn def_scope_is_discarded() {
    let mut st = Store::new();
    let (r, _) = run_in("(def ((x 1)) x)", &mut st);
    assert_eq!(r.unwrap(), Lsymc::Int(1));
    // The child scope is gone afterwards.
    assert_eq!(
        eval_ident("x", &mut st),
        Err(EvalError::UnboundSymbol("x".to_owned()))
    );
}

#[test]
fn def_shape_errors() {
    assert_eq!(run("(def ((x 1)))").0, Err(EvalError::InvalidDefStatement));
    assert_eq!(run("(def 5 5)").0, Err(EvalError::InvalidDefBinds));
    assert_eq!(run("(def (5) x)").0, Err(EvalError::InvalidDefBinding));
    assert_eq!(run("(def ((x 1 2)) x)").0, Err(EvalError::InvalidDefBinding));
    assert_eq!(run("(def ((5 1)) x)").0, Err(EvalError::InvalidDefBinding));
}

#[test]
fn defn_yields_nil() {
    let (r, _) = run("(defn add (x y) (+ x y))");
    assert_eq!(r.unwrap(), Lsymc::Nil);
}

#[test]
fn integer_arithmetic() {
    assert_eq!(run("(+ 1 2)").0.unwrap(), Lsymc::Int(3));
    assert_eq!(run("(- 10 3 2)").0.unwrap(), Lsymc::Int(5));
    assert_eq!(run("(* 2 3 4)").0.unwrap(), Lsymc::Int(24));
    assert_eq!(run("(/ 7 2)").0.unwrap(), Lsymc::Int(3));
    assert_eq!(run("(+ 5)").0.unwrap(), Lsymc::Int(5));
}

#[test]
fn arithmetic_wraps_around() {
    assert_eq!(
        run("(+ 9223372036854775807 1)").0.unwrap(),
        Lsymc::Int(i64::MIN)
    );
}

#[test]
fn division_by_zero() {
    assert_eq!(run("(/ 1 0)").0, Err(EvalError::DivisionByZero));
}

#[test]
fn division_wraps_at_the_edge() {
    // The smallest integer divided by minus one wraps around to itself.
    assert_eq!(
        run("(/ (- 0 9223372036854775807 1) (- 0 1))").0.unwrap(),
        Lsymc::Int(i64::MIN)
    );
}

#[test]
fn float_operands_rejected() {
    // This library does no floating-point arithmetic: a float literal is a
    // value, not an operand.
    assert_eq!(run("(+ 1 2.5)").0, Err(EvalError::FloatOperand));
    assert_eq!(run("(< 1.5 2)").0, Err(EvalError::FloatOperand));
}

#[test]
fn non_numeric_operand() {
    let (r, _) = run("(+ 1 \"a\")");
    assert_eq!(r, Err(EvalError::NotANumber(Lsymc::String("a".to_owned()))));
}

#[test]
fn comparisons() {
    assert_eq!(run("(< 1 2)").0.unwrap(), Lsymc::Bool(true));
    assert_eq!(run("(> 1 2)").0.unwrap(), Lsymc::Bool(false));
    assert_eq!(run("(= 2 2)").0.unwrap(), Lsymc::Bool(true));
    assert_eq!(run("(! 2 2)").0.unwrap(), Lsymc::Bool(false));
    assert_eq!(run("(< 1)").0, Err(EvalError::ArityMismatch));
    assert_eq!(run("(< 1 2 3)").0, Err(EvalError::ArityMismatch));
}

#[test]
fn arity_errors() {
    assert_eq!(run("(+)").0, Err(EvalError::ArityMismatch));
    assert_eq!(run("(length)").0, Err(EvalError::ArityMismatch));
    assert_eq!(run("(is-empty)").0, Err(EvalError::ArityMismatch));
}

#[test]
fn unknown_keyword() {
    assert_eq!(run("(5 5)").0, Err(EvalError::UnknownKeyword));
    assert_eq!(run("()").0, Err(EvalError::UnknownKeyword));
    assert_eq!(run("(nosuchform 1)").0, Err(EvalError::UnknownKeyword));
}

#[test]
fn length_and_is_empty() {
    let mut st = Store::new();
    st.set(
        "xs",
        Lsymc::List(vec![Lsymc::Int(1), Lsymc::Int(2), Lsymc::Int(3)]),
    );
    st.set("ys", Lsymc::List(vec![]));
    assert_eq!(run_in("(length xs)", &mut st).0.unwrap(), Lsymc::Int(3));
    assert_eq!(
        run_in("(is-empty xs)", &mut st).0.unwrap(),
        Lsymc::Bool(false)
    );
    assert_eq!(run_in("(length ys)", &mut st).0.unwrap(), Lsymc::Int(0));
    assert_eq!(
        run_in("(is-empty ys)", &mut st).0.unwrap(),
        Lsymc::Bool(true)
    );
    assert_eq!(
        run_in("(length 5)", &mut st).0,
        Err(EvalError::NotAList(Lsymc::Int(5)))
    );
    assert_eq!(
        run_in("(is-empty 5)", &mut st).0,
        Err(EvalError::NotANullableList(Lsymc::Int(5)))
    );
}

#[test]
fn print_produces_one_line() {
    let (r, out) = run("(print 1 \"two\" 3.5)");
    assert_eq!(r.unwrap(), Lsymc::Nil);
    assert_eq!(out, vec!["1 two 3.5".to_owned()]);
}

#[test]
fn print_in_binding_order() {
    // Left-to-right evaluation order is observable through print.
    let (r, out) = run("(def ((a (print 1)) (b (print 2))) (print 3))");
    assert_eq!(r.unwrap(), Lsymc::Nil);
    assert_eq!(
        out,
        vec!["1".to_owned(), "2".to_owned(), "3".to_owned()]
    );
}

#[test]
fn bare_keyword_not_applicable() {
    let mut st = Store::new();
    let mut out: Vec<String> = Vec::new();
    let r = eval_lsymc(&Lsymc::Def, &mut st, &mut out);
    assert_eq!(r, Err(EvalError::UnknownKeyword));
    let r = eval_lsymc(&Lsymc::If, &mut st, &mut out);
    assert_eq!(r, Err(EvalError::UnknownKeyword));
}
