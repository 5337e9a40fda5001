//! Round trips through the canonical printer: for every expression form,
//! parsing the printed text gives the same tree (checked here by printing
//! again and comparing the texts, alongside structural spot checks).

use miniml::ast::{BinOp, Expr, MatchPattern, Ty, UnaOp};
use miniml::parser::parse;
use miniml::printer::print_expr;

/// Prints, reparses, and checks that a second print is identical.
fn round_trip(e: &Expr) -> String {
    let text = print_expr(e).expect("tree should be printable");
    let prog = parse(&text).expect("printed text should parse");
    let text2 = print_expr(&prog.main_expr).expect("reparsed tree should print");
    assert_eq!(text2, text);
    text
}

fn round_trip_source(src: &str) -> String {
    let prog = parse(src).expect("source should parse");
    round_trip(&prog.main_expr)
}

#[test]
fn literals_round_trip() {
    assert_eq!(round_trip(&Expr::IntLit { val: 42 }), "42");
    assert_eq!(round_trip(&Expr::UnitLit {}), "()");
}

#[test]
fn variables_and_builtins_round_trip() {
    assert_eq!(round_trip_source("someName"), "someName");
    assert_eq!(round_trip_source("println"), "println");
    assert_eq!(round_trip_source("true"), "true");
    assert_eq!(round_trip_source("false"), "false");
}

#[test]
fn binary_chains_round_trip() {
    let text = round_trip_source("1 + 2 * 3 - 4");
    // the reparse keeps the same association
    let prog = parse(&text).expect("parses");
    match prog.main_expr {
        Expr::Binary { op, .. } => assert_eq!(op, BinOp::Sub),
        _ => panic!("top should be the subtraction"),
    }
}

#[test]
fn comparisons_round_trip() {
    round_trip_source("1 >= 2");
    round_trip_source("1 <= 2");
    round_trip_source("1 > 2");
    round_trip_source("1 < 2");
    round_trip_source("1 == 2");
    round_trip_source("1 != 2");
}

#[test]
fn unary_round_trips() {
    let text = round_trip_source("- - 5");
    let prog = parse(&text).expect("parses");
    assert!(matches!(prog.main_expr, Expr::Unary { op: UnaOp::Neg, .. }));
    round_trip_source("!0");
}

#[test]
fn application_round_trips() {
    let text = round_trip_source("f x y");
    let prog = parse(&text).expect("parses");
    match prog.main_expr {
        Expr::App { fun, .. } => assert!(matches!(*fun, Expr::App { .. })),
        _ => panic!("not an application"),
    }
}

#[test]
fn sequences_round_trip() {
    let text = round_trip_source("1; 2; 3");
    let prog = parse(&text).expect("parses");
    match prog.main_expr {
        Expr::Sequence { subs } => assert_eq!(subs.len(), 3),
        _ => panic!("not a sequence"),
    }
}

#[test]
fn lambdas_round_trip() {
    round_trip_source(r"\x -> x + 1");
}

#[test]
fn lets_round_trip() {
    round_trip_source("let x = 3 in x + 4");
    round_trip_source("let f : int -> int = 1 in 2");
}

#[test]
fn tuples_round_trip() {
    let text = round_trip_source("(1, 2, 3)");
    let prog = parse(&text).expect("parses");
    match prog.main_expr {
        Expr::Tuple { subs } => assert_eq!(subs.len(), 3),
        _ => panic!("not a tuple"),
    }
}

#[test]
fn projections_round_trip() {
    round_trip_source("nth 1 x");
}

#[test]
fn conditionals_round_trip() {
    round_trip_source("if 1 then 2 else 3");
    round_trip_source("if a == 0 then b else if c then d else e");
}

#[test]
fn letrec_round_trips() {
    round_trip_source(r"let rec f = \n -> if n == 0 then 1 else n * f (n - 1) in f 5");
    round_trip_source(
        r"let rec even = \n -> if n == 0 then 1 else odd (n - 1)
          and     odd  = \n -> if n == 0 then 0 else even (n - 1)
          in even 10",
    );
}

#[test]
fn matches_round_trip() {
    let text = round_trip_source("match x | 0 -> 1 | a, b -> a | Pair (p) (q) -> p end");
    let prog = parse(&text).expect("parses");
    match prog.main_expr {
        Expr::Match { arms, .. } => {
            assert_eq!(arms.len(), 3);
            assert!(matches!(arms[2].ptn, MatchPattern::DataType { .. }));
        },
        _ => panic!("not a match"),
    }
}

#[test]
fn unprintable_trees_are_reported() {
    // a negative literal is reached through negation, never printed directly
    assert!(print_expr(&Expr::IntLit { val: -1 }).is_none());
    // a logical operator has no surface token
    let e = Expr::Binary {
        lhs: Box::new(Expr::IntLit { val: 1 }),
        op: BinOp::Land,
        rhs: Box::new(Expr::IntLit { val: 2 }),
    };
    assert!(print_expr(&e).is_none());
    // a variable may not shadow a keyword
    assert!(print_expr(&Expr::VarRef { id: "let".to_string() }).is_none());
    // an annotated lambda cannot reparse: the type grammar would consume
    // the body arrow
    let lam = Expr::Abs {
        arg_name: "x".to_string(),
        arg_ty: Ty::IntTy,
        body: Box::new(Expr::VarRef { id: "x".to_string() }),
    };
    assert!(print_expr(&lam).is_none());
}
