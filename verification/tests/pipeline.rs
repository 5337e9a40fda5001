//! End-to-end tests: source text through parsing, renaming, resolution,
//! lowering, instruction text and the machine.

use miniml::ast::Expr;
use miniml::compile_prog_to_text;
use miniml::parser::parse;
use miniml::secd::langdef::{SECDInstr, SECDVal};
use miniml::secd::machine::{SECDEffect, SECDMachine};
use miniml::secd::repr::secd_parse_text;

/// Compiles source text and runs it, returning the printed lines and the
/// final value.
fn run_source(src: &str) -> (Vec<String>, SECDVal) {
    let mut prog = parse(src).expect("source should parse");
    let text = compile_prog_to_text(&mut prog).expect("source should compile");
    let instrs = secd_parse_text(&text).expect("emitted text should parse");
    let mut machine = SECDMachine::init(instrs).expect("program should have a main label");
    let msg = machine.run(100000).expect("program should stop");
    assert_eq!(msg, "execution halted");
    let effects = machine
        .effects
        .iter()
        .map(|e| match e {
            SECDEffect::Println(s) => s.clone(),
        })
        .collect();
    let val = machine.final_value().expect("one value should remain").clone();
    (effects, val)
}

fn expect_int(v: &SECDVal, want: i64) {
    match v {
        SECDVal::IntVal(got) => assert_eq!(*got, want),
        _ => panic!("not an integer result"),
    }
}

#[test]
fn literal_program_runs_to_itself() {
    let (effects, val) = run_source("42");
    assert!(effects.is_empty());
    expect_int(&val, 42);
}

#[test]
fn let_binding_adds() {
    let (effects, val) = run_source("let x = 3 in x + 4");
    assert!(effects.is_empty());
    expect_int(&val, 7);
}

#[test]
fn lambda_applies() {
    let (effects, val) = run_source(r"(\x -> x + 1) 5");
    assert!(effects.is_empty());
    expect_int(&val, 6);
}

#[test]
fn factorial_recurses() {
    let (effects, val) =
        run_source(r"let rec f = \n -> if n == 0 then 1 else n * f (n - 1) in f 5");
    assert!(effects.is_empty());
    expect_int(&val, 120);
}

#[test]
fn mutual_recursion_even_odd() {
    let (effects, val) = run_source(
        r"let rec even = \n -> if n == 0 then 1 else odd (n - 1)
          and     odd  = \n -> if n == 0 then 0 else even (n - 1)
          in even 10",
    );
    assert!(effects.is_empty());
    expect_int(&val, 1);
}

#[test]
fn println_logs_and_returns() {
    let (effects, val) = run_source("println 7; 0");
    assert_eq!(effects, vec!["7".to_string()]);
    expect_int(&val, 0);
}

#[test]
fn letrec_single_arm_matches_fixed_point_unrolling() {
    // a one-arm group behaves as the fixed point of its own definition:
    // unrolling once by hand gives the same value
    let (_, direct) = run_source(r"let rec f = \n -> if n == 0 then 1 else n * f (n - 1) in f 4");
    let (_, unrolled) = run_source(
        r"let rec f = \n -> if n == 0 then 1 else n * f (n - 1)
          in if 4 == 0 then 1 else 4 * f (4 - 1)",
    );
    expect_int(&direct, 24);
    expect_int(&unrolled, 24);
}

#[test]
fn division_by_zero_fails_cleanly() {
    let mut prog = parse("1 / 0").expect("parses");
    let text = compile_prog_to_text(&mut prog).expect("compiles");
    let instrs = secd_parse_text(&text).expect("loads");
    let mut machine = SECDMachine::init(instrs).expect("has main");
    let msg = machine.run(1000).expect("stops");
    assert_eq!(msg, "bad operands for binary operator");
    // the operands are still on the stack: the state is not corrupted
    assert_eq!(machine.state.1.len(), 2);
}

#[test]
fn modulo_by_zero_fails_cleanly() {
    let mut prog = parse("5 % 0").expect("parses");
    let text = compile_prog_to_text(&mut prog).expect("compiles");
    let instrs = secd_parse_text(&text).expect("loads");
    let mut machine = SECDMachine::init(instrs).expect("has main");
    let msg = machine.run(1000).expect("stops");
    assert_eq!(msg, "bad operands for binary operator");
    assert_eq!(machine.state.1.len(), 2);
}

#[test]
fn focus_out_of_range_fails_cleanly() {
    let text = "main:\nclosures f\naccess 1\nfocus 5\nhalt\nf:\nconst 1\nreturn\n";
    let instrs = secd_parse_text(text).expect("loads");
    let mut machine = SECDMachine::init(instrs).expect("has main");
    let msg = machine.run(1000).expect("stops");
    assert_eq!(msg, "focus oob");
    // the closure is still on the stack
    assert_eq!(machine.state.1.len(), 1);
}

#[test]
fn focus_zero_fails_cleanly() {
    let text = "main:\nclosures f\naccess 1\nfocus 0\nhalt\nf:\nconst 1\nreturn\n";
    let instrs = secd_parse_text(text).expect("loads");
    let mut machine = SECDMachine::init(instrs).expect("has main");
    let msg = machine.run(1000).expect("stops");
    assert_eq!(msg, "focus oob");
}

#[test]
fn refocusing_fails_cleanly() {
    let text = "main:\nclosure f\nfocus 1\nhalt\nf:\nconst 1\nreturn\n";
    let instrs = secd_parse_text(text).expect("loads");
    let mut machine = SECDMachine::init(instrs).expect("has main");
    let msg = machine.run(1000).expect("stops");
    assert_eq!(msg, "re-focusing closure");
}

#[test]
fn machine_without_main_is_refused() {
    let text = "start:\nconst 1\nhalt\n";
    let instrs = secd_parse_text(text).expect("loads");
    assert!(SECDMachine::init(instrs).is_err());
}

#[test]
fn halted_machine_keeps_reporting_termination() {
    let text = "main:\nconst 9\nhalt\n";
    let instrs = secd_parse_text(text).expect("loads");
    let mut machine = SECDMachine::init(instrs).expect("has main");
    let msg = machine.run(1000).expect("stops");
    assert_eq!(msg, "execution halted");
    // stepping again reports the same terminal state and changes nothing
    let again = machine.step().expect_err("still halted");
    assert_eq!(again, "execution halted");
    assert_eq!(machine.state.1.len(), 1);
}

#[test]
fn nth_projects_out_of_a_tuple() {
    let instrs = vec![
        SECDInstr::Label("main".to_string()),
        SECDInstr::Const(SECDVal::TupleVal(vec![SECDVal::IntVal(5), SECDVal::IntVal(7)])),
        SECDInstr::Const(SECDVal::IntVal(1)),
        SECDInstr::Builtin(miniml::secd::langdef::BuiltinOp::Nth),
        SECDInstr::Halt,
    ];
    let mut machine = SECDMachine::init(instrs).expect("has main");
    let msg = machine.run(1000).expect("stops");
    assert_eq!(msg, "execution halted");
    match machine.final_value().expect("one value") {
        SECDVal::IntVal(v) => assert_eq!(*v, 7),
        _ => panic!("not an integer"),
    }
}

#[test]
fn nth_out_of_range_fails_cleanly() {
    let instrs = vec![
        SECDInstr::Label("main".to_string()),
        SECDInstr::Const(SECDVal::TupleVal(vec![SECDVal::IntVal(5)])),
        SECDInstr::Const(SECDVal::IntVal(3)),
        SECDInstr::Builtin(miniml::secd::langdef::BuiltinOp::Nth),
        SECDInstr::Halt,
    ];
    let mut machine = SECDMachine::init(instrs).expect("has main");
    let msg = machine.run(1000).expect("stops");
    assert_eq!(msg, "nth out of range");
}

#[test]
fn unary_negation_and_not_run() {
    let (_, val) = run_source("- - 5");
    expect_int(&val, 5);
    let (_, t) = run_source("!0");
    expect_int(&t, 1);
    let (_, f) = run_source("!7");
    expect_int(&f, 0);
}

#[test]
fn true_and_false_lower_to_integers() {
    let (_, t) = run_source("if true then 3 else 4");
    expect_int(&t, 3);
    let (_, f) = run_source("if false then 3 else 4");
    expect_int(&f, 4);
}

#[test]
fn comments_and_whitespace_are_skipped() {
    let (_, val) = run_source("-- a comment\n 1 + -- inline\n 2");
    expect_int(&val, 3);
}
