//! Tests of the surface grammar, the passes, and the instruction codec.

use miniml::ast::{BinOp, BuiltinOp, Expr, MatchPattern, Ty, UnaOp};
use miniml::debrujin::DeBrujin;
use miniml::namer::{Namer, NamerErrKind};
use miniml::num::{i64_to_dec, parse_u64, u64_to_dec};
use miniml::parser::parse;
use miniml::secd::repr::secd_parse_text;
use miniml::utils::uniq;

fn parse_main(src: &str) -> Expr {
    parse(src).expect("source should parse").main_expr
}

#[test]
fn integer_literal_parses() {
    match parse_main("42") {
        Expr::IntLit { val } => assert_eq!(val, 42),
        _ => panic!("not an integer literal"),
    }
}

#[test]
fn unit_literal_parses() {
    assert!(matches!(parse_main("( )"), Expr::UnitLit {}));
    assert!(matches!(parse_main("()"), Expr::UnitLit {}));
}

#[test]
fn precedence_layers_nest() {
    // multiplication binds tighter than addition
    match parse_main("1 + 2 * 3") {
        Expr::Binary { lhs, op, rhs } => {
            assert_eq!(op, BinOp::Add);
            assert!(matches!(*lhs, Expr::IntLit { val: 1 }));
            match *rhs {
                Expr::Binary { op, .. } => assert_eq!(op, BinOp::Mul),
                _ => panic!("right side should be the product"),
            }
        },
        _ => panic!("not a sum"),
    }
}

#[test]
fn application_associates_left() {
    match parse_main("f x y") {
        Expr::App { fun, arg } => {
            assert!(matches!(*arg, Expr::VarRef { .. }));
            assert!(matches!(*fun, Expr::App { .. }));
        },
        _ => panic!("not an application"),
    }
}

#[test]
fn relational_order_prefers_two_character_operators() {
    match parse_main("1 >= 2") {
        Expr::Binary { op, .. } => assert_eq!(op, BinOp::Ge),
        _ => panic!("not a comparison"),
    }
    match parse_main("1 > 2") {
        Expr::Binary { op, .. } => assert_eq!(op, BinOp::Gt),
        _ => panic!("not a comparison"),
    }
}

#[test]
fn one_element_sequence_collapses() {
    // a sequence of one part is the part itself, never a sequence node
    assert!(matches!(parse_main("5"), Expr::IntLit { val: 5 }));
    match parse_main("1; 2") {
        Expr::Sequence { subs } => assert_eq!(subs.len(), 2),
        _ => panic!("not a sequence"),
    }
}

#[test]
fn lambda_parses_with_open_annotation() {
    match parse_main(r"\x -> x") {
        Expr::Abs { arg_name, arg_ty, body } => {
            assert_eq!(arg_name, "x");
            assert!(matches!(arg_ty, Ty::UnkTy));
            assert!(matches!(*body, Expr::VarRef { .. }));
        },
        _ => panic!("not a lambda"),
    }
}

#[test]
fn arrow_types_associate_right() {
    // a `let` annotation ends at `=`, so the arrows are unambiguous there
    match parse_main(r"let f : int -> bool -> unit = 1 in 2") {
        Expr::Let { ty, .. } => match ty {
            Ty::AbsTy(l, r) => {
                assert!(matches!(*l, Ty::IntTy));
                match *r {
                    Ty::AbsTy(rl, rr) => {
                        assert!(matches!(*rl, Ty::BoolTy));
                        assert!(matches!(*rr, Ty::UnitTy));
                    },
                    _ => panic!("the arrow should nest to the right"),
                }
            },
            _ => panic!("annotation should be an arrow"),
        },
        _ => panic!("not a let"),
    }
}

#[test]
fn tuples_need_two_parts() {
    match parse_main("(1, 2, 3)") {
        Expr::Tuple { subs } => assert_eq!(subs.len(), 3),
        _ => panic!("not a tuple"),
    }
    // one part in parentheses is just the part
    assert!(matches!(parse_main("(1)"), Expr::IntLit { val: 1 }));
}

#[test]
fn nth_form_parses_as_projection() {
    match parse_main("nth 1 x") {
        Expr::Nth { idx, sub } => {
            assert_eq!(idx, 1);
            assert!(matches!(*sub, Expr::VarRef { .. }));
        },
        _ => panic!("not a projection"),
    }
    // bare `nth` is the built-in name
    assert!(matches!(parse_main("nth"), Expr::Builtin { op: BuiltinOp::Nth }));
}

#[test]
fn builtins_parse_by_name() {
    assert!(matches!(parse_main("println"), Expr::Builtin { op: BuiltinOp::Println }));
    assert!(matches!(parse_main("true"), Expr::Builtin { op: BuiltinOp::True }));
    assert!(matches!(parse_main("false"), Expr::Builtin { op: BuiltinOp::False }));
}

#[test]
fn unary_prefix_chains() {
    match parse_main("!-1") {
        Expr::Unary { op, sub } => {
            assert_eq!(op, UnaOp::Lnot);
            assert!(matches!(*sub, Expr::Unary { op: UnaOp::Neg, .. }));
        },
        _ => panic!("not a unary chain"),
    }
}

#[test]
fn match_parses_with_patterns() {
    // constructor arguments nest greedily, so they are parenthesised here
    match parse_main("match x | 0 -> 1 | a, b -> a | Pair (p) (q) -> p end") {
        Expr::Match { arms, .. } => {
            assert_eq!(arms.len(), 3);
            assert!(matches!(arms[0].ptn, MatchPattern::Lit { .. }));
            match &arms[1].ptn {
                MatchPattern::Tuple { subs } => assert_eq!(subs.len(), 2),
                _ => panic!("second pattern should be a tuple"),
            }
            match &arms[2].ptn {
                MatchPattern::DataType { ctor, subs } => {
                    assert_eq!(ctor, "Pair");
                    assert_eq!(subs.len(), 2);
                },
                _ => panic!("third pattern should be a constructor"),
            }
        },
        _ => panic!("not a match"),
    }
}

#[test]
fn datatype_declarations_parse() {
    let prog = parse("datatype Shape = | Circle int | Square int end 42").expect("parses");
    assert_eq!(prog.data_types.len(), 1);
    assert_eq!(prog.data_types[0].name, "Shape");
    assert_eq!(prog.data_types[0].arms.len(), 2);
    assert_eq!(prog.data_types[0].arms[0].ctor, "Circle");
}

#[test]
fn keywords_are_not_identifiers() {
    assert!(parse("let in = 3 in in").is_err());
}

#[test]
fn trailing_garbage_is_a_parse_error() {
    assert!(parse("1 + 2 )").is_err());
}

#[test]
fn renamer_gives_unique_binder_names() {
    let mut prog = parse(r"let x = 1 in let x = 2 in \x -> x").expect("parses");
    let mut namer = Namer::new();
    namer.visit(&mut prog.main_expr).expect("renames");
    match prog.main_expr {
        Expr::Let { name, body, .. } => {
            assert_eq!(name, "_x@0");
            match *body {
                Expr::Let { name, body, .. } => {
                    assert_eq!(name, "_x@1");
                    match *body {
                        Expr::Abs { arg_name, body, .. } => {
                            assert_eq!(arg_name, "_x@2");
                            match *body {
                                Expr::VarRef { id } => assert_eq!(id, "_x@2"),
                                _ => panic!("body should be the reference"),
                            }
                        },
                        _ => panic!("inner body should be a lambda"),
                    }
                },
                _ => panic!("body should be the inner let"),
            }
        },
        _ => panic!("not a let"),
    }
}

#[test]
fn renamer_rejects_unknown_references() {
    let mut prog = parse("x + 1").expect("parses");
    let mut namer = Namer::new();
    match namer.visit(&mut prog.main_expr) {
        Err(NamerErrKind::UnknownVarRef { id }) => assert_eq!(id, "x"),
        _ => panic!("an unknown reference should be reported"),
    }
}

#[test]
fn renamer_rejects_duplicate_letrec_names() {
    let mut prog = parse(r"let rec f = \x -> x and f = \y -> y in f 1").expect("parses");
    let mut namer = Namer::new();
    assert!(matches!(
        namer.visit(&mut prog.main_expr),
        Err(NamerErrKind::DuplicateLetRecFn {})
    ));
}

#[test]
fn resolver_annotates_references_in_order() {
    let mut prog = parse(r"\x -> \y -> x + y").expect("parses");
    let mut namer = Namer::new();
    namer.visit(&mut prog.main_expr).expect("renames");
    let mut db = DeBrujin::new();
    db.walk(&prog.main_expr).expect("resolves");
    let info = db.get_info();
    // reference number zero is `x`, one binder away; number one is `y`
    match info.get(miniml::node_id::NodeId(0)) {
        Some(miniml::debrujin::DeBrujinIdx::Var(i)) => assert_eq!(*i, 1),
        _ => panic!("first reference should resolve one frame away"),
    }
    match info.get(miniml::node_id::NodeId(1)) {
        Some(miniml::debrujin::DeBrujinIdx::Var(i)) => assert_eq!(*i, 0),
        _ => panic!("second reference should resolve to the nearest frame"),
    }
}

#[test]
fn instruction_text_round_trips() {
    let text = "main:\nconst 42\nconst -7\naccess 3\nfocus 1\npop 2\nclosure lam0\nclosures a b c\nbuiltin println\nbuiltin nth\nadd\nsub\nmul\ndiv\nrem\neq\nne\nge\nle\ngt\nlt\nneg\nnot\nbr main\nbrfl main\napply\nreturn\npushenv\nhalt\n";
    let instrs = secd_parse_text(text).expect("loads");
    let printed = miniml::secd::repr::instrs_to_text(&instrs).expect("prints");
    assert_eq!(printed, text);
    // a second trip is identical again
    let instrs2 = secd_parse_text(&printed).expect("loads again");
    let printed2 = miniml::secd::repr::instrs_to_text(&instrs2).expect("prints again");
    assert_eq!(printed2, printed);
}

#[test]
fn instruction_text_skips_blanks_and_comments() {
    let text = "# a comment\n\nmain:\n  const 1\n\n# done\nhalt\n";
    let instrs = secd_parse_text(text).expect("loads");
    assert_eq!(instrs.len(), 3);
}

#[test]
fn malformed_instruction_lines_are_rejected() {
    assert!(secd_parse_text("main:\nfrobnicate\n").is_err());
    assert!(secd_parse_text("main:\naccess\n").is_err());
    assert!(secd_parse_text("main:\naccess x\n").is_err());
    assert!(secd_parse_text("main:\nconst\n").is_err());
    assert!(secd_parse_text("main:\nclosures\n").is_err());
    assert!(secd_parse_text("main:\nbuiltin mystery\n").is_err());
}

#[test]
fn numerals_print_and_parse_back() {
    assert_eq!(u64_to_dec(0), vec!['0']);
    assert_eq!(u64_to_dec(120), vec!['1', '2', '0']);
    assert_eq!(i64_to_dec(-42), vec!['-', '4', '2']);
    assert_eq!(parse_u64(&vec!['1', '2', '0']), Some(120));
    assert_eq!(parse_u64(&vec![]), None);
    assert_eq!(parse_u64(&vec!['1', 'x']), None);
}

#[test]
fn uniq_detects_repeats() {
    let distinct = vec!["a".to_string(), "b".to_string(), "c".to_string()];
    assert!(uniq(&distinct));
    let repeated = vec!["a".to_string(), "b".to_string(), "a".to_string()];
    assert!(!uniq(&repeated));
    let empty: Vec<String> = Vec::new();
    assert!(uniq(&empty));
}

#[test]
fn data_type_context_records_names() {
    let mut ctx: Vec<String> = Vec::new();
    miniml::parser::create_data_type(&mut ctx, "Shape".to_string());
    assert!(miniml::parser::is_data_type_name(&ctx, &"Shape".to_string()));
    assert!(!miniml::parser::is_data_type_name(&ctx, &"Color".to_string()));
}

#[test]
fn compiling_a_tuple_is_reported_unsupported() {
    let mut prog = parse("(1, 2)").expect("parses");
    assert!(miniml::compile_prog_to_text(&mut prog).is_err());
}
