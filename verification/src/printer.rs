//! Canonical printing of the AST: text that the parser reads back to the
//! same tree.  Compound children are parenthesised, so precedence never has
//! to be reconstructed.
//!
//! Printing is pinned by [`spec_print_expr`]; [`print_expr`] fails exactly
//! on trees the grammar cannot express: negative integer literals (the
//! grammar reaches them through unary negation), variable names that are not
//! plain identifiers or collide with keywords or built-in names, logical
//! binary operators (they have no surface token), the unknown type anywhere
//! but as an omitted annotation, and empty sequences, tuples, groups or
//! `match`es.

use vstd::prelude::*;

use crate::ast::{
    BinOp, BuiltinOp, Expr, ExprV, LetRecArm, LetRecArmV, MatchArm, MatchArmV, MatchPattern,
    MatchPatternV, Ty, TyV, UnaOp,
};
use crate::num::{dec_of_int, i64_to_dec};
use crate::parser::{spec_is_ident, spec_is_keyword};
use crate::utils::{chars_to_string, string_to_chars};

verus! {

/// The surface token of a binary operator, where one exists.
pub open spec fn binop_src_token(op: BinOp) -> Seq<char> {
    match op {
        BinOp::Add => "+"@,
        BinOp::Sub => "-"@,
        BinOp::Mul => "*"@,
        BinOp::Div => "/"@,
        BinOp::Rem => "%"@,
        BinOp::Gt => ">"@,
        BinOp::Lt => "<"@,
        BinOp::Ge => ">="@,
        BinOp::Le => "<="@,
        BinOp::Eq => "=="@,
        BinOp::Ne => "!="@,
        BinOp::Land => Seq::empty(),
        BinOp::Lor => Seq::empty(),
        BinOp::Lxor => Seq::empty(),
    }
}

/// Has this binary operator a surface token?
pub open spec fn printable_binop_src(op: BinOp) -> bool {
    !(op == BinOp::Land || op == BinOp::Lor || op == BinOp::Lxor)
}

/// The name of a built-in operation.
pub open spec fn builtin_src_token(op: BuiltinOp) -> Seq<char> {
    match op {
        BuiltinOp::Println => "println"@,
        BuiltinOp::Nth => "nth"@,
        BuiltinOp::True => "true"@,
        BuiltinOp::False => "false"@,
    }
}

/// Is this name free for a variable: an identifier that is neither a
/// keyword nor a built-in name?
pub open spec fn printable_var(s: Seq<char>) -> bool {
    spec_is_ident(s) && !spec_is_keyword(s) && s != "println"@ && s != "true"@ && s != "false"@
        && s != "nth"@
}

/// A type the grammar can express.
pub open spec fn printable_ty(t: TyV) -> bool
    decreases t,
{
    match t {
        TyV::UnitTy => true,
        TyV::IntTy => true,
        TyV::BoolTy => true,
        TyV::UnkTy => false,
        TyV::AbsTy(a, b) => printable_ty(*a) && printable_ty(*b),
        TyV::DataTy(name) => spec_is_ident(name) && !spec_is_keyword(name),
    }
}

/// The text of a type.
pub open spec fn spec_print_ty(t: TyV) -> Seq<char>
    decreases t, 1int,
{
    match t {
        TyV::UnitTy => "unit"@,
        TyV::IntTy => "int"@,
        TyV::BoolTy => "bool"@,
        TyV::UnkTy => Seq::empty(),
        TyV::AbsTy(a, b) => spec_print_ty_atom(*a) + " -> "@ + spec_print_ty(*b),
        TyV::DataTy(name) => name,
    }
}

/// The text of a type in argument position: arrows are parenthesised.
pub open spec fn spec_print_ty_atom(t: TyV) -> Seq<char>
    decreases t, 2int,
{
    match t {
        TyV::AbsTy(..) => seq!['('] + spec_print_ty(t) + seq![')'],
        _ => spec_print_ty(t),
    }
}

/// Prints a type.
pub fn print_ty(t: &Ty) -> (r: Option<Vec<char>>)
    ensures
        match r {
            Some(cs) => printable_ty(t@) && cs@ == spec_print_ty(t@),
            None => !printable_ty(t@),
        },
    decreases *t, 1int,
{
    match t {
        Ty::UnitTy => Some(string_to_chars("unit")),
        Ty::IntTy => Some(string_to_chars("int")),
        Ty::BoolTy => Some(string_to_chars("bool")),
        Ty::UnkTy => None,
        Ty::AbsTy(a, b) => {
            let mut out = print_ty_atom(a)?;
            let mut arrow = string_to_chars(" -> ");
            out.append(&mut arrow);
            let mut rest = print_ty(b)?;
            out.append(&mut rest);
            proof {
                assert(out@ =~= spec_print_ty(t@));
            }
            Some(out)
        },
        Ty::DataTy(name) => {
            let cs = string_to_chars(name.as_str());
            if is_ident_seq(&cs) && !crate::parser::is_keyword(&cs) {
                Some(cs)
            } else {
                None
            }
        },
    }
}

/// Decides whether `cs` has the shape of an identifier.
fn is_ident_seq(cs: &Vec<char>) -> (r: bool)
    ensures
        r == spec_is_ident(cs@),
{
    if cs.len() == 0 {
        return false;
    }
    let mut i: usize = 0;
    let mut start_ok = false;
    let c0 = cs[0];
    let u0: u32 = c0 as u32;
    if (97 <= u0 && u0 <= 122) || (65 <= u0 && u0 <= 90) || c0 == '_' {
        start_ok = true;
    }
    if !start_ok {
        return false;
    }
    while i < cs.len()
        invariant
            0 <= i <= cs@.len(),
            cs@.len() >= 1,
            crate::parser::spec_is_ident_start(cs@[0]),
            forall|j: int| 0 <= j < i ==> crate::parser::spec_is_ident_char(#[trigger] cs@[j]),
        decreases cs@.len() - i,
    {
        let c = cs[i];
        let u: u32 = c as u32;
        if !((97 <= u && u <= 122) || (65 <= u && u <= 90) || c == '_' || (48 <= u && u <= 57)) {
            return false;
        }
        i = i + 1;
    }
    true
}

/// Prints a type in argument position.
fn print_ty_atom(t: &Ty) -> (r: Option<Vec<char>>)
    ensures
        match r {
            Some(cs) => printable_ty(t@) && cs@ == spec_print_ty_atom(t@),
            None => !printable_ty(t@),
        },
    decreases *t, 2int,
{
    match t {
        Ty::AbsTy(..) => {
            let mut out: Vec<char> = Vec::new();
            out.push('(');
            let mut inner = print_ty(t)?;
            out.append(&mut inner);
            out.push(')');
            proof {
                assert(out@ =~= seq!['('] + spec_print_ty(t@) + seq![')']);
            }
            Some(out)
        },
        _ => print_ty(t),
    }
}

/// A tree the grammar can express.
pub open spec fn printable(e: ExprV) -> bool
    decreases e,
{
    match e {
        ExprV::IntLit { val } => val >= 0,
        ExprV::UnitLit { .. } => true,
        ExprV::VarRef { id } => printable_var(id),
        ExprV::Builtin { .. } => true,
        ExprV::Binary { lhs, op, rhs } => printable_binop_src(op) && printable(*lhs) && printable(
            *rhs,
        ),
        ExprV::Unary { sub, .. } => printable(*sub),
        ExprV::App { fun, arg } => printable(*fun) && printable(*arg),
        ExprV::Sequence { subs } => subs.len() >= 2 && printable_list(subs),
        ExprV::Abs { arg_name, arg_ty, body } => printable_var(arg_name) && arg_ty == TyV::UnkTy
            && printable(*body),
        ExprV::Let { name, ty, val, body } => printable_var(name) && (ty == TyV::UnkTy
            || printable_ty(ty)) && printable(*val) && printable(*body),
        ExprV::Tuple { subs } => subs.len() >= 2 && printable_list(subs),
        ExprV::Nth { idx, sub } => idx >= 0 && printable(*sub),
        ExprV::Ite { cond, tr, fl } => printable(*cond) && printable(*tr) && printable(*fl),
        ExprV::LetRec { arms, body } => arms.len() >= 1 && printable_arms(arms) && printable(
            *body,
        ),
        ExprV::Match { sub, arms } => arms.len() >= 1 && printable(*sub) && printable_match_arms(
            arms,
        ),
    }
}

/// `printable` over a list of expressions.
pub open spec fn printable_list(es: Seq<ExprV>) -> bool
    decreases es,
{
    forall|i: int| 0 <= i < es.len() ==> printable(#[trigger] es[i])
}

/// `printable` over `let rec` arms.
pub open spec fn printable_arms(arms: Seq<LetRecArmV>) -> bool
    decreases arms,
{
    forall|i: int|
        0 <= i < arms.len() ==> {
            let a = #[trigger] arms[i];
            printable_var(a.fn_name) && (a.fn_ty == TyV::UnkTy || printable_ty(a.fn_ty))
                && printable_var(a.arg_name) && a.arg_ty == TyV::UnkTy && printable(*a.body)
        }
}

/// `printable` over `match` arms.
pub open spec fn printable_match_arms(arms: Seq<MatchArmV>) -> bool
    decreases arms,
{
    forall|i: int|
        0 <= i < arms.len() ==> printable_ptn((#[trigger] arms[i]).ptn) && printable(
            *arms[i].res,
        )
}

/// A pattern the grammar can express.
pub open spec fn printable_ptn(p: MatchPatternV) -> bool
    decreases p,
{
    match p {
        MatchPatternV::Binder { name } => printable_var(name),
        MatchPatternV::Tuple { subs } => subs.len() >= 2 && printable_ptn_list(subs),
        MatchPatternV::Lit { val } => match *val {
            ExprV::IntLit { val: v } => v >= 0,
            ExprV::UnitLit { .. } => true,
            _ => false,
        },
        MatchPatternV::DataType { ctor, subs } => spec_is_ident(ctor) && !spec_is_keyword(ctor)
            && subs.len() >= 1 && printable_ptn_list(subs),
    }
}

/// `printable_ptn` over a list of patterns.
pub open spec fn printable_ptn_list(ps: Seq<MatchPatternV>) -> bool
    decreases ps,
{
    forall|i: int| 0 <= i < ps.len() ==> printable_ptn(#[trigger] ps[i])
}

/// An optional annotation: nothing for the unknown type, else ` : T`.
pub open spec fn spec_print_annot(t: TyV) -> Seq<char> {
    if t == TyV::UnkTy {
        Seq::empty()
    } else {
        " : "@ + spec_print_ty(t)
    }
}

/// The canonical text of an expression.
pub open spec fn spec_print_expr(e: ExprV) -> Seq<char>
    decreases e, 1int,
{
    match e {
        ExprV::IntLit { val } => dec_of_int(val as int),
        ExprV::UnitLit { .. } => "()"@,
        ExprV::VarRef { id } => id,
        ExprV::Builtin { op } => builtin_src_token(op),
        ExprV::Binary { lhs, op, rhs } => spec_print_atom(*lhs) + seq![' '] + binop_src_token(op)
            + seq![' '] + spec_print_atom(*rhs),
        ExprV::Unary { op, sub } => (match op {
            UnaOp::Neg => "-"@,
            UnaOp::Lnot => "!"@,
        }) + spec_print_atom(*sub),
        ExprV::App { fun, arg } => spec_print_atom(*fun) + seq![' '] + spec_print_atom(*arg),
        ExprV::Sequence { subs } => spec_print_list(subs, "; "@),
        ExprV::Abs { arg_name, arg_ty, body } => "\\"@ + arg_name + spec_print_annot(arg_ty)
            + " -> "@ + spec_print_expr(*body),
        ExprV::Let { name, ty, val, body } => "let "@ + name + spec_print_annot(ty) + " = "@
            + spec_print_expr(*val) + " in "@ + spec_print_expr(*body),
        ExprV::Tuple { subs } => seq!['('] + spec_print_list(subs, ", "@) + seq![')'],
        ExprV::Nth { idx, sub } => "nth "@ + dec_of_int(idx as int) + seq![' '] + spec_print_atom(
            *sub,
        ),
        ExprV::Ite { cond, tr, fl } => "if "@ + spec_print_atom(*cond) + " then "@
            + spec_print_atom(*tr) + " else "@ + spec_print_atom(*fl),
        ExprV::LetRec { arms, body } => "let rec "@ + spec_print_armlist(arms) + " in "@
            + spec_print_expr(*body),
        ExprV::Match { sub, arms } => "match "@ + spec_print_atom(*sub) + spec_print_matcharms(
            arms,
        ) + " end"@,
    }
}

/// The text of an expression in atom position: compounds are parenthesised.
pub open spec fn spec_print_atom(e: ExprV) -> Seq<char>
    decreases e, 2int,
{
    match e {
        ExprV::IntLit { .. } => spec_print_expr(e),
        ExprV::UnitLit { .. } => spec_print_expr(e),
        ExprV::VarRef { .. } => spec_print_expr(e),
        ExprV::Builtin { .. } => spec_print_expr(e),
        _ => seq!['('] + spec_print_expr(e) + seq![')'],
    }
}

/// The texts of expressions, joined by a separator.
pub open spec fn spec_print_list(es: Seq<ExprV>, sep: Seq<char>) -> Seq<char>
    decreases es, 3int,
{
    if es.len() == 0 {
        Seq::empty()
    } else if es.len() == 1 {
        spec_print_atom(es.first())
    } else {
        spec_print_atom(es.first()) + sep + spec_print_list(es.drop_first(), sep)
    }
}

/// The texts of `let rec` arms, joined by ` and `.
pub open spec fn spec_print_armlist(arms: Seq<LetRecArmV>) -> Seq<char>
    decreases arms, 3int,
{
    if arms.len() == 0 {
        Seq::empty()
    } else if arms.len() == 1 {
        spec_print_arm(arms.first())
    } else {
        spec_print_arm(arms.first()) + " and "@ + spec_print_armlist(arms.drop_first())
    }
}

/// The text of one `let rec` arm.
pub open spec fn spec_print_arm(a: LetRecArmV) -> Seq<char>
    decreases a, 2int,
{
    a.fn_name + spec_print_annot(a.fn_ty) + " = \\"@ + a.arg_name + spec_print_annot(a.arg_ty)
        + " -> "@ + spec_print_expr(*a.body)
}

/// The texts of `match` arms, each introduced by ` | `.
pub open spec fn spec_print_matcharms(arms: Seq<MatchArmV>) -> Seq<char>
    decreases arms, 3int,
{
    if arms.len() == 0 {
        Seq::empty()
    } else {
        " | "@ + spec_print_ptn(arms.first().ptn) + " -> "@ + spec_print_atom(*arms.first().res)
            + spec_print_matcharms(arms.drop_first())
    }
}

/// The text of a pattern.
pub open spec fn spec_print_ptn(p: MatchPatternV) -> Seq<char>
    decreases p, 1int,
{
    match p {
        MatchPatternV::Binder { name } => name,
        MatchPatternV::Tuple { subs } => spec_print_ptn_list(subs, ", "@),
        MatchPatternV::Lit { val } => match *val {
            ExprV::IntLit { val: v } => dec_of_int(v as int),
            _ => "()"@,
        },
        MatchPatternV::DataType { ctor, subs } => ctor + spec_print_ctor_args(subs),
    }
}

/// The texts of patterns in a tuple, each parenthesised, joined by the
/// separator.
pub open spec fn spec_print_ptn_list(ps: Seq<MatchPatternV>, sep: Seq<char>) -> Seq<char>
    decreases ps, 2int,
{
    if ps.len() == 0 {
        Seq::empty()
    } else if ps.len() == 1 {
        seq!['('] + spec_print_ptn(ps.first()) + seq![')']
    } else {
        seq!['('] + spec_print_ptn(ps.first()) + seq![')'] + sep + spec_print_ptn_list(
            ps.drop_first(),
            sep,
        )
    }
}

/// The texts of constructor arguments, each parenthesised, blank-separated.
pub open spec fn spec_print_ctor_args(ps: Seq<MatchPatternV>) -> Seq<char>
    decreases ps, 2int,
{
    if ps.len() == 0 {
        Seq::empty()
    } else {
        " ("@ + spec_print_ptn(ps.first()) + seq![')'] + spec_print_ctor_args(ps.drop_first())
    }
}

/// Decides whether a name is free for a variable.
fn is_printable_var(name: &String) -> (r: bool)
    ensures
        r == printable_var(name@),
{
    let cs = string_to_chars(name.as_str());
    if !is_ident_seq(&cs) || crate::parser::is_keyword(&cs) {
        return false;
    }
    !(crate::parser::word_is(&cs, "println") || crate::parser::word_is(&cs, "true")
        || crate::parser::word_is(&cs, "false") || crate::parser::word_is(&cs, "nth"))
}

/// Appends ` : T` for a present annotation, nothing for an absent one.
fn push_annot(out: &mut Vec<char>, t: &Ty) -> (r: bool)
    ensures
        r == (t@ == TyV::UnkTy || printable_ty(t@)),
        r ==> final(out)@ == old(out)@ + spec_print_annot(t@),
        !r ==> final(out)@ == old(out)@,
{
    match t {
        Ty::UnkTy => {
            proof {
                assert(old(out)@ + spec_print_annot(t@) =~= old(out)@);
            }
            true
        },
        _ => {
            match print_ty(t) {
                Some(mut cs) => {
                    let mut colon = string_to_chars(" : ");
                    out.append(&mut colon);
                    out.append(&mut cs);
                    proof {
                        assert(out@ =~= old(out)@ + spec_print_annot(t@));
                    }
                    true
                },
                None => false,
            }
        },
    }
}

/// Prints an expression in atom position.
fn print_atom_chars(e: &Expr) -> (r: Option<Vec<char>>)
    ensures
        match r {
            Some(cs) => printable(e@) && cs@ == spec_print_atom(e@),
            None => !printable(e@),
        },
    decreases *e, 2int,
{
    match e {
        Expr::IntLit { .. } => print_expr_chars(e),
        Expr::UnitLit { .. } => print_expr_chars(e),
        Expr::VarRef { .. } => print_expr_chars(e),
        Expr::Builtin { .. } => print_expr_chars(e),
        _ => {
            let mut inner = print_expr_chars(e)?;
            let mut out: Vec<char> = Vec::new();
            out.push('(');
            out.append(&mut inner);
            out.push(')');
            proof {
                assert(out@ =~= seq!['('] + spec_print_expr(e@) + seq![')']);
            }
            Some(out)
        },
    }
}

/// Prints the canonical text of an expression, or fails on a tree the
/// grammar cannot express.
#[verifier::rlimit(100)]
fn print_expr_chars(e: &Expr) -> (r: Option<Vec<char>>)
    ensures
        match r {
            Some(cs) => printable(e@) && cs@ == spec_print_expr(e@),
            None => !printable(e@),
        },
    decreases *e, 1int,
{
    match e {
        Expr::IntLit { val } => {
            if *val < 0 {
                return None;
            }
            Some(i64_to_dec(*val))
        },
        Expr::UnitLit {} => Some(string_to_chars("()")),
        Expr::VarRef { id } => {
            if is_printable_var(id) {
                Some(string_to_chars(id.as_str()))
            } else {
                None
            }
        },
        Expr::Builtin { op } => match op {
            BuiltinOp::Println => Some(string_to_chars("println")),
            BuiltinOp::Nth => Some(string_to_chars("nth")),
            BuiltinOp::True => Some(string_to_chars("true")),
            BuiltinOp::False => Some(string_to_chars("false")),
        },
        Expr::Binary { lhs, op, rhs } => {
            let tok: &str = match op {
                BinOp::Add => "+",
                BinOp::Sub => "-",
                BinOp::Mul => "*",
                BinOp::Div => "/",
                BinOp::Rem => "%",
                BinOp::Gt => ">",
                BinOp::Lt => "<",
                BinOp::Ge => ">=",
                BinOp::Le => "<=",
                BinOp::Eq => "==",
                BinOp::Ne => "!=",
                _ => {
                    return None;
                },
            };
            let mut out = print_atom_chars(lhs)?;
            out.push(' ');
            let mut t = string_to_chars(tok);
            out.append(&mut t);
            out.push(' ');
            let mut r2 = print_atom_chars(rhs)?;
            out.append(&mut r2);
            proof {
                assert(out@ =~= spec_print_expr(e@));
            }
            Some(out)
        },
        Expr::Unary { op, sub } => {
            let mut out = match op {
                UnaOp::Neg => string_to_chars("-"),
                UnaOp::Lnot => string_to_chars("!"),
            };
            let mut s2 = print_atom_chars(sub)?;
            out.append(&mut s2);
            proof {
                assert(out@ =~= spec_print_expr(e@));
            }
            Some(out)
        },
        Expr::App { fun, arg } => {
            let mut out = print_atom_chars(fun)?;
            out.push(' ');
            let mut a2 = print_atom_chars(arg)?;
            out.append(&mut a2);
            proof {
                assert(out@ =~= spec_print_expr(e@));
            }
            Some(out)
        },
        Expr::Sequence { subs } => {
            if subs.len() < 2 {
                proof {
                    crate::ast::lemma_expr_models(subs@);
                }
                return None;
            }
            proof {
                crate::ast::lemma_expr_models(subs@);
                assert(crate::ast::expr_models(subs@).skip(0) =~= crate::ast::expr_models(subs@));
            }
            let out = print_list_chars(subs, 0, "; ")?;
            Some(out)
        },
        Expr::Tuple { subs } => {
            if subs.len() < 2 {
                proof {
                    crate::ast::lemma_expr_models(subs@);
                }
                return None;
            }
            proof {
                crate::ast::lemma_expr_models(subs@);
                assert(crate::ast::expr_models(subs@).skip(0) =~= crate::ast::expr_models(subs@));
            }
            let mut inner = print_list_chars(subs, 0, ", ")?;
            let mut out: Vec<char> = Vec::new();
            out.push('(');
            out.append(&mut inner);
            out.push(')');
            proof {
                assert(out@ =~= spec_print_expr(e@));
            }
            Some(out)
        },
        Expr::Nth { idx, sub } => {
            if *idx < 0 {
                return None;
            }
            let mut out = string_to_chars("nth ");
            let mut d = i64_to_dec(*idx);
            out.append(&mut d);
            out.push(' ');
            let mut s2 = print_atom_chars(sub)?;
            out.append(&mut s2);
            proof {
                assert(out@ =~= spec_print_expr(e@));
            }
            Some(out)
        },
        Expr::Ite { cond, tr, fl } => {
            let mut out = string_to_chars("if ");
            let mut c2 = print_atom_chars(cond)?;
            out.append(&mut c2);
            let mut w1 = string_to_chars(" then ");
            out.append(&mut w1);
            let mut t2 = print_atom_chars(tr)?;
            out.append(&mut t2);
            let mut w2 = string_to_chars(" else ");
            out.append(&mut w2);
            let mut f2 = print_atom_chars(fl)?;
            out.append(&mut f2);
            proof {
                assert(out@ =~= spec_print_expr(e@));
            }
            Some(out)
        },
        Expr::Abs { arg_name, arg_ty, body } => {
            if !is_printable_var(arg_name) {
                return None;
            }
            match arg_ty {
                Ty::UnkTy => {},
                _ => {
                    return None;
                },
            }
            let mut out = string_to_chars("\\");
            let mut n2 = string_to_chars(arg_name.as_str());
            out.append(&mut n2);
            proof {
                assert(out@ + spec_print_annot(arg_ty@) =~= out@);
            }
            let mut w = string_to_chars(" -> ");
            out.append(&mut w);
            let mut b2 = print_expr_chars(body)?;
            out.append(&mut b2);
            proof {
                assert(out@ =~= spec_print_expr(e@));
            }
            Some(out)
        },
        Expr::Let { name, ty, val, body } => {
            if !is_printable_var(name) {
                return None;
            }
            let mut out = string_to_chars("let ");
            let mut n2 = string_to_chars(name.as_str());
            out.append(&mut n2);
            if !push_annot(&mut out, ty) {
                return None;
            }
            let mut w1 = string_to_chars(" = ");
            out.append(&mut w1);
            let mut v2 = print_expr_chars(val)?;
            out.append(&mut v2);
            let mut w2 = string_to_chars(" in ");
            out.append(&mut w2);
            let mut b2 = print_expr_chars(body)?;
            out.append(&mut b2);
            proof {
                assert(out@ =~= spec_print_expr(e@));
            }
            Some(out)
        },
        Expr::LetRec { arms, body } => {
            proof {
                crate::ast::lemma_letrecarm_models(arms@);
            }
            if arms.len() == 0 {
                return None;
            }
            proof {
                assert(crate::ast::letrecarm_models(arms@).skip(0) =~= crate::ast::letrecarm_models(
                    arms@,
                ));
            }
            let mut out = string_to_chars("let rec ");
            let mut a2 = print_arms_chars(arms, 0)?;
            out.append(&mut a2);
            let mut w = string_to_chars(" in ");
            out.append(&mut w);
            let mut b2 = print_expr_chars(body)?;
            out.append(&mut b2);
            proof {
                assert(out@ =~= spec_print_expr(e@));
            }
            Some(out)
        },
        Expr::Match { sub, arms } => {
            proof {
                crate::ast::lemma_matcharm_models(arms@);
            }
            if arms.len() == 0 {
                return None;
            }
            proof {
                assert(crate::ast::matcharm_models(arms@).skip(0) =~= crate::ast::matcharm_models(
                    arms@,
                ));
            }
            let mut out = string_to_chars("match ");
            let mut s2 = print_atom_chars(sub)?;
            out.append(&mut s2);
            let mut a2 = print_matcharms_chars(arms, 0)?;
            out.append(&mut a2);
            let mut w = string_to_chars(" end");
            out.append(&mut w);
            proof {
                assert(out@ =~= spec_print_expr(e@));
            }
            Some(out)
        },
    }
}

/// Prints the expressions from position `i` on, joined by the separator.
fn print_list_chars(subs: &Vec<Expr>, i: usize, sep: &str) -> (r: Option<Vec<char>>)
    requires
        i < subs@.len(),
    ensures
        match r {
            Some(cs) => printable_list(crate::ast::expr_models(subs@).skip(i as int)) && cs@
                == spec_print_list(crate::ast::expr_models(subs@).skip(i as int), sep@),
            None => !printable_list(crate::ast::expr_models(subs@).skip(i as int)),
        },
    decreases subs@, subs@.len() - i, 3int,
{
    let ghost sm = crate::ast::expr_models(subs@);
    proof {
        crate::ast::lemma_expr_models(subs@);
        assert(decreases_to!(subs@ => subs@[i as int]));
        assert(sm.skip(i as int).first() == sm[i as int]);
        assert(sm.skip(i as int).drop_first() =~= sm.skip(i + 1));
    }
    let head = print_atom_chars(&subs[i]);
    match head {
        Some(mut out) => {
            if i == subs.len() - 1 {
                proof {
                    assert forall|q: int| 0 <= q < sm.skip(i as int).len() implies printable(
                        #[trigger] sm.skip(i as int)[q],
                    ) by {
                        assert(sm.skip(i as int)[q] == sm[i as int]);
                    }
                }
                return Some(out);
            }
            let mut s2 = string_to_chars(sep);
            out.append(&mut s2);
            match print_list_chars(subs, i + 1, sep) {
                Some(mut rest) => {
                    out.append(&mut rest);
                    proof {
                        assert forall|q: int|
                            0 <= q < sm.skip(i as int).len() implies printable(
                            #[trigger] sm.skip(i as int)[q],
                        ) by {
                            if q == 0 {
                            } else {
                                assert(sm.skip(i as int)[q] == sm.skip(i + 1)[q - 1]);
                            }
                        }
                        assert(out@ =~= spec_print_list(sm.skip(i as int), sep@));
                    }
                    Some(out)
                },
                None => {
                    proof {
                        let bad = choose|q: int|
                            0 <= q < sm.skip(i + 1).len() && !printable(#[trigger] sm.skip(i + 1)[q]);
                        assert(sm.skip(i as int)[bad + 1] == sm.skip(i + 1)[bad]);
                    }
                    None
                },
            }
        },
        None => {
            proof {
                assert(sm.skip(i as int)[0] == sm[i as int]);
            }
            None
        },
    }
}

/// Prints the `let rec` arms from position `i` on, joined by ` and `.
fn print_arms_chars(arms: &Vec<LetRecArm>, i: usize) -> (r: Option<Vec<char>>)
    requires
        i < arms@.len(),
    ensures
        match r {
            Some(cs) => printable_arms(crate::ast::letrecarm_models(arms@).skip(i as int)) && cs@
                == spec_print_armlist(crate::ast::letrecarm_models(arms@).skip(i as int)),
            None => !printable_arms(crate::ast::letrecarm_models(arms@).skip(i as int)),
        },
    decreases arms@, arms@.len() - i, 3int,
{
    let ghost am = crate::ast::letrecarm_models(arms@);
    proof {
        crate::ast::lemma_letrecarm_models(arms@);
        assert(decreases_to!(arms@ => arms@[i as int]));
        assert(decreases_to!(arms@[i as int] => arms@[i as int].body));
        assert(am.skip(i as int).first() == am[i as int]);
        assert(am.skip(i as int).drop_first() =~= am.skip(i + 1));
    }
    // one arm: name, annotation, `= \`, argument, annotation, arrow, body
    if !is_printable_var(&arms[i].fn_name) {
        return None;
    }
    let mut out = string_to_chars(arms[i].fn_name.as_str());
    if !push_annot(&mut out, &arms[i].fn_ty) {
        return None;
    }
    let mut w1 = string_to_chars(" = \\");
    out.append(&mut w1);
    let mut n2 = string_to_chars(arms[i].arg_name.as_str());
    if !is_printable_var(&arms[i].arg_name) {
        return None;
    }
    out.append(&mut n2);
    match &arms[i].arg_ty {
        Ty::UnkTy => {},
        _ => {
            return None;
        },
    }
    proof {
        assert(out@ + spec_print_annot(am[i as int].arg_ty) =~= out@);
    }
    let mut w2 = string_to_chars(" -> ");
    out.append(&mut w2);
    let mut b2 = match print_expr_chars(&arms[i].body) {
        Some(cs) => cs,
        None => {
            return None;
        },
    };
    out.append(&mut b2);
    proof {
        assert(out@ =~= spec_print_arm(am[i as int]));
    }
    if i == arms.len() - 1 {
        proof {
            assert forall|q: int| 0 <= q < am.skip(i as int).len() implies ({
                let a = #[trigger] am.skip(i as int)[q];
                printable_var(a.fn_name) && (a.fn_ty == TyV::UnkTy || printable_ty(a.fn_ty))
                    && printable_var(a.arg_name) && a.arg_ty == TyV::UnkTy && printable(
                    *a.body,
                )
            }) by {
                assert(am.skip(i as int)[q] == am[i as int]);
            }
        }
        return Some(out);
    }
    let mut w3 = string_to_chars(" and ");
    out.append(&mut w3);
    match print_arms_chars(arms, i + 1) {
        Some(mut rest) => {
            out.append(&mut rest);
            proof {
                assert forall|q: int| 0 <= q < am.skip(i as int).len() implies ({
                    let a = #[trigger] am.skip(i as int)[q];
                    printable_var(a.fn_name) && (a.fn_ty == TyV::UnkTy || printable_ty(a.fn_ty))
                        && printable_var(a.arg_name) && a.arg_ty == TyV::UnkTy && printable(
                        *a.body,
                    )
                }) by {
                    if q > 0 {
                        assert(am.skip(i as int)[q] == am.skip(i + 1)[q - 1]);
                    }
                }
                assert(out@ =~= spec_print_armlist(am.skip(i as int)));
            }
            Some(out)
        },
        None => {
            proof {
                let bad = choose|q: int|
                    0 <= q < am.skip(i + 1).len() && !({
                        let a = #[trigger] am.skip(i + 1)[q];
                        printable_var(a.fn_name) && (a.fn_ty == TyV::UnkTy || printable_ty(
                            a.fn_ty,
                        )) && printable_var(a.arg_name) && a.arg_ty == TyV::UnkTy && printable(
                            *a.body,
                        )
                    });
                assert(am.skip(i as int)[bad + 1] == am.skip(i + 1)[bad]);
            }
            None
        },
    }
}

/// Prints the `match` arms from position `i` on.
fn print_matcharms_chars(arms: &Vec<MatchArm>, i: usize) -> (r: Option<Vec<char>>)
    requires
        i <= arms@.len(),
    ensures
        match r {
            Some(cs) => printable_match_arms(crate::ast::matcharm_models(arms@).skip(i as int))
                && cs@ == spec_print_matcharms(crate::ast::matcharm_models(arms@).skip(i as int)),
            None => !printable_match_arms(crate::ast::matcharm_models(arms@).skip(i as int)),
        },
    decreases arms@, arms@.len() - i, 3int,
{
    let ghost am = crate::ast::matcharm_models(arms@);
    proof {
        crate::ast::lemma_matcharm_models(arms@);
    }
    if i == arms.len() {
        let out: Vec<char> = Vec::new();
        proof {
            assert(am.skip(i as int) =~= Seq::<MatchArmV>::empty());
            assert(out@ =~= spec_print_matcharms(am.skip(i as int)));
        }
        return Some(out);
    }
    proof {
        assert(decreases_to!(arms@ => arms@[i as int]));
        assert(decreases_to!(arms@[i as int] => arms@[i as int].res));
        assert(decreases_to!(arms@[i as int] => arms@[i as int].ptn));
        assert(am.skip(i as int).first() == am[i as int]);
        assert(am.skip(i as int).drop_first() =~= am.skip(i + 1));
    }
    let mut out = string_to_chars(" | ");
    let mut p2 = match print_ptn_chars(&arms[i].ptn) {
        Some(cs) => cs,
        None => {
            return None;
        },
    };
    out.append(&mut p2);
    let mut w = string_to_chars(" -> ");
    out.append(&mut w);
    let mut r2 = match print_atom_chars(&arms[i].res) {
        Some(cs) => cs,
        None => {
            return None;
        },
    };
    out.append(&mut r2);
    match print_matcharms_chars(arms, i + 1) {
        Some(mut rest) => {
            out.append(&mut rest);
            proof {
                assert forall|q: int|
                    0 <= q < am.skip(i as int).len() implies printable_ptn(
                    (#[trigger] am.skip(i as int)[q]).ptn,
                ) && printable(*am.skip(i as int)[q].res) by {
                    if q > 0 {
                        assert(am.skip(i as int)[q] == am.skip(i + 1)[q - 1]);
                    }
                }
                assert(out@ =~= spec_print_matcharms(am.skip(i as int)));
            }
            Some(out)
        },
        None => {
            proof {
                let bad = choose|q: int|
                    0 <= q < am.skip(i + 1).len() && !(printable_ptn(
                        (#[trigger] am.skip(i + 1)[q]).ptn,
                    ) && printable(*am.skip(i + 1)[q].res));
                assert(am.skip(i as int)[bad + 1] == am.skip(i + 1)[bad]);
            }
            None
        },
    }
}

/// Prints a pattern.
fn print_ptn_chars(p: &MatchPattern) -> (r: Option<Vec<char>>)
    ensures
        match r {
            Some(cs) => printable_ptn(p@) && cs@ == spec_print_ptn(p@),
            None => !printable_ptn(p@),
        },
    decreases *p, 1int,
{
    match p {
        MatchPattern::Binder { name } => {
            if is_printable_var(name) {
                Some(string_to_chars(name.as_str()))
            } else {
                None
            }
        },
        MatchPattern::Lit { val } => match val {
            Expr::IntLit { val: v } => {
                if *v < 0 {
                    return None;
                }
                Some(i64_to_dec(*v))
            },
            Expr::UnitLit {} => Some(string_to_chars("()")),
            _ => None,
        },
        MatchPattern::Tuple { subs } => {
            proof {
                crate::ast::lemma_pattern_models(subs@);
            }
            if subs.len() < 2 {
                return None;
            }
            let out = print_ptns_chars(subs, 0, ", ")?;
            proof {
                assert(crate::ast::pattern_models(subs@).skip(0) =~= crate::ast::pattern_models(
                    subs@,
                ));
            }
            Some(out)
        },
        MatchPattern::DataType { ctor, subs } => {
            proof {
                crate::ast::lemma_pattern_models(subs@);
            }
            let cc = string_to_chars(ctor.as_str());
            if !is_ident_seq(&cc) || crate::parser::is_keyword(&cc) {
                return None;
            }
            if subs.len() == 0 {
                return None;
            }
            let mut out = cc;
            let mut a2 = print_ctor_args_chars(subs, 0)?;
            out.append(&mut a2);
            proof {
                assert(crate::ast::pattern_models(subs@).skip(0) =~= crate::ast::pattern_models(
                    subs@,
                ));
                assert(out@ =~= spec_print_ptn(p@));
            }
            Some(out)
        },
    }
}

/// Prints the patterns from position `i` on, each parenthesised, joined by
/// the separator.
fn print_ptns_chars(subs: &Vec<MatchPattern>, i: usize, sep: &str) -> (r: Option<Vec<char>>)
    requires
        i < subs@.len(),
    ensures
        match r {
            Some(cs) => printable_ptn_list(crate::ast::pattern_models(subs@).skip(i as int)) && cs@
                == spec_print_ptn_list(crate::ast::pattern_models(subs@).skip(i as int), sep@),
            None => !printable_ptn_list(crate::ast::pattern_models(subs@).skip(i as int)),
        },
    decreases subs@, subs@.len() - i, 3int,
{
    let ghost pm = crate::ast::pattern_models(subs@);
    proof {
        crate::ast::lemma_pattern_models(subs@);
        assert(decreases_to!(subs@ => subs@[i as int]));
        assert(pm.skip(i as int).first() == pm[i as int]);
        assert(pm.skip(i as int).drop_first() =~= pm.skip(i + 1));
    }
    let mut out: Vec<char> = Vec::new();
    out.push('(');
    let mut p2 = match print_ptn_chars(&subs[i]) {
        Some(cs) => cs,
        None => {
            return None;
        },
    };
    out.append(&mut p2);
    out.push(')');
    if i == subs.len() - 1 {
        proof {
            assert forall|q: int| 0 <= q < pm.skip(i as int).len() implies printable_ptn(
                #[trigger] pm.skip(i as int)[q],
            ) by {
                assert(pm.skip(i as int)[q] == pm[i as int]);
            }
            assert(out@ =~= spec_print_ptn_list(pm.skip(i as int), sep@));
        }
        return Some(out);
    }
    let mut s2 = string_to_chars(sep);
    out.append(&mut s2);
    match print_ptns_chars(subs, i + 1, sep) {
        Some(mut rest) => {
            out.append(&mut rest);
            proof {
                assert forall|q: int| 0 <= q < pm.skip(i as int).len() implies printable_ptn(
                    #[trigger] pm.skip(i as int)[q],
                ) by {
                    if q > 0 {
                        assert(pm.skip(i as int)[q] == pm.skip(i + 1)[q - 1]);
                    }
                }
                assert(out@ =~= spec_print_ptn_list(pm.skip(i as int), sep@));
            }
            Some(out)
        },
        None => {
            proof {
                let bad = choose|q: int|
                    0 <= q < pm.skip(i + 1).len() && !printable_ptn(#[trigger] pm.skip(i + 1)[q]);
                assert(pm.skip(i as int)[bad + 1] == pm.skip(i + 1)[bad]);
            }
            None
        },
    }
}

/// Prints constructor arguments from position `i` on, each parenthesised.
fn print_ctor_args_chars(subs: &Vec<MatchPattern>, i: usize) -> (r: Option<Vec<char>>)
    requires
        i <= subs@.len(),
    ensures
        match r {
            Some(cs) => printable_ptn_list(crate::ast::pattern_models(subs@).skip(i as int)) && cs@
                == spec_print_ctor_args(crate::ast::pattern_models(subs@).skip(i as int)),
            None => !printable_ptn_list(crate::ast::pattern_models(subs@).skip(i as int)),
        },
    decreases subs@, subs@.len() - i, 3int,
{
    let ghost pm = crate::ast::pattern_models(subs@);
    proof {
        crate::ast::lemma_pattern_models(subs@);
    }
    if i == subs.len() {
        let out: Vec<char> = Vec::new();
        proof {
            assert(pm.skip(i as int) =~= Seq::<MatchPatternV>::empty());
            assert(out@ =~= spec_print_ctor_args(pm.skip(i as int)));
        }
        return Some(out);
    }
    proof {
        assert(decreases_to!(subs@ => subs@[i as int]));
        assert(pm.skip(i as int).first() == pm[i as int]);
        assert(pm.skip(i as int).drop_first() =~= pm.skip(i + 1));
    }
    let mut out = string_to_chars(" (");
    let mut p2 = match print_ptn_chars(&subs[i]) {
        Some(cs) => cs,
        None => {
            return None;
        },
    };
    out.append(&mut p2);
    out.push(')');
    match print_ctor_args_chars(subs, i + 1) {
        Some(mut rest) => {
            out.append(&mut rest);
            proof {
                assert forall|q: int| 0 <= q < pm.skip(i as int).len() implies printable_ptn(
                    #[trigger] pm.skip(i as int)[q],
                ) by {
                    if q > 0 {
                        assert(pm.skip(i as int)[q] == pm.skip(i + 1)[q - 1]);
                    }
                }
                assert(out@ =~= spec_print_ctor_args(pm.skip(i as int)));
            }
            Some(out)
        },
        None => {
            proof {
                let bad = choose|q: int|
                    0 <= q < pm.skip(i + 1).len() && !printable_ptn(#[trigger] pm.skip(i + 1)[q]);
                assert(pm.skip(i as int)[bad + 1] == pm.skip(i + 1)[bad]);
            }
            None
        },
    }
}

/// Prints the canonical text of an expression: text the parser reads back
/// to the same tree.  Fails exactly on trees the grammar cannot express.
pub fn print_expr(e: &Expr) -> (r: Option<String>)
    ensures
        match r {
            Some(s) => printable(e@) && s@ == spec_print_expr(e@),
            None => !printable(e@),
        },
{
    match print_expr_chars(e) {
        Some(cs) => Some(chars_to_string(&cs)),
        None => None,
    }
}

} // verus!
