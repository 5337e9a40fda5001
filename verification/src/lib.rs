//! A compiler and abstract-machine interpreter for MiniML, a small
//! statically-typed functional language.  Surface programs are parsed to an
//! AST, alpha-renamed to unique binders, resolved to de Bruijn index pairs,
//! lowered to a labelled instruction stream for an SECD-style stack machine,
//! and executed step by step.

use vstd::prelude::*;

pub mod ast;
pub mod debrujin;
pub mod inspector;
pub mod namer;
pub mod node_id;
pub mod num;
pub mod parser;
pub mod printer;
pub mod utils;
pub mod secd;

use crate::ast::Prog;
use crate::debrujin::DeBrujin;
use crate::namer::Namer;
use crate::secd::langdef::SECDInstr;
use crate::secd::repr::{instrs_to_text, spec_program_text};
use crate::secd::secdgen::{secdgen, spec_compile_main, spec_flatten};

verus! {

/// Compiles a program: the main expression is renamed in place to unique
/// binders, resolved to de Bruijn pairs, and lowered to a flat instruction
/// program.  Fails when the program names an unknown variable, a `let rec`
/// repeats a function name, a construct has no machine counterpart, or a
/// counter reaches the machine's integer range.
pub fn compile_prog(prog: &mut Prog) -> (r: Result<Vec<SECDInstr>, String>)
    ensures
        match crate::namer::spec_rename(old(prog).main_expr@, Map::empty(), Seq::empty()) {
            Err(_) => r is Err,
            Ok(done) => {
                &&& final(prog).main_expr@ == done.0
                &&& match crate::debrujin::spec_resolve_expr(done.0, Seq::empty(), 0) {
                    None => r is Err,
                    Some(m) => match spec_compile_main(
                        done.0,
                        m,
                        0,
                        Map::empty(),
                        Seq::empty(),
                    ) {
                        Err(_) => r is Err,
                        Ok(blocks) => if crate::debrujin::varref_count(done.0) <= usize::MAX {
                            r matches Ok(instrs) && crate::secd::langdef::instr_models(instrs@)
                                == spec_flatten(blocks)
                        } else {
                            r is Err
                        },
                    },
                }
            },
        },
{
    let mut namer = Namer::new();
    match namer.visit(&mut prog.main_expr) {
        Ok(_) => {},
        Err(_) => {
            return Err(String::from_str("renaming failed"));
        },
    }
    let mut db = DeBrujin::new();
    match db.walk(&prog.main_expr) {
        Ok(_) => {},
        Err(msg) => {
            return Err(msg);
        },
    }
    proof {
        db.lemma_next_bounded();
        assert(crate::debrujin::varref_count(prog.main_expr@) <= usize::MAX);
    }
    let info = db.get_info();
    proof {
        assert(Map::<nat, crate::debrujin::DeBrujinIdx>::empty().union_prefer_right(
            info@,
        ) =~= info@);
        match crate::debrujin::spec_resolve_expr(prog.main_expr@, Seq::empty(), 0) {
            Some(m) => {
                assert(Map::<nat, crate::debrujin::DeBrujinIdx>::empty().union_prefer_right(m)
                    =~= m);
            },
            None => {
                assert(false);
            },
        }
    }
    match secdgen(info, &prog.main_expr) {
        Ok(instrs) => Ok(instrs),
        Err(_) => Err(String::from_str("lowering failed")),
    }
}

/// Compiles a program to instruction text, one instruction per line.
///
/// The text format's `const` carries integers only, so a program holding a
/// unit literal lowers (`compile_prog` succeeds on it) but has no textual
/// form: this function then fails where `compile_prog` does not.
pub fn compile_prog_to_text(prog: &mut Prog) -> (r: Result<String, String>)
    ensures
        match crate::namer::spec_rename(old(prog).main_expr@, Map::empty(), Seq::empty()) {
            Err(_) => r is Err,
            Ok(done) => match crate::debrujin::spec_resolve_expr(done.0, Seq::empty(), 0) {
                None => r is Err,
                Some(m) => match spec_compile_main(done.0, m, 0, Map::empty(), Seq::empty()) {
                    Err(_) => r is Err,
                    Ok(blocks) => if crate::debrujin::varref_count(done.0) <= usize::MAX && (
                    forall|k: int|
                        0 <= k < spec_flatten(blocks).len() ==> crate::secd::repr::wf_instr(
                            #[trigger] spec_flatten(blocks)[k],
                        )) {
                        r matches Ok(s) && s@ == spec_program_text(spec_flatten(blocks))
                    } else {
                        r is Err
                    },
                },
            },
        },
{
    let instrs = compile_prog(prog)?;
    match instrs_to_text(&instrs) {
        Some(s) => Ok(s),
        None => Err(String::from_str("a lowered instruction has no textual form")),
    }
}

} // verus!
