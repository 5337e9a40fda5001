//! The code generator: lowers a renamed, resolved expression to labelled
//! instruction blocks for the SECD machine.
//!
//! The whole pass is pinned by the spec-level function [`spec_compile`].
//! Lowering follows the compilation scheme: constants push themselves, a
//! variable reference becomes `Access` (and `Focus` for a bundle member)
//! with a one-based offset that reserves slot zero of the frame for the
//! callee's own closure, a lambda becomes a fresh labelled block ending in
//! `Return` plus a `Closure` at the use site, a `let rec` a `Closures`
//! bundle, a sequence interleaves `Pop 1`, and a conditional branches
//! through fresh `tr`/`fl`/`endif` labels.  The surface `true` and `false`
//! lower to the integer constants one and zero, and `nth` to the machine's
//! `nth` built-in over an index constant; tuple construction and `match`
//! have no machine counterpart and are reported as unsupported.

use vstd::prelude::*;

use crate::ast::{Expr, ExprV, LetRecArm, LetRecArmV};
use crate::debrujin::{DeBrujinIdx, DeBrujinInfo};
use crate::namer::spec_suffix;
use crate::num::{dec_of, u64_to_dec};
use crate::secd::langdef::{instr_models, SECDInstr, SECDInstrV, SECDVal, SECDValV};
use crate::secd::repr::{
    spec_translate_binop, spec_translate_unaop, translate_binop, translate_unaop,
};
use crate::utils::{chars_to_string, string_to_chars};

verus! {

/// The errors of the lowering pass.
#[derive(Debug, Clone, Copy, PartialEq, Eq, Structural)]
pub enum CodegenErr {
    /// A variable reference without a de Bruijn annotation.
    MissingAnnotation,
    /// A construct without a machine counterpart: a tuple constructor, a
    /// `match`, or an empty `let rec`.
    Unsupported,
    /// A label counter exhausted the machine's integer range.
    TooManyLabels,
    /// A de Bruijn index at the machine's integer range.
    IndexOverflow,
}

/// The result of lowering one expression: the code emitted in line, the
/// stepped reference counter, the stepped label counters, and the function
/// blocks emitted so far.
pub struct GenOut {
    pub code: Seq<SECDInstrV>,
    pub n: nat,
    pub lc: Map<Seq<char>, nat>,
    pub blocks: Seq<(Seq<char>, Seq<SECDInstrV>)>,
}

/// Issues a fresh label `<prefix><k>` and steps the counter of `prefix`.
pub open spec fn spec_new_label(lc: Map<Seq<char>, nat>, prefix: Seq<char>) -> Result<
    (Seq<char>, Map<Seq<char>, nat>),
    CodegenErr,
> {
    let k = spec_suffix(lc, prefix);
    if k >= usize::MAX {
        Err(CodegenErr::TooManyLabels)
    } else {
        Ok((prefix + dec_of(k), lc.insert(prefix, k + 1)))
    }
}

/// The code of a variable reference numbered `n`: a one-based `Access`, and
/// a one-based `Focus` for a member of a mutual-recursion bundle.
pub open spec fn spec_compile_varref(info: Map<nat, DeBrujinIdx>, n: nat) -> Result<
    Seq<SECDInstrV>,
    CodegenErr,
> {
    if !info.dom().contains(n) {
        Err(CodegenErr::MissingAnnotation)
    } else {
        match info[n] {
            DeBrujinIdx::Var(i) => if i >= usize::MAX {
                Err(CodegenErr::IndexOverflow)
            } else {
                Ok(seq![SECDInstrV::Access((i + 1) as usize)])
            },
            DeBrujinIdx::Rec(i, j) => if i >= usize::MAX || j >= usize::MAX {
                Err(CodegenErr::IndexOverflow)
            } else {
                Ok(
                    seq![
                        SECDInstrV::Access((i + 1) as usize),
                        SECDInstrV::Focus((j + 1) as usize),
                    ],
                )
            },
        }
    }
}

/// Lowers one expression.
pub open spec fn spec_compile(
    e: ExprV,
    info: Map<nat, DeBrujinIdx>,
    n: nat,
    lc: Map<Seq<char>, nat>,
    blocks: Seq<(Seq<char>, Seq<SECDInstrV>)>,
) -> Result<GenOut, CodegenErr>
    decreases e, 0int,
{
    match e {
        ExprV::IntLit { val } => Ok(
            GenOut { code: seq![SECDInstrV::Const(SECDValV::IntVal(val))], n, lc, blocks },
        ),
        ExprV::UnitLit { .. } => Ok(
            GenOut { code: seq![SECDInstrV::Const(SECDValV::UnitVal)], n, lc, blocks },
        ),
        ExprV::Builtin { op } => Ok(
            GenOut {
                code: match op {
                    crate::ast::BuiltinOp::True => seq![SECDInstrV::Const(SECDValV::IntVal(1))],
                    crate::ast::BuiltinOp::False => seq![SECDInstrV::Const(SECDValV::IntVal(0))],
                    crate::ast::BuiltinOp::Println => seq![
                        SECDInstrV::Builtin(crate::secd::langdef::BuiltinOp::Println),
                    ],
                    crate::ast::BuiltinOp::Nth => seq![
                        SECDInstrV::Builtin(crate::secd::langdef::BuiltinOp::Nth),
                    ],
                },
                n,
                lc,
                blocks,
            },
        ),
        ExprV::VarRef { .. } => if n >= usize::MAX {
            Err(CodegenErr::IndexOverflow)
        } else {
            match spec_compile_varref(info, n) {
                Ok(code) => Ok(GenOut { code, n: n + 1, lc, blocks }),
                Err(k) => Err(k),
            }
        },
        ExprV::Binary { lhs, op, rhs } => match spec_compile(*lhs, info, n, lc, blocks) {
            Ok(o1) => match spec_compile(*rhs, info, o1.n, o1.lc, o1.blocks) {
                Ok(o2) => Ok(
                    GenOut {
                        code: o1.code + o2.code + seq![
                            SECDInstrV::Binary(spec_translate_binop(op)),
                        ],
                        n: o2.n,
                        lc: o2.lc,
                        blocks: o2.blocks,
                    },
                ),
                Err(k) => Err(k),
            },
            Err(k) => Err(k),
        },
        ExprV::Unary { op, sub } => match spec_compile(*sub, info, n, lc, blocks) {
            Ok(o1) => Ok(
                GenOut {
                    code: o1.code + seq![SECDInstrV::Unary(spec_translate_unaop(op))],
                    n: o1.n,
                    lc: o1.lc,
                    blocks: o1.blocks,
                },
            ),
            Err(k) => Err(k),
        },
        ExprV::App { fun, arg } => {
            if *fun == (ExprV::Builtin { op: crate::ast::BuiltinOp::Println }) {
                // the built-in consumes its argument directly
                match spec_compile(*arg, info, n, lc, blocks) {
                    Ok(o1) => Ok(
                        GenOut {
                            code: o1.code + seq![
                                SECDInstrV::Builtin(crate::secd::langdef::BuiltinOp::Println),
                            ],
                            n: o1.n,
                            lc: o1.lc,
                            blocks: o1.blocks,
                        },
                    ),
                    Err(k) => Err(k),
                }
            } else {
                match spec_compile(*fun, info, n, lc, blocks) {
                    Ok(o1) => match spec_compile(*arg, info, o1.n, o1.lc, o1.blocks) {
                        Ok(o2) => Ok(
                            GenOut {
                                code: o1.code + o2.code + seq![SECDInstrV::Apply],
                                n: o2.n,
                                lc: o2.lc,
                                blocks: o2.blocks,
                            },
                        ),
                        Err(k) => Err(k),
                    },
                    Err(k) => Err(k),
                }
            }
        },
        ExprV::Sequence { subs } => spec_compile_list(subs, info, n, lc, blocks),
        ExprV::Abs { body, .. } => match spec_new_label(lc, "lam"@) {
            Ok((lab, lc1)) => match spec_compile(*body, info, n, lc1, blocks) {
                Ok(o1) => Ok(
                    GenOut {
                        code: seq![SECDInstrV::Closure(lab)],
                        n: o1.n,
                        lc: o1.lc,
                        blocks: o1.blocks.push((lab, o1.code + seq![SECDInstrV::Return])),
                    },
                ),
                Err(k) => Err(k),
            },
            Err(k) => Err(k),
        },
        ExprV::Let { val, body, .. } => match spec_compile(*val, info, n, lc, blocks) {
            Ok(o1) => match spec_compile(*body, info, o1.n, o1.lc, o1.blocks) {
                Ok(o2) => Ok(
                    GenOut {
                        code: o1.code + seq![SECDInstrV::PushEnv] + o2.code,
                        n: o2.n,
                        lc: o2.lc,
                        blocks: o2.blocks,
                    },
                ),
                Err(k) => Err(k),
            },
            Err(k) => Err(k),
        },
        ExprV::Tuple { .. } => Err(CodegenErr::Unsupported),
        ExprV::Nth { idx, sub } => match spec_compile(*sub, info, n, lc, blocks) {
            Ok(o1) => Ok(
                GenOut {
                    code: o1.code + seq![
                        SECDInstrV::Const(SECDValV::IntVal(idx)),
                        SECDInstrV::Builtin(crate::secd::langdef::BuiltinOp::Nth),
                    ],
                    n: o1.n,
                    lc: o1.lc,
                    blocks: o1.blocks,
                },
            ),
            Err(k) => Err(k),
        },
        ExprV::Ite { cond, tr, fl } => match spec_new_label(lc, "tr"@) {
            Ok((l1, lca)) => match spec_new_label(lca, "fl"@) {
                Ok((l2, lcb)) => match spec_new_label(lcb, "endif"@) {
                    Ok((l3, lcc)) => match spec_compile(*cond, info, n, lcc, blocks) {
                        Ok(o1) => match spec_compile(*tr, info, o1.n, o1.lc, o1.blocks) {
                            Ok(o2) => match spec_compile(*fl, info, o2.n, o2.lc, o2.blocks) {
                                Ok(o3) => Ok(
                                    GenOut {
                                        code: o1.code + seq![
                                            SECDInstrV::Branch(
                                                crate::secd::langdef::BrOp::BrFalse,
                                                l2,
                                            ),
                                            SECDInstrV::Label(l1),
                                        ] + o2.code + seq![
                                            SECDInstrV::Branch(crate::secd::langdef::BrOp::Br, l3),
                                            SECDInstrV::Label(l2),
                                        ] + o3.code + seq![SECDInstrV::Label(l3)],
                                        n: o3.n,
                                        lc: o3.lc,
                                        blocks: o3.blocks,
                                    },
                                ),
                                Err(k) => Err(k),
                            },
                            Err(k) => Err(k),
                        },
                        Err(k) => Err(k),
                    },
                    Err(k) => Err(k),
                },
                Err(k) => Err(k),
            },
            Err(k) => Err(k),
        },
        ExprV::LetRec { arms, body } => {
            if arms.len() == 0 {
                Err(CodegenErr::Unsupported)
            } else {
                match spec_compile_arms(arms, info, n, lc, blocks) {
                    Ok((labels, o1)) => match spec_compile(*body, info, o1.n, o1.lc, o1.blocks) {
                        Ok(o2) => Ok(
                            GenOut {
                                code: seq![SECDInstrV::Closures(labels)] + o2.code,
                                n: o2.n,
                                lc: o2.lc,
                                blocks: o2.blocks,
                            },
                        ),
                        Err(k) => Err(k),
                    },
                    Err(k) => Err(k),
                }
            }
        },
        ExprV::Match { .. } => Err(CodegenErr::Unsupported),
    }
}

/// Lowers a sequence: the parts in order, joined by `Pop 1` so that only the
/// last part's value remains on the stack.
pub open spec fn spec_compile_list(
    es: Seq<ExprV>,
    info: Map<nat, DeBrujinIdx>,
    n: nat,
    lc: Map<Seq<char>, nat>,
    blocks: Seq<(Seq<char>, Seq<SECDInstrV>)>,
) -> Result<GenOut, CodegenErr>
    decreases es, 1int,
{
    if es.len() == 0 {
        Ok(GenOut { code: Seq::empty(), n, lc, blocks })
    } else {
        match spec_compile(es.first(), info, n, lc, blocks) {
            Ok(o1) => if es.len() == 1 {
                Ok(o1)
            } else {
                match spec_compile_list(es.drop_first(), info, o1.n, o1.lc, o1.blocks) {
                    Ok(o2) => Ok(
                        GenOut {
                            code: o1.code + seq![SECDInstrV::Pop(1)] + o2.code,
                            n: o2.n,
                            lc: o2.lc,
                            blocks: o2.blocks,
                        },
                    ),
                    Err(k) => Err(k),
                }
            },
            Err(k) => Err(k),
        }
    }
}

/// Lowers the arms of a `let rec`: each arm body becomes a fresh `clos`
/// block ending in `Return`; the labels come back in arm order.
pub open spec fn spec_compile_arms(
    arms: Seq<LetRecArmV>,
    info: Map<nat, DeBrujinIdx>,
    n: nat,
    lc: Map<Seq<char>, nat>,
    blocks: Seq<(Seq<char>, Seq<SECDInstrV>)>,
) -> Result<(Seq<Seq<char>>, GenOut), CodegenErr>
    decreases arms, 1int,
{
    if arms.len() == 0 {
        Ok((Seq::empty(), GenOut { code: Seq::empty(), n, lc, blocks }))
    } else {
        match spec_new_label(lc, "clos"@) {
            Ok((lab, lc1)) => match spec_compile(*arms.first().body, info, n, lc1, blocks) {
                Ok(o1) => {
                    let blocks2 = o1.blocks.push((lab, o1.code + seq![SECDInstrV::Return]));
                    match spec_compile_arms(arms.drop_first(), info, o1.n, o1.lc, blocks2) {
                        Ok((labels, o2)) => Ok((seq![lab] + labels, o2)),
                        Err(k) => Err(k),
                    }
                },
                Err(k) => Err(k),
            },
            Err(k) => Err(k),
        }
    }
}

/// The blocks of a program, flattened: each block is its label line followed
/// by its code.
pub open spec fn spec_flatten(blocks: Seq<(Seq<char>, Seq<SECDInstrV>)>) -> Seq<SECDInstrV>
    decreases blocks.len(),
{
    if blocks.len() == 0 {
        Seq::empty()
    } else {
        seq![SECDInstrV::Label(blocks.first().0)] + blocks.first().1 + spec_flatten(
            blocks.drop_first(),
        )
    }
}

/// The models of the emitted blocks.
pub open spec fn block_models(s: Seq<(String, Vec<SECDInstr>)>) -> Seq<
    (Seq<char>, Seq<SECDInstrV>),
> {
    s.map_values(|b: (String, Vec<SECDInstr>)| (b.0@, instr_models(b.1@)))
}

/// The counters held by the label-suffix entries, later entries winning.
spec fn label_suffix_map(s: Seq<(String, usize)>) -> Map<Seq<char>, nat>
    decreases s.len(),
{
    if s.len() == 0 {
        Map::empty()
    } else {
        label_suffix_map(s.drop_last()).insert(s.last().0@, s.last().1 as nat)
    }
}

/// The last counter entry for a prefix decides its count.
proof fn lemma_label_suffix_found(s: Seq<(String, usize)>, i: int)
    requires
        0 <= i < s.len(),
        forall|j: int| i < j < s.len() ==> (#[trigger] s[j]).0@ != s[i].0@,
    ensures
        label_suffix_map(s).dom().contains(s[i].0@),
        label_suffix_map(s)[s[i].0@] == s[i].1 as nat,
    decreases s.len(),
{
    if i == s.len() - 1 {
    } else {
        assert(s.drop_last()[i] == s[i]);
        lemma_label_suffix_found(s.drop_last(), i);
        assert(s.last().0@ != s[i].0@);
    }
}

/// A prefix no counter entry carries is not counted yet.
proof fn lemma_label_suffix_absent(s: Seq<(String, usize)>, name: Seq<char>)
    requires
        forall|j: int| 0 <= j < s.len() ==> (#[trigger] s[j]).0@ != name,
    ensures
        !label_suffix_map(s).dom().contains(name),
    decreases s.len(),
{
    if s.len() > 0 {
        assert(forall|j: int| 0 <= j < s.len() - 1 ==> s.drop_last()[j] == #[trigger] s[j]);
        lemma_label_suffix_absent(s.drop_last(), name);
    }
}

/// The code generator: emitted blocks, per-prefix label counters, the de
/// Bruijn annotations, and the running reference number.
pub struct SECDGen {
    label_instrs: Vec<(String, Vec<SECDInstr>)>,
    label_suffix: Vec<(String, usize)>,
    debrujin_info: DeBrujinInfo,
    next_id: usize,
}

impl SECDGen {
    /// The per-prefix label counters.
    pub closed spec fn lc(&self) -> Map<Seq<char>, nat> {
        label_suffix_map(self.label_suffix@)
    }

    /// The blocks emitted so far, in emission order.
    pub closed spec fn blocks(&self) -> Seq<(Seq<char>, Seq<SECDInstrV>)> {
        block_models(self.label_instrs@)
    }

    /// The annotations the generator reads.
    pub closed spec fn infos(&self) -> Map<nat, DeBrujinIdx> {
        self.debrujin_info@
    }

    /// The number of the next variable reference.
    pub closed spec fn next(&self) -> nat {
        self.next_id as nat
    }

    /// A fresh generator over the given annotations.
    pub fn new(debrujin_info: DeBrujinInfo) -> (r: Self)
        ensures
            r.lc() == Map::<Seq<char>, nat>::empty(),
            r.blocks() == Seq::<(Seq<char>, Seq<SECDInstrV>)>::empty(),
            r.infos() == debrujin_info@,
            r.next() == 0,
    {
        let r = SECDGen {
            label_instrs: Vec::new(),
            label_suffix: Vec::new(),
            debrujin_info,
            next_id: 0,
        };
        proof {
            assert(r.blocks() =~= Seq::<(Seq<char>, Seq<SECDInstrV>)>::empty());
        }
        r
    }

    /// The count `prefix` is at.
    fn cur_label_suffix(&self, prefix: &String) -> (r: usize)
        ensures
            r as nat == spec_suffix(self.lc(), prefix@),
    {
        let mut i: usize = self.label_suffix.len();
        while i > 0
            invariant
                0 <= i <= self.label_suffix@.len(),
                forall|j: int|
                    i <= j < self.label_suffix@.len() ==> (#[trigger] self.label_suffix@[j]).0@
                        != prefix@,
            decreases i,
        {
            if self.label_suffix[i - 1].0 == *prefix {
                proof {
                    lemma_label_suffix_found(self.label_suffix@, i - 1);
                }
                return self.label_suffix[i - 1].1;
            }
            i = i - 1;
        }
        proof {
            lemma_label_suffix_absent(self.label_suffix@, prefix@);
        }
        0
    }

    /// Issues the fresh label `<prefix><k>` and steps the counter.
    fn new_label(&mut self, prefix: &str) -> (r: Result<String, CodegenErr>)
        ensures
            match spec_new_label(old(self).lc(), prefix@) {
                Ok(done) => {
                    &&& r matches Ok(lab) && lab@ == done.0
                    &&& final(self).lc() == done.1
                },
                Err(k) => r == Err::<String, CodegenErr>(k) && final(self).lc() == old(self).lc(),
            },
            final(self).blocks() == old(self).blocks(),
            final(self).infos() == old(self).infos(),
            final(self).next() == old(self).next(),
    {
        let p = String::from_str(prefix);
        let k = self.cur_label_suffix(&p);
        if k == usize::MAX {
            return Err(CodegenErr::TooManyLabels);
        }
        self.label_suffix.push((p, k + 1));
        proof {
            assert(self.label_suffix@.drop_last() =~= old(self).label_suffix@);
        }
        let mut cs = string_to_chars(prefix);
        let mut digits = u64_to_dec(k as u64);
        cs.append(&mut digits);
        proof {
            assert(cs@ =~= prefix@ + dec_of(k as nat));
        }
        Ok(chars_to_string(&cs))
    }

    /// Emits one block.
    fn emit_block(&mut self, label: String, code: Vec<SECDInstr>)
        ensures
            final(self).blocks() == old(self).blocks().push((label@, instr_models(code@))),
            final(self).lc() == old(self).lc(),
            final(self).infos() == old(self).infos(),
            final(self).next() == old(self).next(),
    {
        let ghost lg = label@;
        let ghost cg = instr_models(code@);
        self.label_instrs.push((label, code));
        proof {
            assert(self.blocks() =~= old(self).blocks().push((lg, cg)));
        }
    }

    /// Lowers one expression to the code emitted in line, exactly as
    /// `spec_compile` says.
    #[verifier::rlimit(100)]
    pub fn visit(&mut self, e: &Expr) -> (r: Result<Vec<SECDInstr>, CodegenErr>)
        ensures
            final(self).infos() == old(self).infos(),
            match spec_compile(e@, old(self).infos(), old(self).next(), old(self).lc(), old(self).blocks()) {
                Ok(out) => {
                    &&& r matches Ok(code) && instr_models(code@) == out.code
                    &&& final(self).next() == out.n
                    &&& final(self).lc() == out.lc
                    &&& final(self).blocks() == out.blocks
                },
                Err(k) => r == Err::<Vec<SECDInstr>, CodegenErr>(k),
            },
        decreases *e, 0int,
    {
        let ghost n0 = self.next();
        let ghost lc0 = self.lc();
        let ghost blocks0 = self.blocks();
        match e {
            Expr::IntLit { val } => {
                let mut out: Vec<SECDInstr> = Vec::new();
                out.push(SECDInstr::Const(SECDVal::IntVal(*val)));
                proof {
                    assert(instr_models(out@) =~= seq![SECDInstrV::Const(SECDValV::IntVal(e@->IntLit_val))]);
                }
                Ok(out)
            },
            Expr::UnitLit {} => {
                let mut out: Vec<SECDInstr> = Vec::new();
                out.push(SECDInstr::Const(SECDVal::UnitVal));
                proof {
                    assert(instr_models(out@) =~= seq![SECDInstrV::Const(SECDValV::UnitVal)]);
                }
                Ok(out)
            },
            Expr::Builtin { op } => {
                let mut out: Vec<SECDInstr> = Vec::new();
                match op {
                    crate::ast::BuiltinOp::True => {
                        out.push(SECDInstr::Const(SECDVal::IntVal(1)));
                    },
                    crate::ast::BuiltinOp::False => {
                        out.push(SECDInstr::Const(SECDVal::IntVal(0)));
                    },
                    crate::ast::BuiltinOp::Println => {
                        out.push(SECDInstr::Builtin(crate::secd::langdef::BuiltinOp::Println));
                    },
                    crate::ast::BuiltinOp::Nth => {
                        out.push(SECDInstr::Builtin(crate::secd::langdef::BuiltinOp::Nth));
                    },
                }
                proof {
                    assert(instr_models(out@) =~= seq![out@[0].model()]);
                }
                Ok(out)
            },
            Expr::VarRef { .. } => {
                if self.next_id == usize::MAX {
                    return Err(CodegenErr::IndexOverflow);
                }
                match self.debrujin_info.get(crate::node_id::NodeId(self.next_id)) {
                    Some(ix) => {
                        let ixv = *ix;
                        let mut out: Vec<SECDInstr> = Vec::new();
                        match ixv {
                            DeBrujinIdx::Var(i) => {
                                if i == usize::MAX {
                                    return Err(CodegenErr::IndexOverflow);
                                }
                                out.push(SECDInstr::Access(i + 1));
                            },
                            DeBrujinIdx::Rec(i, j) => {
                                if i == usize::MAX || j == usize::MAX {
                                    return Err(CodegenErr::IndexOverflow);
                                }
                                out.push(SECDInstr::Access(i + 1));
                                out.push(SECDInstr::Focus(j + 1));
                            },
                        }
                        self.next_id = self.next_id + 1;
                        proof {
                            match spec_compile_varref(old(self).infos(), n0) {
                                Ok(code) => {
                                    crate::secd::langdef::lemma_instr_models(out@);
                                    assert(instr_models(out@) =~= code);
                                },
                                Err(_) => {
                                    assert(false);
                                },
                            }
                        }
                        Ok(out)
                    },
                    None => Err(CodegenErr::MissingAnnotation),
                }
            },
            Expr::Binary { lhs, op, rhs } => {
                let mut c1 = self.visit(lhs)?;
                let mut c2 = self.visit(rhs)?;
                let opi = translate_binop(*op);
                let ghost c1g = instr_models(c1@);
                let ghost c2g = instr_models(c2@);
                c1.append(&mut c2);
                c1.push(SECDInstr::Binary(opi));
                proof {
                    crate::secd::langdef::lemma_instr_models(c1@);
                    lemma_models_concat3(c1@, c1g, c2g, seq![SECDInstrV::Binary(opi)]);
                }
                Ok(c1)
            },
            Expr::Unary { op, sub } => {
                let mut c1 = self.visit(sub)?;
                let opi = translate_unaop(*op);
                let ghost c1g = instr_models(c1@);
                c1.push(SECDInstr::Unary(opi));
                proof {
                    crate::secd::langdef::lemma_instr_models(c1@);
                    lemma_models_concat2(c1@, c1g, seq![SECDInstrV::Unary(opi)]);
                }
                Ok(c1)
            },
            Expr::App { fun, arg } => match &**fun {
                Expr::Builtin { op: crate::ast::BuiltinOp::Println } => {
                    proof {
                        assert(fun.model() == (ExprV::Builtin {
                            op: crate::ast::BuiltinOp::Println,
                        }));
                    }
                    let mut c1 = self.visit(arg)?;
                    let ghost c1g = instr_models(c1@);
                    c1.push(SECDInstr::Builtin(crate::secd::langdef::BuiltinOp::Println));
                    proof {
                        crate::secd::langdef::lemma_instr_models(c1@);
                        lemma_models_concat2(
                            c1@,
                            c1g,
                            seq![SECDInstrV::Builtin(crate::secd::langdef::BuiltinOp::Println)],
                        );
                    }
                    Ok(c1)
                },
                _ => {
                    proof {
                        assert(fun.model() != (ExprV::Builtin {
                            op: crate::ast::BuiltinOp::Println,
                        }));
                    }
                    let mut c1 = self.visit(fun)?;
                    let mut c2 = self.visit(arg)?;
                    let ghost c1g = instr_models(c1@);
                    let ghost c2g = instr_models(c2@);
                    c1.append(&mut c2);
                    c1.push(SECDInstr::Apply);
                    proof {
                        crate::secd::langdef::lemma_instr_models(c1@);
                        lemma_models_concat3(c1@, c1g, c2g, seq![SECDInstrV::Apply]);
                    }
                    Ok(c1)
                },
            },
            Expr::Sequence { subs } => {
                proof {
                    assert(crate::ast::expr_models(subs@).skip(0) =~= crate::ast::expr_models(
                        subs@,
                    ));
                }
                self.visit_list(subs, 0)
            },
            Expr::Abs { body, .. } => {
                let lab = self.new_label("lam")?;
                let mut bodyc = self.visit(body)?;
                let ghost bg = instr_models(bodyc@);
                bodyc.push(SECDInstr::Return);
                proof {
                    crate::secd::langdef::lemma_instr_models(bodyc@);
                    lemma_models_concat2(bodyc@, bg, seq![SECDInstrV::Return]);
                }
                let ghost labg = lab@;
                self.emit_block(lab.clone(), bodyc);
                let mut out: Vec<SECDInstr> = Vec::new();
                out.push(SECDInstr::Closure(lab));
                proof {
                    assert(instr_models(out@) =~= seq![SECDInstrV::Closure(labg)]);
                }
                Ok(out)
            },
            Expr::Let { val, body, .. } => {
                let mut c1 = self.visit(val)?;
                let mut c2 = self.visit(body)?;
                let ghost c1g = instr_models(c1@);
                let ghost c2g = instr_models(c2@);
                c1.push(SECDInstr::PushEnv);
                c1.append(&mut c2);
                proof {
                    crate::secd::langdef::lemma_instr_models(c1@);
                    lemma_models_concat3(c1@, c1g, seq![SECDInstrV::PushEnv], c2g);
                }
                Ok(c1)
            },
            Expr::Tuple { .. } => Err(CodegenErr::Unsupported),
            Expr::Match { .. } => Err(CodegenErr::Unsupported),
            Expr::Nth { idx, sub } => {
                let mut c1 = self.visit(sub)?;
                let ghost c1g = instr_models(c1@);
                c1.push(SECDInstr::Const(SECDVal::IntVal(*idx)));
                c1.push(SECDInstr::Builtin(crate::secd::langdef::BuiltinOp::Nth));
                proof {
                    crate::secd::langdef::lemma_instr_models(c1@);
                    lemma_models_concat2(
                        c1@,
                        c1g,
                        seq![
                            SECDInstrV::Const(SECDValV::IntVal(e@->Nth_idx)),
                            SECDInstrV::Builtin(crate::secd::langdef::BuiltinOp::Nth),
                        ],
                    );
                }
                Ok(c1)
            },
            Expr::Ite { cond, tr, fl } => {
                let l1 = self.new_label("tr")?;
                let l2 = self.new_label("fl")?;
                let l3 = self.new_label("endif")?;
                let mut c1 = self.visit(cond)?;
                let mut c2 = self.visit(tr)?;
                let mut c3 = self.visit(fl)?;
                let ghost c1g = instr_models(c1@);
                let ghost c2g = instr_models(c2@);
                let ghost c3g = instr_models(c3@);
                let ghost l1g = l1@;
                let ghost l2g = l2@;
                let ghost l3g = l3@;
                c1.push(SECDInstr::Branch(crate::secd::langdef::BrOp::BrFalse, l2.clone()));
                c1.push(SECDInstr::Label(l1));
                c1.append(&mut c2);
                c1.push(SECDInstr::Branch(crate::secd::langdef::BrOp::Br, l3.clone()));
                c1.push(SECDInstr::Label(l2));
                c1.append(&mut c3);
                c1.push(SECDInstr::Label(l3));
                proof {
                    crate::secd::langdef::lemma_instr_models(c1@);
                    let want = c1g + seq![
                        SECDInstrV::Branch(crate::secd::langdef::BrOp::BrFalse, l2g),
                        SECDInstrV::Label(l1g),
                    ] + c2g + seq![
                        SECDInstrV::Branch(crate::secd::langdef::BrOp::Br, l3g),
                        SECDInstrV::Label(l2g),
                    ] + c3g + seq![SECDInstrV::Label(l3g)];
                    assert(instr_models(c1@).len() == want.len());
                    assert forall|q: int| 0 <= q < want.len() implies instr_models(c1@)[q]
                        == want[q] by {
                        assert(instr_models(c1@)[q] == c1@[q].model());
                    }
                    assert(instr_models(c1@) =~= want);
                }
                Ok(c1)
            },
            Expr::LetRec { arms, body } => {
                proof {
                    crate::ast::lemma_letrecarm_models(arms@);
                }
                if arms.len() == 0 {
                    return Err(CodegenErr::Unsupported);
                }
                proof {
                    assert(crate::ast::letrecarm_models(arms@).skip(0)
                        =~= crate::ast::letrecarm_models(arms@));
                }
                let labels = self.visit_arms(arms, 0)?;
                let mut cb = self.visit(body)?;
                let ghost cbg = instr_models(cb@);
                let ghost labg = crate::secd::langdef::label_views(labels@);
                let mut out: Vec<SECDInstr> = Vec::new();
                out.push(SECDInstr::Closures(labels));
                out.append(&mut cb);
                proof {
                    crate::secd::langdef::lemma_instr_models(out@);
                    lemma_models_concat2(out@, seq![SECDInstrV::Closures(labg)], cbg);
                }
                Ok(out)
            },
        }
    }

    /// Lowers the elements of a sequence from position `i` on, joined by
    /// `Pop 1`.
    fn visit_list(&mut self, subs: &Vec<Expr>, i: usize) -> (r: Result<Vec<SECDInstr>, CodegenErr>)
        requires
            i <= subs@.len(),
        ensures
            final(self).infos() == old(self).infos(),
            match spec_compile_list(
                crate::ast::expr_models(subs@).skip(i as int),
                old(self).infos(),
                old(self).next(),
                old(self).lc(),
                old(self).blocks(),
            ) {
                Ok(out) => {
                    &&& r matches Ok(code) && instr_models(code@) == out.code
                    &&& final(self).next() == out.n
                    &&& final(self).lc() == out.lc
                    &&& final(self).blocks() == out.blocks
                },
                Err(k) => r == Err::<Vec<SECDInstr>, CodegenErr>(k),
            },
        decreases subs@, subs@.len() - i, 1int,
    {
        let ghost sm = crate::ast::expr_models(subs@);
        proof {
            crate::ast::lemma_expr_models(subs@);
        }
        if i == subs.len() {
            let out: Vec<SECDInstr> = Vec::new();
            proof {
                assert(sm.skip(i as int) =~= Seq::<ExprV>::empty());
                assert(instr_models(out@) =~= Seq::<SECDInstrV>::empty());
            }
            return Ok(out);
        }
        proof {
            assert(decreases_to!(subs@ => subs@[i as int]));
            assert(sm.skip(i as int).first() == sm[i as int]);
            assert(sm.skip(i as int).drop_first() =~= sm.skip(i + 1));
        }
        let mut c1 = self.visit(&subs[i])?;
        if i + 1 == subs.len() {
            proof {
                assert(sm.skip(i as int).len() == 1);
            }
            return Ok(c1);
        }
        let mut c2 = self.visit_list(subs, i + 1)?;
        let ghost c1g = instr_models(c1@);
        let ghost c2g = instr_models(c2@);
        c1.push(SECDInstr::Pop(1));
        c1.append(&mut c2);
        proof {
            crate::secd::langdef::lemma_instr_models(c1@);
            lemma_models_concat3(c1@, c1g, seq![SECDInstrV::Pop(1)], c2g);
        }
        Ok(c1)
    }

    /// Lowers the arm bodies of a `let rec` from position `i` on; the labels
    /// of the emitted blocks come back in arm order.
    fn visit_arms(&mut self, arms: &Vec<LetRecArm>, i: usize) -> (r: Result<
        Vec<String>,
        CodegenErr,
    >)
        requires
            i <= arms@.len(),
        ensures
            final(self).infos() == old(self).infos(),
            match spec_compile_arms(
                crate::ast::letrecarm_models(arms@).skip(i as int),
                old(self).infos(),
                old(self).next(),
                old(self).lc(),
                old(self).blocks(),
            ) {
                Ok(done) => {
                    &&& r matches Ok(labels) && crate::secd::langdef::label_views(labels@)
                        == done.0
                    &&& final(self).next() == done.1.n
                    &&& final(self).lc() == done.1.lc
                    &&& final(self).blocks() == done.1.blocks
                },
                Err(k) => r == Err::<Vec<String>, CodegenErr>(k),
            },
        decreases arms@, arms@.len() - i, 1int,
    {
        let ghost am = crate::ast::letrecarm_models(arms@);
        proof {
            crate::ast::lemma_letrecarm_models(arms@);
        }
        if i == arms.len() {
            let out: Vec<String> = Vec::new();
            proof {
                assert(am.skip(i as int) =~= Seq::<LetRecArmV>::empty());
                assert(crate::secd::langdef::label_views(out@) =~= Seq::<Seq<char>>::empty());
            }
            return Ok(out);
        }
        proof {
            assert(decreases_to!(arms@ => arms@[i as int]));
            assert(decreases_to!(arms@[i as int] => arms@[i as int].body));
            assert(am.skip(i as int).first() == am[i as int]);
            assert(am.skip(i as int).drop_first() =~= am.skip(i + 1));
        }
        let lab = self.new_label("clos")?;
        let mut bodyc = self.visit(&arms[i].body)?;
        let ghost bg = instr_models(bodyc@);
        bodyc.push(SECDInstr::Return);
        proof {
            crate::secd::langdef::lemma_instr_models(bodyc@);
            lemma_models_concat2(bodyc@, bg, seq![SECDInstrV::Return]);
        }
        let ghost labg = lab@;
        self.emit_block(lab.clone(), bodyc);
        let rest = self.visit_arms(arms, i + 1)?;
        let ghost restg = crate::secd::langdef::label_views(rest@);
        let ghost rest0 = rest@;
        let mut out: Vec<String> = Vec::new();
        out.push(lab);
        let mut rest2 = rest;
        out.append(&mut rest2);
        proof {
            assert(out@ =~= seq![out@[0]] + rest0);
            assert forall|q: int| 0 <= q < out@.len() implies crate::secd::langdef::label_views(
                out@,
            )[q] == (seq![labg] + restg)[q] by {
                assert(crate::secd::langdef::label_views(out@)[q] == out@[q]@);
                if q > 0 {
                    assert(restg[q - 1] == rest0[q - 1]@);
                }
            }
            assert(crate::secd::langdef::label_views(out@) =~= seq![labg] + restg);
        }
        Ok(out)
    }
}

/// The models of a concatenation of two instruction vectors.
proof fn lemma_models_concat2(whole: Seq<SECDInstr>, a: Seq<SECDInstrV>, b: Seq<SECDInstrV>)
    requires
        whole.len() == a.len() + b.len(),
        forall|q: int| 0 <= q < a.len() ==> #[trigger] whole[q].model() == a[q],
        forall|q: int| 0 <= q < b.len() ==> #[trigger] whole[a.len() + q].model() == b[q],
    ensures
        instr_models(whole) == a + b,
{
    crate::secd::langdef::lemma_instr_models(whole);
    assert forall|q: int| 0 <= q < whole.len() implies instr_models(whole)[q] == (a + b)[q] by {
        if q < a.len() {
            assert(whole[q].model() == a[q]);
        } else {
            assert(whole[a.len() + (q - a.len())].model() == b[q - a.len()]);
        }
    }
    assert(instr_models(whole) =~= a + b);
}

/// The models of a concatenation of three instruction vectors.
proof fn lemma_models_concat3(
    whole: Seq<SECDInstr>,
    a: Seq<SECDInstrV>,
    b: Seq<SECDInstrV>,
    c: Seq<SECDInstrV>,
)
    requires
        whole.len() == a.len() + b.len() + c.len(),
        forall|q: int| 0 <= q < a.len() ==> #[trigger] whole[q].model() == a[q],
        forall|q: int| 0 <= q < b.len() ==> #[trigger] whole[a.len() + q].model() == b[q],
        forall|q: int| 0 <= q < c.len() ==> #[trigger] whole[a.len() + b.len() + q].model()
            == c[q],
    ensures
        instr_models(whole) == a + b + c,
{
    crate::secd::langdef::lemma_instr_models(whole);
    assert forall|q: int| 0 <= q < whole.len() implies instr_models(whole)[q] == (a + b + c)[q] by {
        if q < a.len() {
            assert(whole[q].model() == a[q]);
        } else if q < a.len() + b.len() {
            assert(whole[a.len() + (q - a.len())].model() == b[q - a.len()]);
        } else {
            assert(whole[a.len() + b.len() + (q - a.len() - b.len())].model() == c[q - a.len()
                - b.len()]);
        }
    }
    assert(instr_models(whole) =~= a + b + c);
}

/// Lowers a whole main expression: its code, ended by `Halt`, becomes the
/// `main` block, emitted after every block of its nested functions.
pub open spec fn spec_compile_main(
    e: ExprV,
    info: Map<nat, DeBrujinIdx>,
    n: nat,
    lc: Map<Seq<char>, nat>,
    blocks: Seq<(Seq<char>, Seq<SECDInstrV>)>,
) -> Result<Seq<(Seq<char>, Seq<SECDInstrV>)>, CodegenErr> {
    match spec_compile(e, info, n, lc, blocks) {
        Ok(o) => Ok(o.blocks.push(("main"@, o.code + seq![SECDInstrV::Halt]))),
        Err(k) => Err(k),
    }
}

impl SECDGen {
    /// Lowers the main expression into the `main` block.
    pub fn visit_main_expr(&mut self, main_expr: &Expr) -> (r: Result<(), CodegenErr>)
        ensures
            match spec_compile_main(
                main_expr@,
                old(self).infos(),
                old(self).next(),
                old(self).lc(),
                old(self).blocks(),
            ) {
                Ok(blocks2) => r is Ok && final(self).blocks() == blocks2,
                Err(k) => r == Err::<(), CodegenErr>(k),
            },
    {
        let mut code = self.visit(main_expr)?;
        let ghost cg = instr_models(code@);
        code.push(SECDInstr::Halt);
        proof {
            crate::secd::langdef::lemma_instr_models(code@);
            assert(instr_models(code@) =~= cg + seq![SECDInstrV::Halt]);
        }
        let main_label = String::from_str("main");
        self.emit_block(main_label, code);
        Ok(())
    }

    /// The program, flat: each block's label line followed by its code, from
    /// block `i` on.
    fn assemble_from(&self, i: usize) -> (r: Vec<SECDInstr>)
        requires
            i <= self.blocks().len(),
        ensures
            instr_models(r@) == spec_flatten(self.blocks().skip(i as int)),
        decreases self.blocks().len() - i,
    {
        let ghost bs = self.blocks();
        proof {
            assert(bs.len() == self.label_instrs@.len());
        }
        if i == self.label_instrs.len() {
            let out: Vec<SECDInstr> = Vec::new();
            proof {
                assert(bs.skip(i as int) =~= Seq::<(Seq<char>, Seq<SECDInstrV>)>::empty());
                assert(instr_models(out@) =~= Seq::<SECDInstrV>::empty());
            }
            return out;
        }
        proof {
            assert(bs.skip(i as int).first() == bs[i as int]);
            assert(bs[i as int] == (self.label_instrs@[i as int].0@, instr_models(
                self.label_instrs@[i as int].1@,
            )));
            assert(bs.skip(i as int).drop_first() =~= bs.skip(i + 1));
        }
        let mut out: Vec<SECDInstr> = Vec::new();
        out.push(SECDInstr::Label(self.label_instrs[i].0.clone()));
        let mut body = dup_instrs(&self.label_instrs[i].1);
        out.append(&mut body);
        let mut rest = self.assemble_from(i + 1);
        let ghost outg = instr_models(out@);
        let ghost restg = instr_models(rest@);
        out.append(&mut rest);
        proof {
            crate::secd::langdef::lemma_instr_models(out@);
            let want = seq![SECDInstrV::Label(bs[i as int].0)] + bs[i as int].1 + spec_flatten(
                bs.skip(i + 1),
            );
            assert forall|q: int| 0 <= q < out@.len() implies instr_models(out@)[q]
                == want[q] by {
                assert(instr_models(out@)[q] == out@[q].model());
                if q >= 1 && q < outg.len() {
                    assert(outg[q] == out@[q].model());
                }
                if q >= outg.len() {
                    assert(restg[q - outg.len()] == out@[q].model());
                }
            }
            assert(instr_models(out@) =~= want);
        }
        out
    }

    /// The whole program as one instruction vector: every emitted block in
    /// order, each opened by its label line.
    pub fn assemble(&self) -> (r: Vec<SECDInstr>)
        ensures
            instr_models(r@) == spec_flatten(self.blocks()),
    {
        let r = self.assemble_from(0);
        proof {
            assert(self.blocks().skip(0) =~= self.blocks());
        }
        r
    }
}

/// Copies a vector of instructions.
fn dup_instrs(v: &Vec<SECDInstr>) -> (r: Vec<SECDInstr>)
    ensures
        instr_models(r@) == instr_models(v@),
        r@.len() == v@.len(),
{
    let mut r: Vec<SECDInstr> = Vec::new();
    let mut i: usize = 0;
    while i < v.len()
        invariant
            0 <= i <= v@.len(),
            r@.len() == i,
            forall|j: int| 0 <= j < i ==> (#[trigger] r@[j]).model() == v@[j].model(),
        decreases v@.len() - i,
    {
        let x = v[i].clone();
        r.push(x);
        i = i + 1;
    }
    proof {
        crate::secd::langdef::lemma_instr_models(r@);
        crate::secd::langdef::lemma_instr_models(v@);
        assert forall|j: int| 0 <= j < v@.len() implies instr_models(r@)[j] == instr_models(
            v@,
        )[j] by {
            assert(r@[j].model() == v@[j].model());
        }
        assert(instr_models(r@) =~= instr_models(v@));
    }
    r
}

/// Lowers a resolved main expression to its flat instruction program.
pub fn secdgen(debrujin_info: DeBrujinInfo, main_expr: &Expr) -> (r: Result<
    Vec<SECDInstr>,
    CodegenErr,
>)
    ensures
        match spec_compile_main(
            main_expr@,
            debrujin_info@,
            0,
            Map::empty(),
            Seq::empty(),
        ) {
            Ok(blocks2) => r matches Ok(instrs) && instr_models(instrs@) == spec_flatten(blocks2),
            Err(k) => r == Err::<Vec<SECDInstr>, CodegenErr>(k),
        },
{
    let mut g = SECDGen::new(debrujin_info);
    g.visit_main_expr(main_expr)?;
    Ok(g.assemble())
}

} // verus!
