//! SECD language semantics definition: the machine state and its
//! deterministic `step` function.
//!
//! The whole behaviour of a step is pinned by the spec-level function
//! [`spec_step`]: the executable `step` either advances the state exactly as
//! `spec_step` says, or reports the halt or error that `spec_step` names and
//! leaves the state and the effect log untouched.

use vstd::prelude::*;

use crate::num::{dec_of_int, i64_to_dec};
use crate::secd::langdef::{
    dup_usizes, dup_vals, instr_models, label_views, lemma_val_models, val_models, BinOp, BrOp, BuiltinOp,
    SECDInstr, SECDInstrV, SECDVal, SECDValV, UnaOp,
};
use crate::utils::{chars_to_string, string_to_chars};

verus! {

/// Machine state: program counter, value stack, environment.
pub struct SECDState(pub usize, pub Vec<SECDVal>, pub Vec<SECDVal>);

/// Spec-level mirror of `SECDState`.
pub struct SECDStateV {
    pub pc: nat,
    pub stk: Seq<SECDValV>,
    pub env: Seq<SECDValV>,
}

impl SECDState {
    /// The mathematical value of this state.
    pub open spec fn model(&self) -> SECDStateV {
        SECDStateV { pc: self.0 as nat, stk: val_models(self.1@), env: val_models(self.2@) }
    }
}

impl View for SECDState {
    type V = SECDStateV;

    open spec fn view(&self) -> SECDStateV {
        self.model()
    }
}

/// An observable effect of execution.
#[derive(Debug)]
pub enum SECDEffect {
    Println(String),
}

impl SECDEffect {
    /// The printed text.
    pub open spec fn model(&self) -> Seq<char> {
        match self {
            SECDEffect::Println(s) => s@,
        }
    }
}

impl View for SECDEffect {
    type V = Seq<char>;

    open spec fn view(&self) -> Seq<char> {
        self.model()
    }
}

/// The texts of every effect in a sequence.
pub open spec fn effect_models(s: Seq<SECDEffect>) -> Seq<Seq<char>> {
    s.map_values(|e: SECDEffect| e.model())
}

/// The reasons a step can stop the machine instead of advancing it.
pub enum StepErr {
    /// The program counter does not index an instruction.
    PcOutOfRange,
    /// A stack operation needs more values than the stack holds.
    StackUnderflow,
    /// `Apply` found no ready closure below the argument.
    ApplyNonClosure,
    /// `Access` reached outside the environment.
    AccessOutOfRange,
    /// `Focus` found a closure that is already focused.
    Refocus,
    /// `Focus k` with `k` outside `[1, len(mutrec)]`.
    FocusOutOfRange,
    /// `Focus` found a non-closure.
    FocusNonClosure,
    /// `Return` found no program-counter frame where one is owed.
    ReturnBadPc,
    /// `Return` found no environment frame where one is owed.
    ReturnBadEnv,
    /// A label that no instruction defines.
    UndefinedLabel,
    /// A binary operator applied to values it is not defined on, a zero
    /// divisor, or a result outside the machine's integer range.
    BadBinary,
    /// A unary operator applied to values it is not defined on, or a result
    /// outside the machine's integer range.
    BadUnary,
    /// `BrFalse` popped a non-integer.
    BrFalseNonInt,
    /// The `nth` built-in found no integer index over a tuple.
    BadNth,
    /// The `nth` built-in's index lies outside the tuple.
    NthOutOfRange,
}

/// The message reported for each way of stopping.
pub open spec fn err_msg(k: StepErr) -> Seq<char> {
    match k {
        StepErr::PcOutOfRange => "pc out of range"@,
        StepErr::StackUnderflow => "stack underflow"@,
        StepErr::ApplyNonClosure => "apply to non-ready-closure"@,
        StepErr::AccessOutOfRange => "access out of range"@,
        StepErr::Refocus => "re-focusing closure"@,
        StepErr::FocusOutOfRange => "focus oob"@,
        StepErr::FocusNonClosure => "focus to non-closure"@,
        StepErr::ReturnBadPc => "return without valid ret pc"@,
        StepErr::ReturnBadEnv => "return without valid ret env"@,
        StepErr::UndefinedLabel => "undefined label"@,
        StepErr::BadBinary => "bad operands for binary operator"@,
        StepErr::BadUnary => "bad operand for unary operator"@,
        StepErr::BrFalseNonInt => "bad arg for BrFalse"@,
        StepErr::BadNth => "bad operands for nth"@,
        StepErr::NthOutOfRange => "nth out of range"@,
    }
}

/// What one invocation of `step` does.
pub enum StepSpec {
    /// The machine advances to this state, appending the given printed lines
    /// to the effect log.
    Next(SECDStateV, Seq<Seq<char>>),
    /// The machine sits on `Halt`: it reports termination and stays put.
    Halted,
    /// The machine stops with this error and stays put.
    Fail(StepErr),
}

/// The position of the first `Label(l)` instruction, searching from `i`.
pub open spec fn spec_find_label(instrs: Seq<SECDInstrV>, l: Seq<char>, i: int) -> Option<int>
    decreases instrs.len() - i,
{
    if i < 0 || i >= instrs.len() {
        None
    } else if instrs[i] == (SECDInstrV::Label(l)) {
        Some(i)
    } else {
        spec_find_label(instrs, l, i + 1)
    }
}

/// The program counter of label `l`, if defined.
pub open spec fn spec_label_pc(instrs: Seq<SECDInstrV>, l: Seq<char>) -> Option<int> {
    spec_find_label(instrs, l, 0)
}

/// The program counters of a bundle of labels; `None` if any is undefined.
pub open spec fn spec_label_pcs(instrs: Seq<SECDInstrV>, ls: Seq<Seq<char>>) -> Option<Seq<usize>>
    decreases ls.len(),
{
    if ls.len() == 0 {
        Some(Seq::empty())
    } else {
        match (spec_label_pcs(instrs, ls.drop_last()), spec_label_pc(instrs, ls.last())) {
            (Some(ps), Some(p)) => Some(ps.push(p as usize)),
            _ => None,
        }
    }
}

/// Binary operators on machine values.  Arithmetic is defined on integer
/// pairs whose result fits in the machine's integer range; comparisons give
/// `0` or `1`; a zero divisor fails; the logical operators and all other
/// operand shapes are undefined and fail.
pub open spec fn spec_eval_binop(op: BinOp, lhs: SECDValV, rhs: SECDValV) -> Option<SECDValV> {
    match (lhs, rhs) {
        (SECDValV::IntVal(l), SECDValV::IntVal(r)) => match op {
            BinOp::Add => match l.checked_add(r) {
                Some(v) => Some(SECDValV::IntVal(v)),
                None => None,
            },
            BinOp::Sub => match l.checked_sub(r) {
                Some(v) => Some(SECDValV::IntVal(v)),
                None => None,
            },
            BinOp::Mul => match l.checked_mul(r) {
                Some(v) => Some(SECDValV::IntVal(v)),
                None => None,
            },
            BinOp::Div => match l.checked_div(r) {
                Some(v) => Some(SECDValV::IntVal(v)),
                None => None,
            },
            BinOp::Rem => match l.checked_rem(r) {
                Some(v) => Some(SECDValV::IntVal(v)),
                None => None,
            },
            BinOp::Gt => Some(SECDValV::IntVal(if l > r { 1 } else { 0 })),
            BinOp::Lt => Some(SECDValV::IntVal(if l < r { 1 } else { 0 })),
            BinOp::Ge => Some(SECDValV::IntVal(if l >= r { 1 } else { 0 })),
            BinOp::Le => Some(SECDValV::IntVal(if l <= r { 1 } else { 0 })),
            BinOp::Eq => Some(SECDValV::IntVal(if l == r { 1 } else { 0 })),
            BinOp::Ne => Some(SECDValV::IntVal(if l != r { 1 } else { 0 })),
            BinOp::Land => None,
            BinOp::Lor => None,
            BinOp::Lxor => None,
        },
        _ => None,
    }
}

/// Unary operators on machine values: negation, and logical not mapping
/// zero to one and every other integer to zero.
pub open spec fn spec_eval_unaop(op: UnaOp, v: SECDValV) -> Option<SECDValV> {
    match v {
        SECDValV::IntVal(n) => match op {
            UnaOp::Neg => if n == i64::MIN {
                None
            } else {
                Some(SECDValV::IntVal((-n) as i64))
            },
            UnaOp::Lnot => Some(SECDValV::IntVal(if n == 0 { 1 } else { 0 })),
        },
        _ => None,
    }
}

/// The text `println` prints for a machine value: integers in decimal, the
/// unit value as `()`, tuples as their parts between parentheses, and opaque
/// placeholders for values user code can never print.
pub open spec fn render_val(v: SECDValV) -> Seq<char>
    decreases v,
{
    match v {
        SECDValV::IntVal(n) => dec_of_int(n as int),
        SECDValV::UnitVal => "()"@,
        SECDValV::TupleVal(vs) => seq!['('] + render_vals(vs) + seq![')'],
        SECDValV::BuiltinVal(op) => match op {
            BuiltinOp::Println => "println"@,
            BuiltinOp::Nth => "nth"@,
        },
        SECDValV::ClosureVal { .. } => "<closure>"@,
        SECDValV::EnvVal(_) => "<env>"@,
        SECDValV::PCVal(_) => "<pc>"@,
    }
}

/// The concatenated texts of a sequence of machine values.
pub open spec fn render_vals(vs: Seq<SECDValV>) -> Seq<char>
    decreases vs,
{
    if vs.len() == 0 {
        Seq::empty()
    } else {
        render_vals(vs.drop_last()) + render_val(vs.last())
    }
}

/// The step table: what the instruction at `st.pc` does to the state.
pub open spec fn spec_step(instrs: Seq<SECDInstrV>, st: SECDStateV) -> StepSpec {
    if st.pc >= instrs.len() {
        StepSpec::Fail(StepErr::PcOutOfRange)
    } else {
        let stk = st.stk;
        let env = st.env;
        match instrs[st.pc as int] {
            SECDInstrV::Halt => StepSpec::Halted,
            SECDInstrV::Pop(n) => if n <= stk.len() {
                StepSpec::Next(
                    SECDStateV { pc: st.pc + 1, stk: stk.take(stk.len() - n), env },
                    Seq::empty(),
                )
            } else {
                StepSpec::Fail(StepErr::StackUnderflow)
            },
            SECDInstrV::Apply => if stk.len() < 2 {
                StepSpec::Fail(StepErr::StackUnderflow)
            } else {
                let arg = stk.last();
                match stk[stk.len() - 2] {
                    SECDValV::ClosureVal { focused_fn: Some(f), mutrec_fns, env: env1 } => {
                        let callee_env = if mutrec_fns.len() > 0 {
                            env1.push(
                                SECDValV::ClosureVal { focused_fn: None, mutrec_fns, env: env1 },
                            ).push(arg)
                        } else {
                            env1.push(arg)
                        };
                        StepSpec::Next(
                            SECDStateV {
                                pc: f as nat,
                                stk: stk.take(stk.len() - 2).push(SECDValV::EnvVal(env)).push(
                                    SECDValV::PCVal((st.pc + 1) as usize),
                                ),
                                env: callee_env,
                            },
                            Seq::empty(),
                        )
                    },
                    _ => StepSpec::Fail(StepErr::ApplyNonClosure),
                }
            },
            SECDInstrV::Const(v) => StepSpec::Next(
                SECDStateV { pc: st.pc + 1, stk: stk.push(v), env },
                Seq::empty(),
            ),
            SECDInstrV::Access(n) => if 1 <= n <= env.len() {
                StepSpec::Next(
                    SECDStateV { pc: st.pc + 1, stk: stk.push(env[env.len() - n]), env },
                    Seq::empty(),
                )
            } else {
                StepSpec::Fail(StepErr::AccessOutOfRange)
            },
            SECDInstrV::Focus(n) => if stk.len() == 0 {
                StepSpec::Fail(StepErr::StackUnderflow)
            } else {
                match stk.last() {
                    SECDValV::ClosureVal { focused_fn, mutrec_fns, env: env1 } => {
                        if focused_fn is Some {
                            StepSpec::Fail(StepErr::Refocus)
                        } else if 1 <= n <= mutrec_fns.len() {
                            StepSpec::Next(
                                SECDStateV {
                                    pc: st.pc + 1,
                                    stk: stk.drop_last().push(
                                        SECDValV::ClosureVal {
                                            focused_fn: Some(mutrec_fns[n - 1]),
                                            mutrec_fns,
                                            env: env1,
                                        },
                                    ),
                                    env,
                                },
                                Seq::empty(),
                            )
                        } else {
                            StepSpec::Fail(StepErr::FocusOutOfRange)
                        }
                    },
                    _ => StepSpec::Fail(StepErr::FocusNonClosure),
                }
            },
            SECDInstrV::Return => if stk.len() < 3 {
                StepSpec::Fail(StepErr::ReturnBadPc)
            } else {
                let retval = stk.last();
                match stk[stk.len() - 2] {
                    SECDValV::PCVal(p) => match stk[stk.len() - 3] {
                        SECDValV::EnvVal(e) => StepSpec::Next(
                            SECDStateV {
                                pc: p as nat,
                                stk: stk.take(stk.len() - 3).push(retval),
                                env: e,
                            },
                            Seq::empty(),
                        ),
                        _ => StepSpec::Fail(StepErr::ReturnBadEnv),
                    },
                    _ => StepSpec::Fail(StepErr::ReturnBadPc),
                }
            },
            SECDInstrV::Closure(l) => match spec_label_pc(instrs, l) {
                Some(f) => StepSpec::Next(
                    SECDStateV {
                        pc: st.pc + 1,
                        stk: stk.push(
                            SECDValV::ClosureVal {
                                focused_fn: Some(f as usize),
                                mutrec_fns: Seq::empty(),
                                env,
                            },
                        ),
                        env,
                    },
                    Seq::empty(),
                ),
                None => StepSpec::Fail(StepErr::UndefinedLabel),
            },
            SECDInstrV::Closures(ls) => match spec_label_pcs(instrs, ls) {
                Some(ps) => StepSpec::Next(
                    SECDStateV {
                        pc: st.pc + 1,
                        stk,
                        env: env.push(
                            SECDValV::ClosureVal { focused_fn: None, mutrec_fns: ps, env },
                        ),
                    },
                    Seq::empty(),
                ),
                None => StepSpec::Fail(StepErr::UndefinedLabel),
            },
            SECDInstrV::Builtin(op) => match op {
                BuiltinOp::Println => if stk.len() == 0 {
                    StepSpec::Fail(StepErr::StackUnderflow)
                } else {
                    StepSpec::Next(
                        SECDStateV {
                            pc: st.pc + 1,
                            stk: stk.drop_last().push(SECDValV::UnitVal),
                            env,
                        },
                        seq![render_val(stk.last())],
                    )
                },
                BuiltinOp::Nth => if stk.len() < 2 {
                    StepSpec::Fail(StepErr::StackUnderflow)
                } else {
                    match (stk.last(), stk[stk.len() - 2]) {
                        (SECDValV::IntVal(k), SECDValV::TupleVal(vs)) => if 0 <= k < vs.len() {
                            StepSpec::Next(
                                SECDStateV {
                                    pc: st.pc + 1,
                                    stk: stk.take(stk.len() - 2).push(vs[k as int]),
                                    env,
                                },
                                Seq::empty(),
                            )
                        } else {
                            StepSpec::Fail(StepErr::NthOutOfRange)
                        },
                        _ => StepSpec::Fail(StepErr::BadNth),
                    }
                },
            },
            SECDInstrV::Binary(op) => if stk.len() < 2 {
                StepSpec::Fail(StepErr::StackUnderflow)
            } else {
                match spec_eval_binop(op, stk[stk.len() - 2], stk.last()) {
                    Some(v) => StepSpec::Next(
                        SECDStateV { pc: st.pc + 1, stk: stk.take(stk.len() - 2).push(v), env },
                        Seq::empty(),
                    ),
                    None => StepSpec::Fail(StepErr::BadBinary),
                }
            },
            SECDInstrV::Unary(op) => if stk.len() == 0 {
                StepSpec::Fail(StepErr::StackUnderflow)
            } else {
                match spec_eval_unaop(op, stk.last()) {
                    Some(v) => StepSpec::Next(
                        SECDStateV { pc: st.pc + 1, stk: stk.drop_last().push(v), env },
                        Seq::empty(),
                    ),
                    None => StepSpec::Fail(StepErr::BadUnary),
                }
            },
            SECDInstrV::Branch(op, l) => match spec_label_pc(instrs, l) {
                Some(dst) => match op {
                    BrOp::Br => StepSpec::Next(
                        SECDStateV { pc: dst as nat, stk, env },
                        Seq::empty(),
                    ),
                    BrOp::BrFalse => if stk.len() == 0 {
                        StepSpec::Fail(StepErr::StackUnderflow)
                    } else {
                        match stk.last() {
                            SECDValV::IntVal(n) => StepSpec::Next(
                                SECDStateV {
                                    pc: if n == 0 {
                                        dst as nat
                                    } else {
                                        st.pc + 1
                                    },
                                    stk: stk.drop_last(),
                                    env,
                                },
                                Seq::empty(),
                            ),
                            _ => StepSpec::Fail(StepErr::BrFalseNonInt),
                        }
                    },
                },
                None => StepSpec::Fail(StepErr::UndefinedLabel),
            },
            SECDInstrV::Label(_) => StepSpec::Next(
                SECDStateV { pc: st.pc + 1, stk, env },
                Seq::empty(),
            ),
            SECDInstrV::PushEnv => if stk.len() == 0 {
                StepSpec::Fail(StepErr::StackUnderflow)
            } else {
                StepSpec::Next(
                    SECDStateV { pc: st.pc + 1, stk: stk.drop_last(), env: env.push(stk.last()) },
                    Seq::empty(),
                )
            },
        }
    }
}

/// Pushing on the executable side is pushing the model.
pub proof fn lemma_models_push(s: Seq<SECDVal>, v: SECDVal)
    ensures
        val_models(s.push(v)) == val_models(s).push(v.model()),
{
    assert(s.push(v).drop_last() =~= s);
    assert(val_models(s.push(v)) == val_models(s.push(v).drop_last()).push(s.push(v).last().model()));
}

/// Taking a prefix on the executable side is taking it of the model.
pub proof fn lemma_models_take(s: Seq<SECDVal>, n: int)
    requires
        0 <= n <= s.len(),
    ensures
        val_models(s.take(n)) == val_models(s).take(n),
{
    lemma_val_models(s);
    lemma_val_models(s.take(n));
    assert forall|i: int| 0 <= i < n implies val_models(s.take(n))[i] == val_models(s).take(n)[i] by {
        assert(s.take(n)[i] == s[i]);
    }
    assert(val_models(s.take(n)) =~= val_models(s).take(n));
}

/// Dropping the last element on the executable side drops it of the model.
pub proof fn lemma_models_drop_last(s: Seq<SECDVal>)
    requires
        s.len() > 0,
    ensures
        val_models(s.drop_last()) == val_models(s).drop_last(),
{
    lemma_val_models(s);
    assert(s.drop_last() =~= s.take(s.len() - 1));
    lemma_models_take(s, s.len() - 1);
    assert(val_models(s).drop_last() =~= val_models(s).take(s.len() - 1));
}

/// The machine: an instruction vector, the current state, and the
/// append-only effect log.
pub struct SECDMachine {
    pub instrs: Vec<SECDInstr>,
    pub state: SECDState,
    pub effects: Vec<SECDEffect>,
}

/// Finds the first instruction defining label `l`.
pub fn find_label(instrs: &Vec<SECDInstr>, l: &String) -> (r: Option<usize>)
    ensures
        match r {
            Some(i) => spec_label_pc(instr_models(instrs@), l@) == Some(i as int),
            None => spec_label_pc(instr_models(instrs@), l@) is None,
        },
{
    let ghost m = instr_models(instrs@);
    let mut i: usize = 0;
    while i < instrs.len()
        invariant
            0 <= i <= instrs@.len(),
            m == instr_models(instrs@),
            spec_label_pc(m, l@) == spec_find_label(m, l@, i as int),
        decreases instrs@.len() - i,
    {
        match &instrs[i] {
            SECDInstr::Label(l2) => {
                if *l2 == *l {
                    proof {
                        assert(m[i as int] == SECDInstrV::Label(l@));
                    }
                    return Some(i);
                }
                proof {
                    assert(m[i as int] == SECDInstrV::Label(l2@));
                    assert(m[i as int] != SECDInstrV::Label(l@));
                }
            },
            _ => {
                proof {
                    assert(m[i as int] == instrs@[i as int].model());
                    assert(!(m[i as int] is Label));
                }
            },
        }
        i = i + 1;
    }
    None
}

/// Finds the program counters of a bundle of labels.
fn find_label_pcs(instrs: &Vec<SECDInstr>, ls: &Vec<String>) -> (r: Option<Vec<usize>>)
    ensures
        match r {
            Some(ps) => spec_label_pcs(instr_models(instrs@), label_views(ls@)) == Some(ps@),
            None => spec_label_pcs(instr_models(instrs@), label_views(ls@)) is None,
        },
{
    let ghost lv = label_views(ls@);
    let mut ps: Vec<usize> = Vec::new();
    let mut i: usize = 0;
    while i < ls.len()
        invariant
            0 <= i <= ls@.len(),
            lv == label_views(ls@),
            spec_label_pcs(instr_models(instrs@), lv.take(i as int)) == Some(ps@),
        decreases ls@.len() - i,
    {
        proof {
            assert(lv.take(i + 1).drop_last() =~= lv.take(i as int));
            assert(lv.take(i + 1).last() == ls@[i as int]@);
        }
        match find_label(instrs, &ls[i]) {
            Some(p) => {
                ps.push(p);
            },
            None => {
                proof {
                    assert(spec_label_pcs(instr_models(instrs@), lv.take(i + 1)) is None);
                    lemma_label_pcs_prefix_none(instr_models(instrs@), lv, i + 1);
                }
                return None;
            },
        }
        i = i + 1;
    }
    proof {
        assert(lv.take(ls@.len() as int) =~= lv);
    }
    Some(ps)
}

/// If a prefix of a label bundle fails to resolve, the whole bundle does.
proof fn lemma_label_pcs_prefix_none(instrs: Seq<SECDInstrV>, ls: Seq<Seq<char>>, n: int)
    requires
        0 <= n <= ls.len(),
        spec_label_pcs(instrs, ls.take(n)) is None,
    ensures
        spec_label_pcs(instrs, ls) is None,
    decreases ls.len() - n,
{
    if n == ls.len() {
        assert(ls.take(n) =~= ls);
    } else {
        assert(ls.take(n + 1).drop_last() =~= ls.take(n));
        lemma_label_pcs_prefix_none(instrs, ls, n + 1);
    }
}

impl SECDMachine {
    /// Builds a machine over `instrs`, starting at the `main` label with an
    /// empty stack, an empty environment and an empty effect log.  Fails when
    /// no instruction defines `main`.
    pub fn init(instrs: Vec<SECDInstr>) -> (r: Result<SECDMachine, String>)
        ensures
            match spec_label_pc(instr_models(instrs@), "main"@) {
                Some(p) => r matches Ok(m) && m.instrs == instrs && m.state@ == (SECDStateV {
                    pc: p as nat,
                    stk: Seq::empty(),
                    env: Seq::empty(),
                }) && m.effects@.len() == 0,
                None => r is Err,
            },
    {
        let main_label: String = String::from_str("main");
        match find_label(&instrs, &main_label) {
            Some(p) => {
                let m = SECDMachine {
                    instrs,
                    state: SECDState(p, Vec::new(), Vec::new()),
                    effects: Vec::new(),
                };
                proof {
                    assert(m.state@.stk =~= Seq::<SECDValV>::empty());
                    assert(m.state@.env =~= Seq::<SECDValV>::empty());
                }
                Ok(m)
            },
            None => Err(String::from_str("no main label")),
        }
    }

    /// Evaluates a binary operator, as `spec_eval_binop` says.
    fn eval_binop(op: BinOp, lhs: SECDVal, rhs: SECDVal) -> (r: Option<SECDVal>)
        ensures
            match r {
                Some(v) => spec_eval_binop(op, lhs@, rhs@) == Some(v@),
                None => spec_eval_binop(op, lhs@, rhs@) is None,
            },
    {
        match (lhs, rhs) {
            (SECDVal::IntVal(l), SECDVal::IntVal(r)) => match op {
                BinOp::Add => match l.checked_add(r) {
                    Some(v) => Some(SECDVal::IntVal(v)),
                    None => None,
                },
                BinOp::Sub => match l.checked_sub(r) {
                    Some(v) => Some(SECDVal::IntVal(v)),
                    None => None,
                },
                BinOp::Mul => match l.checked_mul(r) {
                    Some(v) => Some(SECDVal::IntVal(v)),
                    None => None,
                },
                BinOp::Div => match l.checked_div(r) {
                    Some(v) => Some(SECDVal::IntVal(v)),
                    None => None,
                },
                BinOp::Rem => match l.checked_rem(r) {
                    Some(v) => Some(SECDVal::IntVal(v)),
                    None => None,
                },
                BinOp::Gt => Some(SECDVal::IntVal(if l > r { 1 } else { 0 })),
                BinOp::Lt => Some(SECDVal::IntVal(if l < r { 1 } else { 0 })),
                BinOp::Ge => Some(SECDVal::IntVal(if l >= r { 1 } else { 0 })),
                BinOp::Le => Some(SECDVal::IntVal(if l <= r { 1 } else { 0 })),
                BinOp::Eq => Some(SECDVal::IntVal(if l == r { 1 } else { 0 })),
                BinOp::Ne => Some(SECDVal::IntVal(if l != r { 1 } else { 0 })),
                BinOp::Land => None,
                BinOp::Lor => None,
                BinOp::Lxor => None,
            },
            _ => None,
        }
    }

    /// Evaluates a unary operator, as `spec_eval_unaop` says.
    fn eval_unaop(op: UnaOp, arg: SECDVal) -> (r: Option<SECDVal>)
        ensures
            match r {
                Some(v) => spec_eval_unaop(op, arg@) == Some(v@),
                None => spec_eval_unaop(op, arg@) is None,
            },
    {
        match arg {
            SECDVal::IntVal(n) => match op {
                UnaOp::Neg => if n == i64::MIN {
                    None
                } else {
                    Some(SECDVal::IntVal(-n))
                },
                UnaOp::Lnot => Some(SECDVal::IntVal(if n == 0 { 1 } else { 0 })),
            },
            _ => None,
        }
    }
}

/// Renders a machine value as `render_val` says.
pub fn render_secdval(v: &SECDVal) -> (r: Vec<char>)
    ensures
        r@ == render_val(v@),
    decreases *v,
{
    match v {
        SECDVal::IntVal(n) => i64_to_dec(*n),
        SECDVal::UnitVal => {
            let mut r: Vec<char> = Vec::new();
            r.push('(');
            r.push(')');
            proof {
                reveal_strlit("()");
                assert(r@ =~= "()"@);
            }
            r
        },
        SECDVal::TupleVal(vs) => {
            let mut r: Vec<char> = Vec::new();
            r.push('(');
            let mut mid = render_secdvals(vs);
            r.append(&mut mid);
            r.push(')');
            proof {
                assert(r@ =~= seq!['('] + render_vals(val_models(vs@)) + seq![')']);
            }
            r
        },
        SECDVal::BuiltinVal(op) => match op {
            BuiltinOp::Println => string_to_chars("println"),
            BuiltinOp::Nth => string_to_chars("nth"),
        },
        SECDVal::ClosureVal { .. } => string_to_chars("<closure>"),
        SECDVal::EnvVal(_) => string_to_chars("<env>"),
        SECDVal::PCVal(_) => string_to_chars("<pc>"),
    }
}

/// Renders a vector of machine values, concatenated.
fn render_secdvals(vs: &Vec<SECDVal>) -> (r: Vec<char>)
    ensures
        r@ == render_vals(val_models(vs@)),
    decreases vs@,
{
    let mut r: Vec<char> = Vec::new();
    let mut i: usize = 0;
    proof {
        lemma_val_models(vs@);
        assert(val_models(vs@).take(0) =~= Seq::<SECDValV>::empty());
    }
    while i < vs.len()
        invariant
            0 <= i <= vs@.len(),
            r@ == render_vals(val_models(vs@).take(i as int)),
            val_models(vs@).len() == vs@.len(),
            forall|j: int| 0 <= j < vs@.len() ==> #[trigger] val_models(vs@)[j] == vs@[j].model(),
        decreases vs@.len() - i,
    {
        proof {
            assert(decreases_to!(vs@ => vs@[i as int]));
        }
        let mut part = render_secdval(&vs[i]);
        r.append(&mut part);
        proof {
            assert(val_models(vs@).take(i + 1).drop_last() =~= val_models(vs@).take(i as int));
            assert(val_models(vs@).take(i + 1).last() == vs@[i as int].model());
        }
        i = i + 1;
    }
    proof {
        assert(val_models(vs@).take(vs@.len() as int) =~= val_models(vs@));
    }
    r
}

impl SECDMachine {
    /// Executes the instruction at the program counter, exactly as the step
    /// table `spec_step` says: on `Next` the state advances and any printed
    /// line is appended to the effect log; on `Halted` or `Fail` the reported
    /// message names the cause and the state and the effect log are left
    /// untouched.
    #[verifier::rlimit(100)]
    pub fn step(&mut self) -> (r: Result<(), String>)
        ensures
            final(self).instrs == old(self).instrs,
            match spec_step(instr_models(old(self).instrs@), old(self).state@) {
                StepSpec::Next(s2, effs) => {
                    &&& r is Ok
                    &&& final(self).state@ == s2
                    &&& effect_models(final(self).effects@) == effect_models(old(self).effects@)
                        + effs
                },
                StepSpec::Halted => {
                    &&& r matches Err(msg) && msg@ == "execution halted"@
                    &&& final(self).state == old(self).state
                    &&& final(self).effects == old(self).effects
                },
                StepSpec::Fail(k) => {
                    &&& r matches Err(msg) && msg@ == err_msg(k)
                    &&& final(self).state == old(self).state
                    &&& final(self).effects == old(self).effects
                },
            },
    {
        let ghost m = instr_models(self.instrs@);
        let ghost st0 = self.state@;
        let pc = self.state.0;
        if pc >= self.instrs.len() {
            return Err(String::from_str("pc out of range"));
        }
        let instr = self.instrs[pc].clone();
        proof {
            assert(m[pc as int] == self.instrs@[pc as int].model());
            assert(instr@ == m[pc as int]);
            lemma_val_models(self.state.1@);
            lemma_val_models(self.state.2@);
        }
        match instr {
            SECDInstr::Halt => Err(String::from_str("execution halted")),
            SECDInstr::Pop(k) => {
                let n = self.state.1.len();
                if k > n {
                    return Err(String::from_str("stack underflow"));
                }
                let ghost stk0 = self.state.1@;
                self.state.1.truncate(n - k);
                self.state.0 = pc + 1;
                proof {
                    lemma_models_take(stk0, n - k as int);
                    assert(self.state@.stk =~= st0.stk.take(st0.stk.len() - k));
                }
                Ok(())
            },
            SECDInstr::Apply => {
                let n = self.state.1.len();
                if n < 2 {
                    return Err(String::from_str("stack underflow"));
                }
                let (f, mutrec, env1) = match &self.state.1[n - 2] {
                    SECDVal::ClosureVal { focused_fn: Some(f), mutrec_fns, env } => (
                        *f,
                        dup_usizes(mutrec_fns),
                        dup_vals(env),
                    ),
                    _ => {
                        return Err(String::from_str("apply to non-ready-closure"));
                    },
                };
                let arg = self.state.1[n - 1].clone();
                let ghost stk0 = self.state.1@;
                let ghost e1 = val_models(env1@);
                let ghost mr = mutrec@;
                let ghost argm = arg.model();
                proof {
                    assert(st0.stk[st0.stk.len() - 2] == stk0[n - 2].model());
                    assert(st0.stk.last() == stk0[n - 1].model());
                }
                // callee environment: captured env, then the unfocused bundle
                // for recursive self-reference, then the argument
                let mut callee_env = env1;
                let has_bundle = mutrec.len() > 0;
                if has_bundle {
                    let env1b = dup_vals(&callee_env);
                    let bundle = SECDVal::ClosureVal {
                        focused_fn: None,
                        mutrec_fns: mutrec,
                        env: env1b,
                    };
                    let ghost bg = bundle;
                    let ghost ce0 = callee_env@;
                    callee_env.push(bundle);
                    proof {
                        lemma_models_push(ce0, bg);
                        assert(bg.model() == (SECDValV::ClosureVal {
                            focused_fn: None,
                            mutrec_fns: mr,
                            env: e1,
                        }));
                    }
                }
                let ghost ce1 = callee_env@;
                let ghost argg = arg;
                callee_env.push(arg);
                proof {
                    lemma_models_push(ce1, argg);
                    if has_bundle {
                        assert(val_models(callee_env@) == e1.push(
                            SECDValV::ClosureVal { focused_fn: None, mutrec_fns: mr, env: e1 },
                        ).push(argm));
                    } else {
                        assert(val_models(ce1) == e1);
                        assert(val_models(callee_env@) == e1.push(argm));
                    }
                }
                let saved = dup_vals(&self.state.2);
                self.state.1.truncate(n - 2);
                self.state.1.push(SECDVal::EnvVal(saved));
                self.state.1.push(SECDVal::PCVal(pc + 1));
                self.state.0 = f;
                self.state.2 = callee_env;
                proof {
                    lemma_models_take(stk0, n - 2);
                    lemma_models_push(stk0.take(n - 2), SECDVal::EnvVal(saved));
                    lemma_models_push(
                        stk0.take(n - 2).push(SECDVal::EnvVal(saved)),
                        SECDVal::PCVal((pc + 1) as usize),
                    );
                    assert(self.state@.stk =~= st0.stk.take(st0.stk.len() - 2).push(
                        SECDValV::EnvVal(st0.env),
                    ).push(SECDValV::PCVal((st0.pc + 1) as usize)));
                }
                Ok(())
            },
            SECDInstr::Const(v) => {
                let ghost stk0 = self.state.1@;
                let ghost vg = v;
                self.state.1.push(v);
                self.state.0 = pc + 1;
                proof {
                    lemma_models_push(stk0, vg);
                }
                Ok(())
            },
            SECDInstr::Access(k) => {
                let ne = self.state.2.len();
                if k < 1 || k > ne {
                    return Err(String::from_str("access out of range"));
                }
                let v = self.state.2[ne - k].clone();
                let ghost stk0 = self.state.1@;
                let ghost vg = v;
                self.state.1.push(v);
                self.state.0 = pc + 1;
                proof {
                    lemma_models_push(stk0, vg);
                    assert(st0.env[st0.env.len() - k] == val_models(old(self).state.2@)[ne - k]);
                }
                Ok(())
            },
            SECDInstr::Focus(k) => {
                let n = self.state.1.len();
                if n == 0 {
                    return Err(String::from_str("stack underflow"));
                }
                match &self.state.1[n - 1] {
                    SECDVal::ClosureVal { focused_fn, mutrec_fns, env } => {
                        if focused_fn.is_some() {
                            return Err(String::from_str("re-focusing closure"));
                        }
                        if k < 1 || k > mutrec_fns.len() {
                            return Err(String::from_str("focus oob"));
                        }
                    },
                    _ => {
                        return Err(String::from_str("focus to non-closure"));
                    },
                }
                let ghost stk0 = self.state.1@;
                let top = self.state.1.pop().unwrap();
                match top {
                    SECDVal::ClosureVal { focused_fn, mutrec_fns, env } => {
                        let f = mutrec_fns[k - 1];
                        let cl = SECDVal::ClosureVal {
                            focused_fn: Some(f),
                            mutrec_fns,
                            env,
                        };
                        let ghost clg = cl;
                        self.state.1.push(cl);
                        self.state.0 = pc + 1;
                        proof {
                            lemma_models_drop_last(stk0);
                            lemma_models_push(stk0.drop_last(), clg);
                            assert(st0.stk.last() == stk0[n - 1].model());
                        }
                        Ok(())
                    },
                    _ => vstd::pervasive::unreached(),
                }
            },
            SECDInstr::Return => {
                let n = self.state.1.len();
                if n < 3 {
                    return Err(String::from_str("return without valid ret pc"));
                }
                match &self.state.1[n - 2] {
                    SECDVal::PCVal(_) => {},
                    _ => {
                        return Err(String::from_str("return without valid ret pc"));
                    },
                }
                match &self.state.1[n - 3] {
                    SECDVal::EnvVal(_) => {},
                    _ => {
                        return Err(String::from_str("return without valid ret env"));
                    },
                }
                let ghost stk0 = self.state.1@;
                let retval = self.state.1.pop().unwrap();
                let pcv = self.state.1.pop().unwrap();
                let envv = self.state.1.pop().unwrap();
                proof {
                    assert(stk0.drop_last().drop_last().drop_last() =~= stk0.take(n - 3));
                }
                match (pcv, envv) {
                    (SECDVal::PCVal(p), SECDVal::EnvVal(e)) => {
                        let ghost rg = retval;
                        self.state.1.push(retval);
                        self.state.0 = p;
                        self.state.2 = e;
                        proof {
                            lemma_models_take(stk0, n - 3);
                            lemma_models_push(stk0.take(n - 3), rg);
                            assert(st0.stk.last() == stk0[n - 1].model());
                            assert(st0.stk[st0.stk.len() - 2] == stk0[n - 2].model());
                            assert(st0.stk[st0.stk.len() - 3] == stk0[n - 3].model());
                        }
                        Ok(())
                    },
                    _ => vstd::pervasive::unreached(),
                }
            },
            SECDInstr::Closure(l) => {
                match find_label(&self.instrs, &l) {
                    Some(f) => {
                        let captured = dup_vals(&self.state.2);
                        let cl = SECDVal::ClosureVal {
                            focused_fn: Some(f),
                            mutrec_fns: Vec::new(),
                            env: captured,
                        };
                        let ghost clg = cl;
                        let ghost stk0 = self.state.1@;
                        self.state.1.push(cl);
                        self.state.0 = pc + 1;
                        proof {
                            lemma_models_push(stk0, clg);
                            assert(clg.model() == (SECDValV::ClosureVal {
                                focused_fn: Some(f),
                                mutrec_fns: Seq::<usize>::empty(),
                                env: st0.env,
                            }));
                            assert(Seq::<usize>::empty() =~= clg->ClosureVal_mutrec_fns@);
                        }
                        Ok(())
                    },
                    None => Err(String::from_str("undefined label")),
                }
            },
            SECDInstr::Closures(ls) => {
                match find_label_pcs(&self.instrs, &ls) {
                    Some(ps) => {
                        let captured = dup_vals(&self.state.2);
                        let cl = SECDVal::ClosureVal {
                            focused_fn: None,
                            mutrec_fns: ps,
                            env: captured,
                        };
                        let ghost clg = cl;
                        let ghost env0 = self.state.2@;
                        self.state.2.push(cl);
                        self.state.0 = pc + 1;
                        proof {
                            lemma_models_push(env0, clg);
                        }
                        Ok(())
                    },
                    None => Err(String::from_str("undefined label")),
                }
            },
            SECDInstr::Builtin(op) => match op {
                BuiltinOp::Println => {
                    let n = self.state.1.len();
                    if n == 0 {
                        return Err(String::from_str("stack underflow"));
                    }
                    let text = render_secdval(&self.state.1[n - 1]);
                    let line = chars_to_string(&text);
                    let ghost stk0 = self.state.1@;
                    let ghost effs0 = self.effects@;
                    let _ = self.state.1.pop();
                    self.state.1.push(SECDVal::UnitVal);
                    self.effects.push(SECDEffect::Println(line));
                    self.state.0 = pc + 1;
                    proof {
                        lemma_models_drop_last(stk0);
                        lemma_models_push(stk0.drop_last(), SECDVal::UnitVal);
                        assert(st0.stk.last() == stk0[n - 1].model());
                        assert(effect_models(self.effects@) =~= effect_models(effs0) + seq![
                            render_val(st0.stk.last()),
                        ]);
                    }
                    Ok(())
                },
                BuiltinOp::Nth => {
                    let n = self.state.1.len();
                    if n < 2 {
                        return Err(String::from_str("stack underflow"));
                    }
                    proof {
                        assert(st0.stk.last() == self.state.1@[n - 1].model());
                        assert(st0.stk[st0.stk.len() - 2] == self.state.1@[n - 2].model());
                    }
                    let k: i64 = match &self.state.1[n - 1] {
                        SECDVal::IntVal(k) => *k,
                        _ => {
                            return Err(String::from_str("bad operands for nth"));
                        },
                    };
                    let elem: SECDVal = match &self.state.1[n - 2] {
                        SECDVal::TupleVal(vs) => {
                            proof {
                                lemma_val_models(vs@);
                                assert(self.state.1@[n - 2].model() == SECDValV::TupleVal(
                                    val_models(vs@),
                                ));
                            }
                            if k < 0 {
                                return Err(String::from_str("nth out of range"));
                            }
                            if (k as u64) >= (vs.len() as u64) {
                                return Err(String::from_str("nth out of range"));
                            }
                            let e = vs[k as usize].clone();
                            proof {
                                assert(e.model() == val_models(vs@)[k as int]);
                                assert(e.model() == st0.stk[st0.stk.len()
                                    - 2]->TupleVal_0[k as int]);
                            }
                            e
                        },
                        _ => {
                            return Err(String::from_str("bad operands for nth"));
                        },
                    };
                    let ghost stk0 = self.state.1@;
                    let ghost eg = elem;
                    self.state.1.truncate(n - 2);
                    self.state.1.push(elem);
                    self.state.0 = pc + 1;
                    proof {
                        lemma_models_take(stk0, n - 2);
                        lemma_models_push(stk0.take(n - 2), eg);
                        assert(eg.model() == st0.stk[st0.stk.len() - 2]->TupleVal_0[k as int]);
                    }
                    Ok(())
                },
            },
            SECDInstr::Binary(op) => {
                let n = self.state.1.len();
                if n < 2 {
                    return Err(String::from_str("stack underflow"));
                }
                let lhs = self.state.1[n - 2].clone();
                let rhs = self.state.1[n - 1].clone();
                proof {
                    assert(st0.stk[st0.stk.len() - 2] == self.state.1@[n - 2].model());
                    assert(st0.stk.last() == self.state.1@[n - 1].model());
                }
                match Self::eval_binop(op, lhs, rhs) {
                    Some(v) => {
                        let ghost stk0 = self.state.1@;
                        let ghost vg = v;
                        self.state.1.truncate(n - 2);
                        self.state.1.push(v);
                        self.state.0 = pc + 1;
                        proof {
                            lemma_models_take(stk0, n - 2);
                            lemma_models_push(stk0.take(n - 2), vg);
                        }
                        Ok(())
                    },
                    None => Err(String::from_str("bad operands for binary operator")),
                }
            },
            SECDInstr::Unary(op) => {
                let n = self.state.1.len();
                if n == 0 {
                    return Err(String::from_str("stack underflow"));
                }
                let arg = self.state.1[n - 1].clone();
                proof {
                    assert(st0.stk.last() == self.state.1@[n - 1].model());
                }
                match Self::eval_unaop(op, arg) {
                    Some(v) => {
                        let ghost stk0 = self.state.1@;
                        let ghost vg = v;
                        let _ = self.state.1.pop();
                        self.state.1.push(v);
                        self.state.0 = pc + 1;
                        proof {
                            lemma_models_drop_last(stk0);
                            lemma_models_push(stk0.drop_last(), vg);
                        }
                        Ok(())
                    },
                    None => Err(String::from_str("bad operand for unary operator")),
                }
            },
            SECDInstr::Branch(op, l) => {
                match find_label(&self.instrs, &l) {
                    Some(dst) => match op {
                        BrOp::Br => {
                            self.state.0 = dst;
                            Ok(())
                        },
                        BrOp::BrFalse => {
                            let n = self.state.1.len();
                            if n == 0 {
                                return Err(String::from_str("stack underflow"));
                            }
                            match &self.state.1[n - 1] {
                                SECDVal::IntVal(c) => {
                                    let cond: i64 = *c;
                                    let ghost stk0 = self.state.1@;
                                    let _ = self.state.1.pop();
                                    if cond == 0 {
                                        self.state.0 = dst;
                                    } else {
                                        self.state.0 = pc + 1;
                                    }
                                    proof {
                                        lemma_models_drop_last(stk0);
                                        assert(st0.stk.last() == stk0[n - 1].model());
                                    }
                                    Ok(())
                                },
                                _ => Err(String::from_str("bad arg for BrFalse")),
                            }
                        },
                    },
                    None => Err(String::from_str("undefined label")),
                }
            },
            SECDInstr::Label(_) => {
                self.state.0 = pc + 1;
                Ok(())
            },
            SECDInstr::PushEnv => {
                let n = self.state.1.len();
                if n == 0 {
                    return Err(String::from_str("stack underflow"));
                }
                let ghost stk0 = self.state.1@;
                let ghost env0 = self.state.2@;
                let v = self.state.1.pop().unwrap();
                let ghost vg = v;
                self.state.2.push(v);
                self.state.0 = pc + 1;
                proof {
                    lemma_models_drop_last(stk0);
                    lemma_models_push(env0, vg);
                    assert(st0.stk.last() == stk0[n - 1].model());
                }
                Ok(())
            },
        }
    }
}

/// How a bounded run ended, when it ended.
pub enum RunStop {
    /// The machine reached `Halt`.
    Halted,
    /// The machine stopped with this error.
    Fail(StepErr),
}

/// Runs the step table for at most `fuel` steps: the state reached, the
/// printed lines in order, and how the run stopped (`None`: fuel ran out).
pub open spec fn spec_run(instrs: Seq<SECDInstrV>, st: SECDStateV, fuel: nat) -> (
    SECDStateV,
    Seq<Seq<char>>,
    Option<RunStop>,
)
    decreases fuel,
{
    if fuel == 0 {
        (st, Seq::empty(), None)
    } else {
        match spec_step(instrs, st) {
            StepSpec::Next(s2, effs) => {
                let (s3, effs2, stop) = spec_run(instrs, s2, (fuel - 1) as nat);
                (s3, effs + effs2, stop)
            },
            StepSpec::Halted => (st, Seq::empty(), Some(RunStop::Halted)),
            StepSpec::Fail(k) => (st, Seq::empty(), Some(RunStop::Fail(k))),
        }
    }
}

impl SECDMachine {
    /// Steps the machine until it halts, errors, or `max_steps` steps have
    /// been taken, exactly as `spec_run` says.  Returns the terminal message,
    /// or `None` when the step budget ran out first.
    pub fn run(&mut self, max_steps: usize) -> (r: Option<String>)
        ensures
            final(self).instrs == old(self).instrs,
            final(self).state@ == spec_run(
                instr_models(old(self).instrs@),
                old(self).state@,
                max_steps as nat,
            ).0,
            effect_models(final(self).effects@) == effect_models(old(self).effects@) + spec_run(
                instr_models(old(self).instrs@),
                old(self).state@,
                max_steps as nat,
            ).1,
            match spec_run(instr_models(old(self).instrs@), old(self).state@, max_steps as nat).2 {
                Some(RunStop::Halted) => r matches Some(msg) && msg@ == "execution halted"@,
                Some(RunStop::Fail(k)) => r matches Some(msg) && msg@ == err_msg(k),
                None => r is None,
            },
    {
        let ghost m = instr_models(self.instrs@);
        let ghost st0 = self.state@;
        let ghost effs0 = self.effects@;
        let ghost mut acc: Seq<Seq<char>> = Seq::empty();
        let mut i: usize = 0;
        proof {
            assert(effect_models(effs0) + acc =~= effect_models(effs0));
        }
        while i < max_steps
            invariant
                0 <= i <= max_steps,
                m == instr_models(self.instrs@),
                self.instrs == old(self).instrs,
                st0 == old(self).state@,
                effs0 == old(self).effects@,
                effect_models(self.effects@) == effect_models(effs0) + acc,
                spec_run(m, st0, max_steps as nat).0 == spec_run(
                    m,
                    self.state@,
                    (max_steps - i) as nat,
                ).0,
                spec_run(m, st0, max_steps as nat).2 == spec_run(
                    m,
                    self.state@,
                    (max_steps - i) as nat,
                ).2,
                spec_run(m, st0, max_steps as nat).1 == acc + spec_run(
                    m,
                    self.state@,
                    (max_steps - i) as nat,
                ).1,
            decreases max_steps - i,
        {
            let ghost cur = self.state@;
            let ghost fuel_left: nat = (max_steps - i) as nat;
            let res = self.step();
            match res {
                Ok(_) => {
                    proof {
                        match spec_step(m, cur) {
                            StepSpec::Next(s2, effs) => {
                                let (s3, effs2, stop) = spec_run(m, s2, (fuel_left - 1) as nat);
                                assert(spec_run(m, cur, fuel_left).1 == effs + effs2);
                                assert((acc + effs) + effs2 =~= acc + (effs + effs2));
                                acc = acc + effs;
                            },
                            _ => {
                                assert(false);
                            },
                        }
                    }
                },
                Err(msg) => {
                    proof {
                        assert(acc + Seq::<Seq<char>>::empty() =~= acc);
                    }
                    return Some(msg);
                },
            }
            i = i + 1;
        }
        proof {
            assert(acc + Seq::<Seq<char>>::empty() =~= acc);
        }
        None
    }

    /// The machine's final value: the single value on the stack.  `None`
    /// when the stack does not hold exactly one value.
    pub fn final_value(&self) -> (r: Option<&SECDVal>)
        ensures
            match r {
                Some(v) => self.state@.stk.len() == 1 && v@ == self.state@.stk[0],
                None => self.state@.stk.len() != 1,
            },
    {
        proof {
            lemma_val_models(self.state.1@);
        }
        if self.state.1.len() == 1 {
            Some(&self.state.1[0])
        } else {
            None
        }
    }
}

/// The machine is deterministic: equal instruction streams and equal states
/// give the same step outcome, and runs of any length from equal starts give
/// the same state sequence, stop cause and effect log.
pub proof fn lemma_machine_deterministic(
    instrs1: Seq<SECDInstrV>,
    instrs2: Seq<SECDInstrV>,
    st1: SECDStateV,
    st2: SECDStateV,
    fuel: nat,
)
    requires
        instrs1 == instrs2,
        st1 == st2,
    ensures
        spec_step(instrs1, st1) == spec_step(instrs2, st2),
        spec_run(instrs1, st1, fuel) == spec_run(instrs2, st2, fuel),
{
}

/// Division or modulo by zero stops the machine with an error; by `step`'s
/// contract the state and the effect log are left untouched.
pub proof fn lemma_div_by_zero_fails(instrs: Seq<SECDInstrV>, st: SECDStateV, l: i64)
    requires
        st.pc < instrs.len(),
        instrs[st.pc as int] == SECDInstrV::Binary(BinOp::Div) || instrs[st.pc as int]
            == SECDInstrV::Binary(BinOp::Rem),
        st.stk.len() >= 2,
        st.stk[st.stk.len() - 2] == SECDValV::IntVal(l),
        st.stk.last() == SECDValV::IntVal(0),
    ensures
        spec_step(instrs, st) == StepSpec::Fail(StepErr::BadBinary),
{
}

/// `Focus k` with `k` outside `[1, len(mutrec)]` stops the machine with an
/// error; by `step`'s contract the state and the effect log are left
/// untouched.
pub proof fn lemma_focus_out_of_range_fails(
    instrs: Seq<SECDInstrV>,
    st: SECDStateV,
    k: usize,
    mutrec_fns: Seq<usize>,
    env: Seq<SECDValV>,
)
    requires
        st.pc < instrs.len(),
        instrs[st.pc as int] == SECDInstrV::Focus(k),
        st.stk.len() >= 1,
        st.stk.last() == (SECDValV::ClosureVal { focused_fn: None, mutrec_fns, env }),
        k < 1 || k > mutrec_fns.len(),
    ensures
        spec_step(instrs, st) == StepSpec::Fail(StepErr::FocusOutOfRange),
{
}

/// A machine sitting on `Halt` is terminal: a step of any length from there
/// keeps the state, adds no effect, and keeps reporting termination.
pub proof fn lemma_halt_idempotent(instrs: Seq<SECDInstrV>, st: SECDStateV, fuel: nat)
    requires
        spec_step(instrs, st) == StepSpec::Halted,
        fuel >= 1,
    ensures
        spec_run(instrs, st, fuel) == (st, Seq::<Seq<char>>::empty(), Some(RunStop::Halted)),
{
}

} // verus!
