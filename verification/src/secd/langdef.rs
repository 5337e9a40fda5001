//! SECD language syntax definition: runtime values and instructions,
//! together with their mathematical models.

use vstd::prelude::*;

verus! {

/// Binary operators of the instruction set.
#[derive(Debug, Clone, Copy, PartialEq, Eq, Structural)]
pub enum BinOp {
    Add,
    Sub,
    Mul,
    Div,
    Rem,
    Gt,
    Lt,
    Ge,
    Le,
    Eq,
    Ne,
    Land,
    Lor,
    Lxor,
}

/// Unary operators of the instruction set.
#[derive(Debug, Clone, Copy, PartialEq, Eq, Structural)]
pub enum UnaOp {
    Neg,
    Lnot,
}

/// Branch operators.
#[derive(Debug, Clone, Copy, PartialEq, Eq, Structural)]
pub enum BrOp {
    Br,
    BrFalse,
}

/// Built-in operations of the machine.
#[derive(Debug, Clone, Copy, PartialEq, Eq, Structural)]
pub enum BuiltinOp {
    Println,
    Nth,
}

/// Runtime values.  `EnvVal` and `PCVal` are never handed to user code; they
/// only appear as return frames saved on the stack by `Apply`.
#[derive(Debug)]
pub enum SECDVal {
    IntVal(i64),
    UnitVal,
    TupleVal(Vec<SECDVal>),
    ClosureVal { focused_fn: Option<usize>, mutrec_fns: Vec<usize>, env: Vec<SECDVal> },
    BuiltinVal(BuiltinOp),
    EnvVal(Vec<SECDVal>),
    PCVal(usize),
}

/// Spec-level mirror of `SECDVal`.
pub enum SECDValV {
    IntVal(i64),
    UnitVal,
    TupleVal(Seq<SECDValV>),
    ClosureVal { focused_fn: Option<usize>, mutrec_fns: Seq<usize>, env: Seq<SECDValV> },
    BuiltinVal(BuiltinOp),
    EnvVal(Seq<SECDValV>),
    PCVal(usize),
}

/// The models of every value in a sequence.
pub open spec fn val_models(s: Seq<SECDVal>) -> Seq<SECDValV>
    decreases s,
{
    if s.len() == 0 {
        Seq::empty()
    } else {
        val_models(s.drop_last()).push(s.last().model())
    }
}

impl SECDVal {
    /// The mathematical value of this runtime value.
    pub open spec fn model(&self) -> SECDValV
        decreases self,
    {
        match self {
            SECDVal::IntVal(v) => SECDValV::IntVal(*v),
            SECDVal::UnitVal => SECDValV::UnitVal,
            SECDVal::TupleVal(vs) => SECDValV::TupleVal(val_models(vs@)),
            SECDVal::ClosureVal { focused_fn, mutrec_fns, env } => SECDValV::ClosureVal {
                focused_fn: *focused_fn,
                mutrec_fns: mutrec_fns@,
                env: val_models(env@),
            },
            SECDVal::BuiltinVal(op) => SECDValV::BuiltinVal(*op),
            SECDVal::EnvVal(vs) => SECDValV::EnvVal(val_models(vs@)),
            SECDVal::PCVal(n) => SECDValV::PCVal(*n),
        }
    }
}

impl View for SECDVal {
    type V = SECDValV;

    open spec fn view(&self) -> SECDValV {
        self.model()
    }
}

/// The models of a value sequence, element by element.
pub proof fn lemma_val_models(s: Seq<SECDVal>)
    ensures
        val_models(s).len() == s.len(),
        forall|i: int| 0 <= i < s.len() ==> #[trigger] val_models(s)[i] == s[i].model(),
    decreases s,
{
    if s.len() > 0 {
        lemma_val_models(s.drop_last());
        assert forall|i: int| 0 <= i < s.len() implies #[trigger] val_models(s)[i]
            == s[i].model() by {
            if i < s.len() - 1 {
                assert(val_models(s)[i] == val_models(s.drop_last())[i]);
                assert(s.drop_last()[i] == s[i]);
            }
        }
    }
}

/// Deep-copies a vector of values.
pub fn dup_vals(vs: &Vec<SECDVal>) -> (r: Vec<SECDVal>)
    ensures
        val_models(r@) == val_models(vs@),
        r@.len() == vs@.len(),
    decreases vs@,
{
    let mut r: Vec<SECDVal> = Vec::new();
    let mut i: usize = 0;
    proof {
        lemma_val_models(vs@);
    }
    while i < vs.len()
        invariant
            0 <= i <= vs@.len(),
            r@.len() == i,
            forall|j: int| 0 <= j < i ==> (#[trigger] r@[j]).model() == vs@[j].model(),
        decreases vs@.len() - i,
    {
        proof {
            assert(decreases_to!(vs@ => vs@[i as int]));
        }
        let v = vs[i].clone();
        r.push(v);
        i = i + 1;
    }
    proof {
        lemma_val_models(r@);
        lemma_val_models(vs@);
        assert forall|j: int| 0 <= j < vs@.len() implies val_models(r@)[j] == val_models(
            vs@,
        )[j] by {
            assert(r@[j].model() == vs@[j].model());
        }
        assert(val_models(r@) =~= val_models(vs@));
    }
    r
}

impl Clone for SECDVal {
    /// Deep copy; the copy has the same mathematical value.
    fn clone(&self) -> (r: Self)
        ensures
            r@ == self@,
        decreases *self,
    {
        match self {
            SECDVal::IntVal(v) => SECDVal::IntVal(*v),
            SECDVal::UnitVal => SECDVal::UnitVal,
            SECDVal::TupleVal(vs) => SECDVal::TupleVal(dup_vals(vs)),
            SECDVal::ClosureVal { focused_fn, mutrec_fns, env } => SECDVal::ClosureVal {
                focused_fn: *focused_fn,
                mutrec_fns: mutrec_fns.clone(),
                env: dup_vals(env),
            },
            SECDVal::BuiltinVal(op) => SECDVal::BuiltinVal(*op),
            SECDVal::EnvVal(vs) => SECDVal::EnvVal(dup_vals(vs)),
            SECDVal::PCVal(n) => SECDVal::PCVal(*n),
        }
    }
}

/// Instructions.  Branch targets and closure bodies are named by label.
#[derive(Debug)]
pub enum SECDInstr {
    Halt,
    Pop(usize),
    Apply,
    Const(SECDVal),
    Access(usize),
    Focus(usize),
    Return,
    Closure(String),
    Closures(Vec<String>),
    Builtin(BuiltinOp),
    Binary(BinOp),
    Unary(UnaOp),
    Branch(BrOp, String),
    Label(String),
    PushEnv,
}

/// Spec-level mirror of `SECDInstr`.
pub enum SECDInstrV {
    Halt,
    Pop(usize),
    Apply,
    Const(SECDValV),
    Access(usize),
    Focus(usize),
    Return,
    Closure(Seq<char>),
    Closures(Seq<Seq<char>>),
    Builtin(BuiltinOp),
    Binary(BinOp),
    Unary(UnaOp),
    Branch(BrOp, Seq<char>),
    Label(Seq<char>),
    PushEnv,
}

/// The views of every label in a vector.
pub open spec fn label_views(s: Seq<String>) -> Seq<Seq<char>> {
    s.map_values(|l: String| l@)
}

impl SECDInstr {
    /// The mathematical value of this instruction.
    pub open spec fn model(&self) -> SECDInstrV {
        match self {
            SECDInstr::Halt => SECDInstrV::Halt,
            SECDInstr::Pop(n) => SECDInstrV::Pop(*n),
            SECDInstr::Apply => SECDInstrV::Apply,
            SECDInstr::Const(v) => SECDInstrV::Const(v.model()),
            SECDInstr::Access(n) => SECDInstrV::Access(*n),
            SECDInstr::Focus(n) => SECDInstrV::Focus(*n),
            SECDInstr::Return => SECDInstrV::Return,
            SECDInstr::Closure(l) => SECDInstrV::Closure(l@),
            SECDInstr::Closures(ls) => SECDInstrV::Closures(label_views(ls@)),
            SECDInstr::Builtin(op) => SECDInstrV::Builtin(*op),
            SECDInstr::Binary(op) => SECDInstrV::Binary(*op),
            SECDInstr::Unary(op) => SECDInstrV::Unary(*op),
            SECDInstr::Branch(op, l) => SECDInstrV::Branch(*op, l@),
            SECDInstr::Label(l) => SECDInstrV::Label(l@),
            SECDInstr::PushEnv => SECDInstrV::PushEnv,
        }
    }
}

impl View for SECDInstr {
    type V = SECDInstrV;

    open spec fn view(&self) -> SECDInstrV {
        self.model()
    }
}

/// The models of every instruction in a sequence.
pub open spec fn instr_models(s: Seq<SECDInstr>) -> Seq<SECDInstrV> {
    s.map_values(|i: SECDInstr| i.model())
}

/// Copies a vector of indices.
pub fn dup_usizes(v: &Vec<usize>) -> (r: Vec<usize>)
    ensures
        r@ == v@,
{
    let mut r: Vec<usize> = Vec::new();
    let mut i: usize = 0;
    while i < v.len()
        invariant
            0 <= i <= v@.len(),
            r@ == v@.subrange(0, i as int),
        decreases v@.len() - i,
    {
        r.push(v[i]);
        proof {
            assert(r@ =~= v@.subrange(0, i + 1));
        }
        i = i + 1;
    }
    proof {
        assert(v@.subrange(0, v@.len() as int) =~= v@);
    }
    r
}

/// Copies a vector of labels.
pub fn dup_labels(v: &Vec<String>) -> (r: Vec<String>)
    ensures
        label_views(r@) == label_views(v@),
        r@.len() == v@.len(),
{
    let mut r: Vec<String> = Vec::new();
    let mut i: usize = 0;
    while i < v.len()
        invariant
            0 <= i <= v@.len(),
            r@.len() == i,
            forall|j: int| 0 <= j < i ==> (#[trigger] r@[j])@ == v@[j]@,
        decreases v@.len() - i,
    {
        r.push(v[i].clone());
        i = i + 1;
    }
    proof {
        assert forall|j: int| 0 <= j < v@.len() implies label_views(r@)[j] == label_views(
            v@,
        )[j] by {
            assert(r@[j]@ == v@[j]@);
        }
        assert(label_views(r@) =~= label_views(v@));
    }
    r
}

impl Clone for SECDInstr {
    /// Deep copy; the copy has the same mathematical value.
    fn clone(&self) -> (r: Self)
        ensures
            r@ == self@,
    {
        match self {
            SECDInstr::Halt => SECDInstr::Halt,
            SECDInstr::Pop(n) => SECDInstr::Pop(*n),
            SECDInstr::Apply => SECDInstr::Apply,
            SECDInstr::Const(v) => SECDInstr::Const(v.clone()),
            SECDInstr::Access(n) => SECDInstr::Access(*n),
            SECDInstr::Focus(n) => SECDInstr::Focus(*n),
            SECDInstr::Return => SECDInstr::Return,
            SECDInstr::Closure(l) => SECDInstr::Closure(l.clone()),
            SECDInstr::Closures(ls) => SECDInstr::Closures(dup_labels(ls)),
            SECDInstr::Builtin(op) => SECDInstr::Builtin(*op),
            SECDInstr::Binary(op) => SECDInstr::Binary(*op),
            SECDInstr::Unary(op) => SECDInstr::Unary(*op),
            SECDInstr::Branch(op, l) => SECDInstr::Branch(*op, l.clone()),
            SECDInstr::Label(l) => SECDInstr::Label(l.clone()),
            SECDInstr::PushEnv => SECDInstr::PushEnv,
        }
    }
}

/// The models of an instruction sequence, element by element.
pub proof fn lemma_instr_models(s: Seq<SECDInstr>)
    ensures
        instr_models(s).len() == s.len(),
        forall|i: int| 0 <= i < s.len() ==> #[trigger] instr_models(s)[i] == s[i].model(),
{
}

} // verus!
