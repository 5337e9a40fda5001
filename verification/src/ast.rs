//! AST node definitions for MiniML, together with their mathematical models.
//!
//! Each executable node type has a spec-level mirror (`…V`) whose text fields
//! are `Seq<char>` and whose child lists are `Seq`; contracts throughout the
//! crate are stated over those mirrors via `View`.

use vstd::prelude::*;

verus! {

/// Binary operators of the surface language.
#[derive(Debug, Clone, Copy, PartialEq, Eq, Structural)]
pub enum BinOp {
    Add,
    Sub,
    Mul,
    Div,
    Rem,
    Gt,
    Lt,
    Ge,
    Le,
    Eq,
    Ne,
    Land,
    Lor,
    Lxor,
}

/// Unary operators of the surface language.
#[derive(Debug, Clone, Copy, PartialEq, Eq, Structural)]
pub enum UnaOp {
    Neg,
    Lnot,
}

/// Built-in operations reachable by name from the surface language.
#[derive(Debug, Clone, Copy, PartialEq, Eq, Structural)]
pub enum BuiltinOp {
    Println,
    Nth,
    True,
    False,
}

/// Types, as written in annotations; `UnkTy` stands for an absent annotation.
#[derive(Debug)]
pub enum Ty {
    UnitTy,
    IntTy,
    BoolTy,
    UnkTy,
    AbsTy(Box<Ty>, Box<Ty>),
    DataTy(String),
}

/// Spec-level mirror of `Ty`.
pub enum TyV {
    UnitTy,
    IntTy,
    BoolTy,
    UnkTy,
    AbsTy(Box<TyV>, Box<TyV>),
    DataTy(Seq<char>),
}

impl Ty {
    /// The mathematical value of this type expression.
    pub open spec fn model(&self) -> TyV
        decreases self,
    {
        match self {
            Ty::UnitTy => TyV::UnitTy,
            Ty::IntTy => TyV::IntTy,
            Ty::BoolTy => TyV::BoolTy,
            Ty::UnkTy => TyV::UnkTy,
            Ty::AbsTy(a, b) => TyV::AbsTy(Box::new(a.model()), Box::new(b.model())),
            Ty::DataTy(name) => TyV::DataTy(name@),
        }
    }
}

impl View for Ty {
    type V = TyV;

    open spec fn view(&self) -> TyV {
        self.model()
    }
}

/// One arm of a `let rec`: a named single-argument function.
#[derive(Debug)]
pub struct LetRecArm {
    pub fn_name: String,
    pub fn_ty: Ty,
    pub arg_name: String,
    pub arg_ty: Ty,
    pub body: Box<Expr>,
}

/// A pattern of a `match` arm.
#[derive(Debug)]
pub enum MatchPattern {
    Binder { name: String },
    Tuple { subs: Vec<MatchPattern> },
    Lit { val: Expr },
    DataType { ctor: String, subs: Vec<MatchPattern> },
}

/// One arm of a `match`: a pattern and the expression it selects.
#[derive(Debug)]
pub struct MatchArm {
    pub ptn: MatchPattern,
    pub res: Expr,
}

/// Expressions of the surface language.
#[derive(Debug)]
pub enum Expr {
    IntLit { val: i64 },
    UnitLit {},
    Binary { lhs: Box<Expr>, op: BinOp, rhs: Box<Expr> },
    Unary { op: UnaOp, sub: Box<Expr> },
    VarRef { id: String },
    Builtin { op: BuiltinOp },
    App { fun: Box<Expr>, arg: Box<Expr> },
    Sequence { subs: Vec<Expr> },
    Abs { arg_name: String, arg_ty: Ty, body: Box<Expr> },
    Let { name: String, ty: Ty, val: Box<Expr>, body: Box<Expr> },
    Tuple { subs: Vec<Expr> },
    Nth { idx: i64, sub: Box<Expr> },
    Ite { cond: Box<Expr>, tr: Box<Expr>, fl: Box<Expr> },
    LetRec { arms: Vec<LetRecArm>, body: Box<Expr> },
    Match { sub: Box<Expr>, arms: Vec<MatchArm> },
}

/// Spec-level mirror of `LetRecArm`.
pub struct LetRecArmV {
    pub fn_name: Seq<char>,
    pub fn_ty: TyV,
    pub arg_name: Seq<char>,
    pub arg_ty: TyV,
    pub body: Box<ExprV>,
}

/// Spec-level mirror of `MatchPattern`.
pub enum MatchPatternV {
    Binder { name: Seq<char> },
    Tuple { subs: Seq<MatchPatternV> },
    Lit { val: Box<ExprV> },
    DataType { ctor: Seq<char>, subs: Seq<MatchPatternV> },
}

/// Spec-level mirror of `MatchArm`.
pub struct MatchArmV {
    pub ptn: MatchPatternV,
    pub res: Box<ExprV>,
}

/// Spec-level mirror of `Expr`.
pub enum ExprV {
    IntLit { val: i64 },
    UnitLit {},
    Binary { lhs: Box<ExprV>, op: BinOp, rhs: Box<ExprV> },
    Unary { op: UnaOp, sub: Box<ExprV> },
    VarRef { id: Seq<char> },
    Builtin { op: BuiltinOp },
    App { fun: Box<ExprV>, arg: Box<ExprV> },
    Sequence { subs: Seq<ExprV> },
    Abs { arg_name: Seq<char>, arg_ty: TyV, body: Box<ExprV> },
    Let { name: Seq<char>, ty: TyV, val: Box<ExprV>, body: Box<ExprV> },
    Tuple { subs: Seq<ExprV> },
    Nth { idx: i64, sub: Box<ExprV> },
    Ite { cond: Box<ExprV>, tr: Box<ExprV>, fl: Box<ExprV> },
    LetRec { arms: Seq<LetRecArmV>, body: Box<ExprV> },
    Match { sub: Box<ExprV>, arms: Seq<MatchArmV> },
}

/// The models of every pattern in a sequence.
pub open spec fn pattern_models(s: Seq<MatchPattern>) -> Seq<MatchPatternV>
    decreases s,
{
    if s.len() == 0 {
        Seq::empty()
    } else {
        pattern_models(s.drop_last()).push(s.last().model())
    }
}

/// The models of every expression in a sequence.
pub open spec fn expr_models(s: Seq<Expr>) -> Seq<ExprV>
    decreases s,
{
    if s.len() == 0 {
        Seq::empty()
    } else {
        expr_models(s.drop_last()).push(s.last().model())
    }
}

/// The models of every `let rec` arm in a sequence.
pub open spec fn letrecarm_models(s: Seq<LetRecArm>) -> Seq<LetRecArmV>
    decreases s,
{
    if s.len() == 0 {
        Seq::empty()
    } else {
        letrecarm_models(s.drop_last()).push(s.last().model())
    }
}

/// The models of every `match` arm in a sequence.
pub open spec fn matcharm_models(s: Seq<MatchArm>) -> Seq<MatchArmV>
    decreases s,
{
    if s.len() == 0 {
        Seq::empty()
    } else {
        matcharm_models(s.drop_last()).push(s.last().model())
    }
}

impl MatchPattern {
    /// The mathematical value of this pattern.
    pub open spec fn model(&self) -> MatchPatternV
        decreases self,
    {
        match self {
            MatchPattern::Binder { name } => MatchPatternV::Binder { name: name@ },
            MatchPattern::Tuple { subs } => MatchPatternV::Tuple { subs: pattern_models(subs@) },
            MatchPattern::Lit { val } => MatchPatternV::Lit { val: Box::new(val.model()) },
            MatchPattern::DataType { ctor, subs } => MatchPatternV::DataType {
                ctor: ctor@,
                subs: pattern_models(subs@),
            },
        }
    }
}

impl Expr {
    /// The mathematical value of this expression.
    pub open spec fn model(&self) -> ExprV
        decreases self,
    {
        match self {
            Expr::IntLit { val } => ExprV::IntLit { val: *val },
            Expr::UnitLit {} => ExprV::UnitLit {},
            Expr::Binary { lhs, op, rhs } => ExprV::Binary {
                lhs: Box::new(lhs.model()),
                op: *op,
                rhs: Box::new(rhs.model()),
            },
            Expr::Unary { op, sub } => ExprV::Unary { op: *op, sub: Box::new(sub.model()) },
            Expr::VarRef { id } => ExprV::VarRef { id: id@ },
            Expr::Builtin { op } => ExprV::Builtin { op: *op },
            Expr::App { fun, arg } => ExprV::App {
                fun: Box::new(fun.model()),
                arg: Box::new(arg.model()),
            },
            Expr::Sequence { subs } => ExprV::Sequence { subs: expr_models(subs@) },
            Expr::Abs { arg_name, arg_ty, body } => ExprV::Abs {
                arg_name: arg_name@,
                arg_ty: arg_ty.model(),
                body: Box::new(body.model()),
            },
            Expr::Let { name, ty, val, body } => ExprV::Let {
                name: name@,
                ty: ty.model(),
                val: Box::new(val.model()),
                body: Box::new(body.model()),
            },
            Expr::Tuple { subs } => ExprV::Tuple { subs: expr_models(subs@) },
            Expr::Nth { idx, sub } => ExprV::Nth { idx: *idx, sub: Box::new(sub.model()) },
            Expr::Ite { cond, tr, fl } => ExprV::Ite {
                cond: Box::new(cond.model()),
                tr: Box::new(tr.model()),
                fl: Box::new(fl.model()),
            },
            Expr::LetRec { arms, body } => ExprV::LetRec {
                arms: letrecarm_models(arms@),
                body: Box::new(body.model()),
            },
            Expr::Match { sub, arms } => ExprV::Match {
                sub: Box::new(sub.model()),
                arms: matcharm_models(arms@),
            },
        }
    }
}

impl LetRecArm {
    /// The mathematical value of this arm.
    pub open spec fn model(&self) -> LetRecArmV
        decreases self,
    {
        LetRecArmV {
            fn_name: self.fn_name@,
            fn_ty: self.fn_ty.model(),
            arg_name: self.arg_name@,
            arg_ty: self.arg_ty.model(),
            body: Box::new(self.body.model()),
        }
    }
}

impl MatchArm {
    /// The mathematical value of this arm.
    pub open spec fn model(&self) -> MatchArmV
        decreases self,
    {
        MatchArmV { ptn: self.ptn.model(), res: Box::new(self.res.model()) }
    }
}

impl View for MatchPattern {
    type V = MatchPatternV;

    open spec fn view(&self) -> MatchPatternV {
        self.model()
    }
}

impl View for Expr {
    type V = ExprV;

    open spec fn view(&self) -> ExprV {
        self.model()
    }
}

impl View for LetRecArm {
    type V = LetRecArmV;

    open spec fn view(&self) -> LetRecArmV {
        self.model()
    }
}

impl View for MatchArm {
    type V = MatchArmV;

    open spec fn view(&self) -> MatchArmV {
        self.model()
    }
}

/// One constructor of a data-type declaration.
#[derive(Debug)]
pub struct DataTypeArm {
    pub ctor: String,
    pub arg_tys: Vec<Ty>,
}

/// A `datatype Name = | Ctor τ… end` declaration.
#[derive(Debug)]
pub struct DataType {
    pub name: String,
    pub arms: Vec<DataTypeArm>,
}

/// A whole program: data-type declarations followed by a main expression.
#[derive(Debug)]
pub struct Prog {
    pub data_types: Vec<DataType>,
    pub main_expr: Expr,
}

/// Spec-level mirror of `DataTypeArm`.
pub struct DataTypeArmV {
    pub ctor: Seq<char>,
    pub arg_tys: Seq<TyV>,
}

/// Spec-level mirror of `DataType`.
pub struct DataTypeV {
    pub name: Seq<char>,
    pub arms: Seq<DataTypeArmV>,
}

/// Spec-level mirror of `Prog`.
pub struct ProgV {
    pub data_types: Seq<DataTypeV>,
    pub main_expr: ExprV,
}

/// The models of every type in a sequence.
pub open spec fn ty_models(s: Seq<Ty>) -> Seq<TyV>
    decreases s,
{
    if s.len() == 0 {
        Seq::empty()
    } else {
        ty_models(s.drop_last()).push(s.last().model())
    }
}

impl DataTypeArm {
    /// The mathematical value of this constructor declaration.
    pub open spec fn model(&self) -> DataTypeArmV {
        DataTypeArmV { ctor: self.ctor@, arg_tys: ty_models(self.arg_tys@) }
    }
}

impl View for DataTypeArm {
    type V = DataTypeArmV;

    open spec fn view(&self) -> DataTypeArmV {
        self.model()
    }
}

/// The models of every constructor declaration in a sequence.
pub open spec fn datatypearm_models(s: Seq<DataTypeArm>) -> Seq<DataTypeArmV>
    decreases s,
{
    if s.len() == 0 {
        Seq::empty()
    } else {
        datatypearm_models(s.drop_last()).push(s.last().model())
    }
}

impl DataType {
    /// The mathematical value of this declaration.
    pub open spec fn model(&self) -> DataTypeV {
        DataTypeV { name: self.name@, arms: datatypearm_models(self.arms@) }
    }
}

impl View for DataType {
    type V = DataTypeV;

    open spec fn view(&self) -> DataTypeV {
        self.model()
    }
}

/// The models of every declaration in a sequence.
pub open spec fn datatype_models(s: Seq<DataType>) -> Seq<DataTypeV>
    decreases s,
{
    if s.len() == 0 {
        Seq::empty()
    } else {
        datatype_models(s.drop_last()).push(s.last().model())
    }
}

impl Prog {
    /// The mathematical value of this program.
    pub open spec fn model(&self) -> ProgV {
        ProgV { data_types: datatype_models(self.data_types@), main_expr: self.main_expr.model() }
    }
}

impl View for Prog {
    type V = ProgV;

    open spec fn view(&self) -> ProgV {
        self.model()
    }
}

/// Prints the surface name of a built-in operation.
pub fn builtin_print(op: BuiltinOp) -> (r: &'static str)
    ensures
        op == BuiltinOp::Println ==> r@ == "println"@,
        op == BuiltinOp::Nth ==> r@ == "nth"@,
        op == BuiltinOp::True ==> r@ == "true"@,
        op == BuiltinOp::False ==> r@ == "false"@,
{
    match op {
        BuiltinOp::Println => "println",
        BuiltinOp::Nth => "nth",
        BuiltinOp::True => "true",
        BuiltinOp::False => "false",
    }
}

/// The models of an expression sequence, element by element.
pub proof fn lemma_expr_models(s: Seq<Expr>)
    ensures
        expr_models(s).len() == s.len(),
        forall|i: int| 0 <= i < s.len() ==> #[trigger] expr_models(s)[i] == s[i].model(),
    decreases s,
{
    if s.len() > 0 {
        lemma_expr_models(s.drop_last());
        assert forall|i: int| 0 <= i < s.len() implies #[trigger] expr_models(s)[i]
            == s[i].model() by {
            if i < s.len() - 1 {
                assert(expr_models(s)[i] == expr_models(s.drop_last())[i]);
                assert(s.drop_last()[i] == s[i]);
            }
        }
    }
}

/// The models of a `let rec` arm sequence, element by element.
pub proof fn lemma_letrecarm_models(s: Seq<LetRecArm>)
    ensures
        letrecarm_models(s).len() == s.len(),
        forall|i: int| 0 <= i < s.len() ==> #[trigger] letrecarm_models(s)[i] == s[i].model(),
    decreases s,
{
    if s.len() > 0 {
        lemma_letrecarm_models(s.drop_last());
        assert forall|i: int| 0 <= i < s.len() implies #[trigger] letrecarm_models(s)[i]
            == s[i].model() by {
            if i < s.len() - 1 {
                assert(letrecarm_models(s)[i] == letrecarm_models(s.drop_last())[i]);
                assert(s.drop_last()[i] == s[i]);
            }
        }
    }
}

/// The models of a `match` arm sequence, element by element.
pub proof fn lemma_matcharm_models(s: Seq<MatchArm>)
    ensures
        matcharm_models(s).len() == s.len(),
        forall|i: int| 0 <= i < s.len() ==> #[trigger] matcharm_models(s)[i] == s[i].model(),
    decreases s,
{
    if s.len() > 0 {
        lemma_matcharm_models(s.drop_last());
        assert forall|i: int| 0 <= i < s.len() implies #[trigger] matcharm_models(s)[i]
            == s[i].model() by {
            if i < s.len() - 1 {
                assert(matcharm_models(s)[i] == matcharm_models(s.drop_last())[i]);
                assert(s.drop_last()[i] == s[i]);
            }
        }
    }
}

/// Deep-copies a vector of expressions.
pub fn dup_exprs(vs: &Vec<Expr>) -> (r: Vec<Expr>)
    ensures
        expr_models(r@) == expr_models(vs@),
        r@.len() == vs@.len(),
    decreases vs@,
{
    let mut r: Vec<Expr> = Vec::new();
    let mut i: usize = 0;
    while i < vs.len()
        invariant
            0 <= i <= vs@.len(),
            r@.len() == i,
            forall|j: int| 0 <= j < i ==> (#[trigger] r@[j]).model() == vs@[j].model(),
        decreases vs@.len() - i,
    {
        proof {
            assert(decreases_to!(vs@ => vs@[i as int]));
        }
        let v = vs[i].clone();
        r.push(v);
        i = i + 1;
    }
    proof {
        lemma_expr_models(r@);
        lemma_expr_models(vs@);
        assert forall|j: int| 0 <= j < vs@.len() implies expr_models(r@)[j] == expr_models(
            vs@,
        )[j] by {
            assert(r@[j].model() == vs@[j].model());
        }
        assert(expr_models(r@) =~= expr_models(vs@));
    }
    r
}

/// Deep-copies a vector of patterns.
pub fn dup_patterns(vs: &Vec<MatchPattern>) -> (r: Vec<MatchPattern>)
    ensures
        pattern_models(r@) == pattern_models(vs@),
        r@.len() == vs@.len(),
    decreases vs@,
{
    let mut r: Vec<MatchPattern> = Vec::new();
    let mut i: usize = 0;
    while i < vs.len()
        invariant
            0 <= i <= vs@.len(),
            r@.len() == i,
            forall|j: int| 0 <= j < i ==> (#[trigger] r@[j]).model() == vs@[j].model(),
        decreases vs@.len() - i,
    {
        proof {
            assert(decreases_to!(vs@ => vs@[i as int]));
        }
        let v = vs[i].clone();
        r.push(v);
        i = i + 1;
    }
    proof {
        lemma_pattern_models(r@);
        lemma_pattern_models(vs@);
        assert forall|j: int| 0 <= j < vs@.len() implies pattern_models(r@)[j] == pattern_models(
            vs@,
        )[j] by {
            assert(r@[j].model() == vs@[j].model());
        }
        assert(pattern_models(r@) =~= pattern_models(vs@));
    }
    r
}

/// The models of a pattern sequence, element by element.
pub proof fn lemma_pattern_models(s: Seq<MatchPattern>)
    ensures
        pattern_models(s).len() == s.len(),
        forall|i: int| 0 <= i < s.len() ==> #[trigger] pattern_models(s)[i] == s[i].model(),
    decreases s,
{
    if s.len() > 0 {
        lemma_pattern_models(s.drop_last());
        assert forall|i: int| 0 <= i < s.len() implies #[trigger] pattern_models(s)[i]
            == s[i].model() by {
            if i < s.len() - 1 {
                assert(pattern_models(s)[i] == pattern_models(s.drop_last())[i]);
                assert(s.drop_last()[i] == s[i]);
            }
        }
    }
}

/// Deep-copies a vector of `let rec` arms.
fn dup_letrecarms(vs: &Vec<LetRecArm>) -> (r: Vec<LetRecArm>)
    ensures
        letrecarm_models(r@) == letrecarm_models(vs@),
        r@.len() == vs@.len(),
    decreases vs@,
{
    let mut r: Vec<LetRecArm> = Vec::new();
    let mut i: usize = 0;
    while i < vs.len()
        invariant
            0 <= i <= vs@.len(),
            r@.len() == i,
            forall|j: int| 0 <= j < i ==> (#[trigger] r@[j]).model() == vs@[j].model(),
        decreases vs@.len() - i,
    {
        proof {
            assert(decreases_to!(vs@ => vs@[i as int]));
        }
        let v = vs[i].clone();
        r.push(v);
        i = i + 1;
    }
    proof {
        lemma_letrecarm_models(r@);
        lemma_letrecarm_models(vs@);
        assert forall|j: int| 0 <= j < vs@.len() implies letrecarm_models(r@)[j]
            == letrecarm_models(vs@)[j] by {
            assert(r@[j].model() == vs@[j].model());
        }
        assert(letrecarm_models(r@) =~= letrecarm_models(vs@));
    }
    r
}

/// Deep-copies a vector of `match` arms.
fn dup_matcharms(vs: &Vec<MatchArm>) -> (r: Vec<MatchArm>)
    ensures
        matcharm_models(r@) == matcharm_models(vs@),
        r@.len() == vs@.len(),
    decreases vs@,
{
    let mut r: Vec<MatchArm> = Vec::new();
    let mut i: usize = 0;
    while i < vs.len()
        invariant
            0 <= i <= vs@.len(),
            r@.len() == i,
            forall|j: int| 0 <= j < i ==> (#[trigger] r@[j]).model() == vs@[j].model(),
        decreases vs@.len() - i,
    {
        proof {
            assert(decreases_to!(vs@ => vs@[i as int]));
        }
        let v = vs[i].clone();
        r.push(v);
        i = i + 1;
    }
    proof {
        lemma_matcharm_models(r@);
        lemma_matcharm_models(vs@);
        assert forall|j: int| 0 <= j < vs@.len() implies matcharm_models(r@)[j] == matcharm_models(
            vs@,
        )[j] by {
            assert(r@[j].model() == vs@[j].model());
        }
        assert(matcharm_models(r@) =~= matcharm_models(vs@));
    }
    r
}

impl Clone for Ty {
    /// Deep copy; the copy has the same mathematical value.
    fn clone(&self) -> (r: Self)
        ensures
            r@ == self@,
        decreases *self,
    {
        match self {
            Ty::UnitTy => Ty::UnitTy,
            Ty::IntTy => Ty::IntTy,
            Ty::BoolTy => Ty::BoolTy,
            Ty::UnkTy => Ty::UnkTy,
            Ty::AbsTy(a, b) => Ty::AbsTy(Box::new((**a).clone()), Box::new((**b).clone())),
            Ty::DataTy(name) => Ty::DataTy(name.clone()),
        }
    }
}

impl Clone for MatchPattern {
    /// Deep copy; the copy has the same mathematical value.
    fn clone(&self) -> (r: Self)
        ensures
            r@ == self@,
        decreases *self,
    {
        match self {
            MatchPattern::Binder { name } => MatchPattern::Binder { name: name.clone() },
            MatchPattern::Tuple { subs } => MatchPattern::Tuple { subs: dup_patterns(subs) },
            MatchPattern::Lit { val } => MatchPattern::Lit { val: val.clone() },
            MatchPattern::DataType { ctor, subs } => MatchPattern::DataType {
                ctor: ctor.clone(),
                subs: dup_patterns(subs),
            },
        }
    }
}

impl Clone for LetRecArm {
    /// Deep copy; the copy has the same mathematical value.
    fn clone(&self) -> (r: Self)
        ensures
            r@ == self@,
        decreases *self,
    {
        LetRecArm {
            fn_name: self.fn_name.clone(),
            fn_ty: self.fn_ty.clone(),
            arg_name: self.arg_name.clone(),
            arg_ty: self.arg_ty.clone(),
            body: Box::new((*self.body).clone()),
        }
    }
}

impl Clone for MatchArm {
    /// Deep copy; the copy has the same mathematical value.
    fn clone(&self) -> (r: Self)
        ensures
            r@ == self@,
        decreases *self,
    {
        MatchArm { ptn: self.ptn.clone(), res: self.res.clone() }
    }
}

impl Clone for Expr {
    /// Deep copy; the copy has the same mathematical value.
    fn clone(&self) -> (r: Self)
        ensures
            r@ == self@,
        decreases *self,
    {
        match self {
            Expr::IntLit { val } => Expr::IntLit { val: *val },
            Expr::UnitLit {} => Expr::UnitLit {},
            Expr::Binary { lhs, op, rhs } => Expr::Binary {
                lhs: Box::new((**lhs).clone()),
                op: *op,
                rhs: Box::new((**rhs).clone()),
            },
            Expr::Unary { op, sub } => Expr::Unary { op: *op, sub: Box::new((**sub).clone()) },
            Expr::VarRef { id } => Expr::VarRef { id: id.clone() },
            Expr::Builtin { op } => Expr::Builtin { op: *op },
            Expr::App { fun, arg } => Expr::App {
                fun: Box::new((**fun).clone()),
                arg: Box::new((**arg).clone()),
            },
            Expr::Sequence { subs } => Expr::Sequence { subs: dup_exprs(subs) },
            Expr::Abs { arg_name, arg_ty, body } => Expr::Abs {
                arg_name: arg_name.clone(),
                arg_ty: arg_ty.clone(),
                body: Box::new((**body).clone()),
            },
            Expr::Let { name, ty, val, body } => Expr::Let {
                name: name.clone(),
                ty: ty.clone(),
                val: Box::new((**val).clone()),
                body: Box::new((**body).clone()),
            },
            Expr::Tuple { subs } => Expr::Tuple { subs: dup_exprs(subs) },
            Expr::Nth { idx, sub } => Expr::Nth { idx: *idx, sub: Box::new((**sub).clone()) },
            Expr::Ite { cond, tr, fl } => Expr::Ite {
                cond: Box::new((**cond).clone()),
                tr: Box::new((**tr).clone()),
                fl: Box::new((**fl).clone()),
            },
            Expr::LetRec { arms, body } => Expr::LetRec {
                arms: dup_letrecarms(arms),
                body: Box::new((**body).clone()),
            },
            Expr::Match { sub, arms } => Expr::Match {
                sub: Box::new((**sub).clone()),
                arms: dup_matcharms(arms),
            },
        }
    }
}

/// The models of a type sequence, element by element.
pub proof fn lemma_ty_models(s: Seq<Ty>)
    ensures
        ty_models(s).len() == s.len(),
        forall|i: int| 0 <= i < s.len() ==> #[trigger] ty_models(s)[i] == s[i].model(),
    decreases s,
{
    if s.len() > 0 {
        lemma_ty_models(s.drop_last());
        assert forall|i: int| 0 <= i < s.len() implies #[trigger] ty_models(s)[i]
            == s[i].model() by {
            if i < s.len() - 1 {
                assert(ty_models(s)[i] == ty_models(s.drop_last())[i]);
                assert(s.drop_last()[i] == s[i]);
            }
        }
    }
}

/// The models of a constructor-declaration sequence, element by element.
pub proof fn lemma_datatypearm_models(s: Seq<DataTypeArm>)
    ensures
        datatypearm_models(s).len() == s.len(),
        forall|i: int| 0 <= i < s.len() ==> #[trigger] datatypearm_models(s)[i] == s[i].model(),
    decreases s,
{
    if s.len() > 0 {
        lemma_datatypearm_models(s.drop_last());
        assert forall|i: int| 0 <= i < s.len() implies #[trigger] datatypearm_models(s)[i]
            == s[i].model() by {
            if i < s.len() - 1 {
                assert(datatypearm_models(s)[i] == datatypearm_models(s.drop_last())[i]);
                assert(s.drop_last()[i] == s[i]);
            }
        }
    }
}

/// The models of a declaration sequence, element by element.
pub proof fn lemma_datatype_models(s: Seq<DataType>)
    ensures
        datatype_models(s).len() == s.len(),
        forall|i: int| 0 <= i < s.len() ==> #[trigger] datatype_models(s)[i] == s[i].model(),
    decreases s,
{
    if s.len() > 0 {
        lemma_datatype_models(s.drop_last());
        assert forall|i: int| 0 <= i < s.len() implies #[trigger] datatype_models(s)[i]
            == s[i].model() by {
            if i < s.len() - 1 {
                assert(datatype_models(s)[i] == datatype_models(s.drop_last())[i]);
                assert(s.drop_last()[i] == s[i]);
            }
        }
    }
}

} // verus!


