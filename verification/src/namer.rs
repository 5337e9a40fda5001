//! The alpha-renaming pass: every binder gets a globally fresh name of the
//! form `_<old>@<k>`, where `k` counts uses of `<old>` as a binder.
//!
//! The whole pass is pinned by the spec-level function [`spec_rename`]:
//! `visit` either rewrites the tree exactly as `spec_rename` says, or
//! reports the error `spec_rename` names.

use vstd::prelude::*;

use crate::ast::{Expr, ExprV, LetRecArm, LetRecArmV, MatchArmV};
use crate::debrujin::arm_names;
use crate::num::dec_of;
use crate::utils::{chars_to_string, string_to_chars, string_views};

verus! {

/// The errors of the renaming pass.
#[derive(Debug)]
pub enum NamerErrKind {
    /// A variable reference without a binder in scope.
    UnknownVarRef { id: String },
    /// Two arms of one `let rec` share a function name.
    DuplicateLetRecFn {},
}

/// Spec-level mirror of `NamerErrKind`.
pub enum NamerErrV {
    UnknownVarRef(Seq<char>),
    DuplicateLetRecFn,
}

impl NamerErrKind {
    /// The mathematical value of this error.
    pub open spec fn model(&self) -> NamerErrV {
        match self {
            NamerErrKind::UnknownVarRef { id } => NamerErrV::UnknownVarRef(id@),
            NamerErrKind::DuplicateLetRecFn {} => NamerErrV::DuplicateLetRecFn,
        }
    }
}

impl View for NamerErrKind {
    type V = NamerErrV;

    open spec fn view(&self) -> NamerErrV {
        self.model()
    }
}

/// The fresh name issued for binder `old` at count `k`.
pub open spec fn encode(old: Seq<char>, k: nat) -> Seq<char> {
    seq!['_'] + old + seq!['@'] + dec_of(k)
}

/// The count a name is at: its counter entry, or zero before the first use.
pub open spec fn spec_suffix(ctr: Map<Seq<char>, nat>, name: Seq<char>) -> nat {
    if ctr.dom().contains(name) {
        ctr[name]
    } else {
        0
    }
}

/// Counters saturate at the machine's integer range.
pub open spec fn spec_bump(k: nat) -> nat {
    if k >= usize::MAX {
        k
    } else {
        k + 1
    }
}

/// Issuing a fresh name for `old`: the name and the stepped counters.
pub open spec fn spec_gen(ctr: Map<Seq<char>, nat>, old: Seq<char>) -> (Seq<char>, Map<
    Seq<char>,
    nat,
>) {
    let k = spec_suffix(ctr, old);
    (encode(old, k), ctr.insert(old, spec_bump(k)))
}

/// The newest binding of `id` on the scope stack.
pub open spec fn spec_lookup(scope: Seq<(Seq<char>, Seq<char>)>, id: Seq<char>) -> Option<
    Seq<char>,
>
    decreases scope,
{
    if scope.len() == 0 {
        None
    } else if scope.last().0 == id {
        Some(scope.last().1)
    } else {
        spec_lookup(scope.drop_last(), id)
    }
}

/// Issues fresh names for a list of binders, entering each into scope as it
/// is issued.
pub open spec fn spec_define_all(
    olds: Seq<Seq<char>>,
    ctr: Map<Seq<char>, nat>,
    scope: Seq<(Seq<char>, Seq<char>)>,
) -> (Seq<Seq<char>>, Map<Seq<char>, nat>, Seq<(Seq<char>, Seq<char>)>)
    decreases olds,
{
    if olds.len() == 0 {
        (Seq::empty(), ctr, scope)
    } else {
        let (n1, c1) = spec_gen(ctr, olds.first());
        let scope1 = scope.push((olds.first(), n1));
        let (rest, c2, scope2) = spec_define_all(olds.drop_first(), c1, scope1);
        (seq![n1] + rest, c2, scope2)
    }
}

/// Renaming a whole expression: the renamed tree and the stepped counters,
/// or the first error.  Scoping: a lambda's argument is in scope over its
/// body; a `let`'s value is renamed in the outer scope and its name is in
/// scope over its body only; a `let rec`'s function names must be distinct
/// and are all in scope over every arm body and over its own body, each arm
/// argument over that arm's body only.  `match` patterns are not renamed.
pub open spec fn spec_rename(
    e: ExprV,
    ctr: Map<Seq<char>, nat>,
    scope: Seq<(Seq<char>, Seq<char>)>,
) -> Result<(ExprV, Map<Seq<char>, nat>), NamerErrV>
    decreases e,
{
    match e {
        ExprV::IntLit { .. } => Ok((e, ctr)),
        ExprV::UnitLit { .. } => Ok((e, ctr)),
        ExprV::Builtin { .. } => Ok((e, ctr)),
        ExprV::Nth { idx, sub } => match spec_rename(*sub, ctr, scope) {
            Ok((s2, c1)) => Ok((ExprV::Nth { idx, sub: Box::new(s2) }, c1)),
            Err(k) => Err(k),
        },
        ExprV::VarRef { id } => match spec_lookup(scope, id) {
            Some(new) => Ok((ExprV::VarRef { id: new }, ctr)),
            None => Err(NamerErrV::UnknownVarRef(id)),
        },
        ExprV::Binary { lhs, op, rhs } => match spec_rename(*lhs, ctr, scope) {
            Ok((l2, c1)) => match spec_rename(*rhs, c1, scope) {
                Ok((r2, c2)) => Ok(
                    (ExprV::Binary { lhs: Box::new(l2), op, rhs: Box::new(r2) }, c2),
                ),
                Err(k) => Err(k),
            },
            Err(k) => Err(k),
        },
        ExprV::Unary { op, sub } => match spec_rename(*sub, ctr, scope) {
            Ok((s2, c1)) => Ok((ExprV::Unary { op, sub: Box::new(s2) }, c1)),
            Err(k) => Err(k),
        },
        ExprV::App { fun, arg } => match spec_rename(*fun, ctr, scope) {
            Ok((f2, c1)) => match spec_rename(*arg, c1, scope) {
                Ok((a2, c2)) => Ok((ExprV::App { fun: Box::new(f2), arg: Box::new(a2) }, c2)),
                Err(k) => Err(k),
            },
            Err(k) => Err(k),
        },
        ExprV::Sequence { subs } => match spec_rename_list(subs, ctr, scope) {
            Ok((s2, c1)) => Ok((ExprV::Sequence { subs: s2 }, c1)),
            Err(k) => Err(k),
        },
        ExprV::Tuple { subs } => match spec_rename_list(subs, ctr, scope) {
            Ok((s2, c1)) => Ok((ExprV::Tuple { subs: s2 }, c1)),
            Err(k) => Err(k),
        },
        ExprV::Abs { arg_name, arg_ty, body } => {
            let (new, c1) = spec_gen(ctr, arg_name);
            match spec_rename(*body, c1, scope.push((arg_name, new))) {
                Ok((b2, c2)) => Ok(
                    (ExprV::Abs { arg_name: new, arg_ty, body: Box::new(b2) }, c2),
                ),
                Err(k) => Err(k),
            }
        },
        ExprV::Let { name, ty, val, body } => match spec_rename(*val, ctr, scope) {
            Ok((v2, c1)) => {
                let (new, c2) = spec_gen(c1, name);
                match spec_rename(*body, c2, scope.push((name, new))) {
                    Ok((b2, c3)) => Ok(
                        (
                            ExprV::Let {
                                name: new,
                                ty,
                                val: Box::new(v2),
                                body: Box::new(b2),
                            },
                            c3,
                        ),
                    ),
                    Err(k) => Err(k),
                }
            },
            Err(k) => Err(k),
        },
        ExprV::Ite { cond, tr, fl } => match spec_rename(*cond, ctr, scope) {
            Ok((c2, ct1)) => match spec_rename(*tr, ct1, scope) {
                Ok((t2, ct2)) => match spec_rename(*fl, ct2, scope) {
                    Ok((f2, ct3)) => Ok(
                        (
                            ExprV::Ite {
                                cond: Box::new(c2),
                                tr: Box::new(t2),
                                fl: Box::new(f2),
                            },
                            ct3,
                        ),
                    ),
                    Err(k) => Err(k),
                },
                Err(k) => Err(k),
            },
            Err(k) => Err(k),
        },
        ExprV::LetRec { arms, body } => {
            if !crate::utils::spec_uniq(arm_names(arms)) {
                Err(NamerErrV::DuplicateLetRecFn)
            } else {
                let (news, c1, scope2) = spec_define_all(arm_names(arms), ctr, scope);
                match spec_rename_arms(arms, news, c1, scope2) {
                    Ok((arms2, c2)) => match spec_rename(*body, c2, scope2) {
                        Ok((b2, c3)) => Ok((ExprV::LetRec { arms: arms2, body: Box::new(b2) }, c3)),
                        Err(k) => Err(k),
                    },
                    Err(k) => Err(k),
                }
            }
        },
        ExprV::Match { sub, arms } => match spec_rename(*sub, ctr, scope) {
            Ok((s2, c1)) => match spec_rename_match_arms(arms, c1, scope) {
                Ok((arms2, c2)) => Ok((ExprV::Match { sub: Box::new(s2), arms: arms2 }, c2)),
                Err(k) => Err(k),
            },
            Err(k) => Err(k),
        },
    }
}

/// Renames a list of expressions in order, threading the counters.
pub open spec fn spec_rename_list(
    es: Seq<ExprV>,
    ctr: Map<Seq<char>, nat>,
    scope: Seq<(Seq<char>, Seq<char>)>,
) -> Result<(Seq<ExprV>, Map<Seq<char>, nat>), NamerErrV>
    decreases es,
{
    if es.len() == 0 {
        Ok((Seq::empty(), ctr))
    } else {
        match spec_rename(es.first(), ctr, scope) {
            Ok((e2, c1)) => match spec_rename_list(es.drop_first(), c1, scope) {
                Ok((rest, c2)) => Ok((seq![e2] + rest, c2)),
                Err(k) => Err(k),
            },
            Err(k) => Err(k),
        }
    }
}

/// Renames the arms of a `let rec`: the `k`th arm takes the `k`th already
/// issued function name, gets a fresh argument name in scope over its own
/// body, and its body is renamed under the given scope.
pub open spec fn spec_rename_arms(
    arms: Seq<LetRecArmV>,
    news: Seq<Seq<char>>,
    ctr: Map<Seq<char>, nat>,
    scope: Seq<(Seq<char>, Seq<char>)>,
) -> Result<(Seq<LetRecArmV>, Map<Seq<char>, nat>), NamerErrV>
    decreases arms,
{
    if arms.len() == 0 {
        Ok((Seq::empty(), ctr))
    } else {
        let arm = arms.first();
        let (newarg, c1) = spec_gen(ctr, arm.arg_name);
        match spec_rename(*arm.body, c1, scope.push((arm.arg_name, newarg))) {
            Ok((b2, c2)) => {
                let arm2 = LetRecArmV {
                    fn_name: if news.len() > 0 {
                        news.first()
                    } else {
                        arm.fn_name
                    },
                    fn_ty: arm.fn_ty,
                    arg_name: newarg,
                    arg_ty: arm.arg_ty,
                    body: Box::new(b2),
                };
                let news2 = if news.len() > 0 {
                    news.drop_first()
                } else {
                    news
                };
                match spec_rename_arms(arms.drop_first(), news2, c2, scope) {
                    Ok((rest, c3)) => Ok((seq![arm2] + rest, c3)),
                    Err(k) => Err(k),
                }
            },
            Err(k) => Err(k),
        }
    }
}

/// Renames the results of `match` arms in order; patterns are untouched.
pub open spec fn spec_rename_match_arms(
    arms: Seq<MatchArmV>,
    ctr: Map<Seq<char>, nat>,
    scope: Seq<(Seq<char>, Seq<char>)>,
) -> Result<(Seq<MatchArmV>, Map<Seq<char>, nat>), NamerErrV>
    decreases arms,
{
    if arms.len() == 0 {
        Ok((Seq::empty(), ctr))
    } else {
        match spec_rename(*arms.first().res, ctr, scope) {
            Ok((r2, c1)) => {
                let arm2 = MatchArmV { ptn: arms.first().ptn, res: Box::new(r2) };
                match spec_rename_match_arms(arms.drop_first(), c1, scope) {
                    Ok((rest, c2)) => Ok((seq![arm2] + rest, c2)),
                    Err(k) => Err(k),
                }
            },
            Err(k) => Err(k),
        }
    }
}

/// The counters held by the suffix entries, later entries winning.
spec fn suffix_map(s: Seq<(String, usize)>) -> Map<Seq<char>, nat>
    decreases s.len(),
{
    if s.len() == 0 {
        Map::empty()
    } else {
        suffix_map(s.drop_last()).insert(s.last().0@, s.last().1 as nat)
    }
}

/// The scope pairs, in stack order.
spec fn scope_pairs(s: Seq<(String, String)>) -> Seq<(Seq<char>, Seq<char>)> {
    s.map_values(|p: (String, String)| (p.0@, p.1@))
}

/// The alpha-renaming pass: per-name counters and the binding stack.
pub struct Namer {
    name_suffix: Vec<(String, usize)>,
    old_new_varname: Vec<(String, String)>,
}

/// The last counter entry for a name decides its count.
proof fn lemma_suffix_found(s: Seq<(String, usize)>, i: int)
    requires
        0 <= i < s.len(),
        forall|j: int| i < j < s.len() ==> (#[trigger] s[j]).0@ != s[i].0@,
    ensures
        suffix_map(s).dom().contains(s[i].0@),
        suffix_map(s)[s[i].0@] == s[i].1 as nat,
    decreases s.len(),
{
    if i == s.len() - 1 {
    } else {
        assert(s.drop_last()[i] == s[i]);
        lemma_suffix_found(s.drop_last(), i);
        assert(s.last().0@ != s[i].0@);
    }
}

/// A name no counter entry carries is not counted yet.
proof fn lemma_suffix_absent(s: Seq<(String, usize)>, name: Seq<char>)
    requires
        forall|j: int| 0 <= j < s.len() ==> (#[trigger] s[j]).0@ != name,
    ensures
        !suffix_map(s).dom().contains(name),
    decreases s.len(),
{
    if s.len() > 0 {
        assert(forall|j: int| 0 <= j < s.len() - 1 ==> s.drop_last()[j] == #[trigger] s[j]);
        lemma_suffix_absent(s.drop_last(), name);
    }
}

impl Namer {
    /// The per-name counters.
    pub closed spec fn ctr(&self) -> Map<Seq<char>, nat> {
        suffix_map(self.name_suffix@)
    }

    /// The binding stack, oldest first.
    pub closed spec fn scope(&self) -> Seq<(Seq<char>, Seq<char>)> {
        scope_pairs(self.old_new_varname@)
    }

    /// A fresh renamer: no counters, nothing in scope.
    pub fn new() -> (r: Self)
        ensures
            r.ctr() == Map::<Seq<char>, nat>::empty(),
            r.scope() == Seq::<(Seq<char>, Seq<char>)>::empty(),
    {
        let r = Namer { name_suffix: Vec::new(), old_new_varname: Vec::new() };
        proof {
            assert(r.scope() =~= Seq::<(Seq<char>, Seq<char>)>::empty());
        }
        r
    }

    /// The count `name` is at.
    fn cur_suffix(&self, name: &String) -> (r: usize)
        ensures
            r as nat == spec_suffix(self.ctr(), name@),
    {
        let mut i: usize = self.name_suffix.len();
        while i > 0
            invariant
                0 <= i <= self.name_suffix@.len(),
                forall|j: int|
                    i <= j < self.name_suffix@.len() ==> (#[trigger] self.name_suffix@[j]).0@
                        != name@,
            decreases i,
        {
            if self.name_suffix[i - 1].0 == *name {
                proof {
                    lemma_suffix_found(self.name_suffix@, i - 1);
                }
                return self.name_suffix[i - 1].1;
            }
            i = i - 1;
        }
        proof {
            lemma_suffix_absent(self.name_suffix@, name@);
        }
        0
    }

    /// Issues the fresh name `_<name>@<k>` and steps the counter of `name`.
    pub fn gen_name(&mut self, name: &String) -> (r: String)
        ensures
            r@ == encode(name@, spec_suffix(old(self).ctr(), name@)),
            final(self).ctr() == spec_gen(old(self).ctr(), name@).1,
            final(self).scope() == old(self).scope(),
    {
        let k = self.cur_suffix(name);
        let bumped: usize = if k == usize::MAX {
            k
        } else {
            k + 1
        };
        self.name_suffix.push((name.clone(), bumped));
        proof {
            assert(self.name_suffix@.drop_last() =~= old(self).name_suffix@);
        }
        let mut cs: Vec<char> = Vec::new();
        cs.push('_');
        let mut namecs = string_to_chars(name.as_str());
        cs.append(&mut namecs);
        cs.push('@');
        let mut digits = crate::num::u64_to_dec(k as u64);
        cs.append(&mut digits);
        proof {
            assert(cs@ =~= encode(name@, k as nat));
        }
        chars_to_string(&cs)
    }

    /// Issues a fresh name for `old` and enters the binding into scope.
    pub fn define_var(&mut self, old_name: &String) -> (r: String)
        ensures
            r@ == encode(old_name@, spec_suffix(old(self).ctr(), old_name@)),
            final(self).ctr() == spec_gen(old(self).ctr(), old_name@).1,
            final(self).scope() == old(self).scope().push((old_name@, r@)),
    {
        let new = self.gen_name(old_name);
        self.old_new_varname.push((old_name.clone(), new.clone()));
        proof {
            assert(self.scope() =~= old(self).scope().push((old_name@, new@)));
        }
        new
    }

    /// Leaves the most recent binding, which must rename to `new`.
    pub fn undefine_var(&mut self, new: &String)
        requires
            old(self).scope().len() > 0,
            old(self).scope().last().1 == new@,
        ensures
            final(self).scope() == old(self).scope().drop_last(),
            final(self).ctr() == old(self).ctr(),
    {
        let _ = self.old_new_varname.pop();
        proof {
            assert(self.scope() =~= old(self).scope().drop_last());
        }
    }

    /// Looks the newest binding of `id` up.
    fn lookup(&self, id: &String) -> (r: Option<String>)
        ensures
            match r {
                Some(new) => spec_lookup(self.scope(), id@) == Some(new@),
                None => spec_lookup(self.scope(), id@) is None,
            },
    {
        let ghost sc = self.scope();
        let mut i: usize = self.old_new_varname.len();
        proof {
            assert(sc.take(i as int) =~= sc);
        }
        while i > 0
            invariant
                0 <= i <= self.old_new_varname@.len(),
                sc == self.scope(),
                sc.len() == self.old_new_varname@.len(),
                forall|j: int| 0 <= j < sc.len() ==> #[trigger] sc[j] == (
                    self.old_new_varname@[j].0@,
                    self.old_new_varname@[j].1@,
                ),
                spec_lookup(sc, id@) == spec_lookup(sc.take(i as int), id@),
            decreases i,
        {
            proof {
                assert(sc.take(i as int).last() == sc[i - 1]);
                assert(sc.take(i as int).drop_last() =~= sc.take(i - 1));
            }
            if self.old_new_varname[i - 1].0 == *id {
                return Some(self.old_new_varname[i - 1].1.clone());
            }
            i = i - 1;
        }
        proof {
            assert(sc.take(0) =~= Seq::<(Seq<char>, Seq<char>)>::empty());
        }
        None
    }
}

/// Entering a list of binders appends their pairs to the scope in order.
proof fn lemma_define_all_scope(
    olds: Seq<Seq<char>>,
    ctr: Map<Seq<char>, nat>,
    scope: Seq<(Seq<char>, Seq<char>)>,
)
    ensures
        ({
            let (news, c2, scope2) = spec_define_all(olds, ctr, scope);
            &&& news.len() == olds.len()
            &&& scope2.len() == scope.len() + olds.len()
            &&& forall|q: int| 0 <= q < scope.len() ==> #[trigger] scope2[q] == scope[q]
            &&& forall|q: int|
                0 <= q < olds.len() ==> #[trigger] scope2[scope.len() + q] == (olds[q], news[q])
        }),
    decreases olds,
{
    if olds.len() > 0 {
        let (n1, c1) = spec_gen(ctr, olds.first());
        let scope1 = scope.push((olds.first(), n1));
        lemma_define_all_scope(olds.drop_first(), c1, scope1);
        let (news, c2, scope2) = spec_define_all(olds, ctr, scope);
        assert(news == seq![n1] + spec_define_all(olds.drop_first(), c1, scope1).0);
        assert forall|q: int| 0 <= q < olds.len() implies #[trigger] scope2[scope.len() + q] == (
        olds[q],
        news[q],
        ) by {
            if q == 0 {
                assert(scope2[scope.len() as int] == scope1[scope.len() as int]);
            } else {
                assert(scope2[scope1.len() + (q - 1)] == (
                    olds.drop_first()[q - 1],
                    spec_define_all(olds.drop_first(), c1, scope1).0[q - 1],
                ));
            }
        }
    }
}

impl Namer {
    /// Renames an expression under the current counters and scope, exactly
    /// as `spec_rename` says; the scope is left as it was on success.
    #[verifier::rlimit(100)]
    fn rename_expr(&mut self, e: &Expr) -> (r: Result<Expr, NamerErrKind>)
        ensures
            match spec_rename(e@, old(self).ctr(), old(self).scope()) {
                Ok(done) => {
                    &&& r matches Ok(out) && out@ == done.0
                    &&& final(self).ctr() == done.1
                    &&& final(self).scope() == old(self).scope()
                },
                Err(k) => r matches Err(ek) && ek@ == k,
            },
        decreases *e,
    {
        let ghost ctr0 = self.ctr();
        let ghost scope0 = self.scope();
        match e {
            Expr::IntLit { val } => Ok(Expr::IntLit { val: *val }),
            Expr::UnitLit {} => Ok(Expr::UnitLit {}),
            Expr::Builtin { op } => Ok(Expr::Builtin { op: *op }),
            Expr::VarRef { id } => match self.lookup(id) {
                Some(new) => Ok(Expr::VarRef { id: new }),
                None => Err(NamerErrKind::UnknownVarRef { id: id.clone() }),
            },
            Expr::Nth { idx, sub } => {
                let s2 = self.rename_expr(sub)?;
                Ok(Expr::Nth { idx: *idx, sub: Box::new(s2) })
            },
            Expr::Unary { op, sub } => {
                let s2 = self.rename_expr(sub)?;
                Ok(Expr::Unary { op: *op, sub: Box::new(s2) })
            },
            Expr::Binary { lhs, op, rhs } => {
                let l2 = self.rename_expr(lhs)?;
                let r2 = self.rename_expr(rhs)?;
                Ok(Expr::Binary { lhs: Box::new(l2), op: *op, rhs: Box::new(r2) })
            },
            Expr::App { fun, arg } => {
                let f2 = self.rename_expr(fun)?;
                let a2 = self.rename_expr(arg)?;
                Ok(Expr::App { fun: Box::new(f2), arg: Box::new(a2) })
            },
            Expr::Sequence { subs } => {
                let s2 = self.rename_list(subs)?;
                Ok(Expr::Sequence { subs: s2 })
            },
            Expr::Tuple { subs } => {
                let s2 = self.rename_list(subs)?;
                Ok(Expr::Tuple { subs: s2 })
            },
            Expr::Abs { arg_name, arg_ty, body } => {
                let new = self.define_var(arg_name);
                let b2 = self.rename_expr(body)?;
                self.undefine_var(&new);
                proof {
                    assert(self.scope() =~= scope0);
                }
                Ok(Expr::Abs { arg_name: new, arg_ty: arg_ty.clone(), body: Box::new(b2) })
            },
            Expr::Let { name, ty, val, body } => {
                let v2 = self.rename_expr(val)?;
                let new = self.define_var(name);
                let b2 = self.rename_expr(body)?;
                self.undefine_var(&new);
                proof {
                    assert(self.scope() =~= scope0);
                }
                Ok(
                    Expr::Let {
                        name: new,
                        ty: ty.clone(),
                        val: Box::new(v2),
                        body: Box::new(b2),
                    },
                )
            },
            Expr::Ite { cond, tr, fl } => {
                let c2 = self.rename_expr(cond)?;
                let t2 = self.rename_expr(tr)?;
                let f2 = self.rename_expr(fl)?;
                Ok(Expr::Ite { cond: Box::new(c2), tr: Box::new(t2), fl: Box::new(f2) })
            },
            Expr::LetRec { arms, body } => {
                let ghost am = crate::ast::letrecarm_models(arms@);
                let mut names: Vec<String> = Vec::new();
                let mut k: usize = 0;
                proof {
                    crate::ast::lemma_letrecarm_models(arms@);
                    crate::debrujin::lemma_arm_names(am);
                }
                while k < arms.len()
                    invariant
                        0 <= k <= arms@.len(),
                        am == crate::ast::letrecarm_models(arms@),
                        am.len() == arms@.len(),
                        forall|q: int| 0 <= q < arms@.len() ==> #[trigger] am[q]
                            == arms@[q].model(),
                        arm_names(am).len() == am.len(),
                        forall|q: int| 0 <= q < am.len() ==> #[trigger] arm_names(am)[q]
                            == am[q].fn_name,
                        names@.len() == k,
                        forall|q: int| 0 <= q < k ==> (#[trigger] names@[q])@ == arm_names(am)[q],
                    decreases arms@.len() - k,
                {
                    names.push(arms[k].fn_name.clone());
                    k = k + 1;
                }
                proof {
                    crate::utils::lemma_string_views(names@);
                    assert(string_views(names@) =~= arm_names(am));
                }
                if !crate::utils::uniq(&names) {
                    return Err(NamerErrKind::DuplicateLetRecFn {});
                }
                // enter every function name into scope
                let ghost nv = arm_names(am);
                let mut news: Vec<String> = Vec::new();
                let mut k2: usize = 0;
                proof {
                    assert(nv.skip(0) =~= nv);
                }
                while k2 < names.len()
                    invariant
                        0 <= k2 <= names@.len(),
                        names@.len() == nv.len(),
                        forall|q: int| 0 <= q < nv.len() ==> (#[trigger] names@[q])@ == nv[q],
                        ctr0 == old(self).ctr(),
                        scope0 == old(self).scope(),
                        news@.len() == k2,
                        ({
                            let (rest, cf, scf) = spec_define_all(
                                nv.skip(k2 as int),
                                self.ctr(),
                                self.scope(),
                            );
                            &&& spec_define_all(nv, ctr0, scope0).0 == string_views(news@) + rest
                            &&& spec_define_all(nv, ctr0, scope0).1 == cf
                            &&& spec_define_all(nv, ctr0, scope0).2 == scf
                        }),
                    decreases names@.len() - k2,
                {
                    proof {
                        assert(nv.skip(k2 as int).first() == nv[k2 as int]);
                        assert(nv.skip(k2 as int).drop_first() =~= nv.skip(k2 + 1));
                    }
                    let ghost news0 = news@;
                    let n = self.define_var(&names[k2]);
                    news.push(n);
                    proof {
                        crate::utils::lemma_string_views(news@);
                        crate::utils::lemma_string_views(news0);
                        assert(string_views(news@) =~= string_views(news0).push(
                            news@[k2 as int]@,
                        ));
                        assert(string_views(news0) + (seq![news@[k2 as int]@]
                            + spec_define_all(nv.skip(k2 + 1), self.ctr(), self.scope()).0)
                            =~= string_views(news@) + spec_define_all(
                            nv.skip(k2 + 1),
                            self.ctr(),
                            self.scope(),
                        ).0);
                    }
                    k2 = k2 + 1;
                }
                proof {
                    assert(nv.skip(names@.len() as int) =~= Seq::<Seq<char>>::empty());
                    assert(string_views(news@) + Seq::<Seq<char>>::empty() =~= string_views(
                        news@,
                    ));
                    crate::utils::lemma_string_views(news@);
                }
                let ghost news_v = string_views(news@);
                let ghost c_defined = self.ctr();
                let ghost scope2 = self.scope();
                // rename the arm bodies
                let arms2 = self.rename_arms(arms, &news)?;
                // rename the body of the whole group
                let b2 = self.rename_expr(body)?;
                // leave the function names, newest first
                proof {
                    lemma_define_all_scope(nv, ctr0, scope0);
                    assert(scope2.take(scope0.len() as int) =~= scope0);
                }
                let ghost c_done = self.ctr();
                let mut m: usize = news.len();
                while m > 0
                    invariant
                        0 <= m <= news@.len(),
                        news_v == string_views(news@),
                        news_v.len() == news@.len(),
                        forall|q: int| 0 <= q < news@.len() ==> (#[trigger] news@[q])@
                            == news_v[q],
                        scope0 == old(self).scope(),
                        nv.len() == news@.len(),
                        scope2.len() == scope0.len() + nv.len(),
                        forall|q: int| 0 <= q < scope0.len() ==> #[trigger] scope2[q]
                            == scope0[q],
                        forall|q: int| 0 <= q < nv.len() ==> #[trigger] scope2[scope0.len() + q]
                            == (nv[q], news_v[q]),
                        self.scope() == scope2.take(scope0.len() + m),
                        self.ctr() == c_done,
                    decreases m,
                {
                    proof {
                        assert(self.scope().last() == scope2[scope0.len() + (m - 1)]);
                        assert(self.scope().drop_last() =~= scope2.take(scope0.len() + (m - 1)));
                    }
                    self.undefine_var(&news[m - 1]);
                    m = m - 1;
                }
                proof {
                    assert(self.scope() =~= scope0);
                }
                Ok(Expr::LetRec { arms: arms2, body: Box::new(b2) })
            },
            Expr::Match { sub, arms } => {
                let s2 = self.rename_expr(sub)?;
                let arms2 = self.rename_match_arms(arms)?;
                Ok(Expr::Match { sub: Box::new(s2), arms: arms2 })
            },
        }
    }
}

impl Namer {
    /// Renames a list of expressions in order.
    fn rename_list(&mut self, subs: &Vec<Expr>) -> (r: Result<Vec<Expr>, NamerErrKind>)
        ensures
            match spec_rename_list(
                crate::ast::expr_models(subs@),
                old(self).ctr(),
                old(self).scope(),
            ) {
                Ok(done) => {
                    &&& r matches Ok(out) && crate::ast::expr_models(out@) == done.0
                    &&& final(self).ctr() == done.1
                    &&& final(self).scope() == old(self).scope()
                },
                Err(k) => r matches Err(ek) && ek@ == k,
            },
        decreases subs@,
    {
        let ghost sm = crate::ast::expr_models(subs@);
        let ghost ctr0 = self.ctr();
        let ghost scope0 = self.scope();
        let mut out: Vec<Expr> = Vec::new();
        let mut i: usize = 0;
        proof {
            crate::ast::lemma_expr_models(subs@);
            assert(sm.skip(0) =~= sm);
        }
        while i < subs.len()
            invariant
                0 <= i <= subs@.len(),
                sm == crate::ast::expr_models(subs@),
                sm.len() == subs@.len(),
                forall|q: int| 0 <= q < subs@.len() ==> #[trigger] sm[q] == subs@[q].model(),
                ctr0 == old(self).ctr(),
                scope0 == old(self).scope(),
                scope0 == self.scope(),
                out@.len() == i,
                ({
                    match spec_rename_list(sm.skip(i as int), self.ctr(), scope0) {
                        Ok(done) => spec_rename_list(sm, ctr0, scope0) matches Ok(total)
                            && total.0 == crate::ast::expr_models(out@) + done.0 && total.1
                            == done.1,
                        Err(k) => spec_rename_list(sm, ctr0, scope0) == Err::<
                            (Seq<ExprV>, Map<Seq<char>, nat>),
                            NamerErrV,
                        >(k),
                    }
                }),
            decreases subs@.len() - i,
        {
            proof {
                assert(decreases_to!(subs@ => subs@[i as int]));
                assert(sm.skip(i as int).first() == sm[i as int]);
                assert(sm.skip(i as int).drop_first() =~= sm.skip(i + 1));
                crate::ast::lemma_expr_models(out@);
            }
            let ghost out0 = out@;
            match self.rename_expr(&subs[i]) {
                Ok(e2) => {
                    out.push(e2);
                    proof {
                        assert(out@.drop_last() =~= out0);
                        assert(crate::ast::expr_models(out@) =~= crate::ast::expr_models(
                            out0,
                        ).push(out@.last().model()));
                        match spec_rename_list(sm.skip(i + 1), self.ctr(), scope0) {
                            Ok(done2) => {
                                assert(crate::ast::expr_models(out0) + (seq![
                                    out@.last().model(),
                                ] + done2.0) =~= crate::ast::expr_models(out@) + done2.0);
                            },
                            Err(_) => {},
                        }
                    }
                },
                Err(ek) => {
                    return Err(ek);
                },
            }
            i = i + 1;
        }
        proof {
            assert(sm.skip(subs@.len() as int) =~= Seq::<ExprV>::empty());
            assert(crate::ast::expr_models(out@) + Seq::<ExprV>::empty()
                =~= crate::ast::expr_models(out@));
        }
        Ok(out)
    }

    /// Renames the arms of a `let rec`, pairing each with its issued name.
    fn rename_arms(&mut self, arms: &Vec<LetRecArm>, news: &Vec<String>) -> (r: Result<
        Vec<LetRecArm>,
        NamerErrKind,
    >)
        requires
            news@.len() == arms@.len(),
        ensures
            match spec_rename_arms(
                crate::ast::letrecarm_models(arms@),
                string_views(news@),
                old(self).ctr(),
                old(self).scope(),
            ) {
                Ok(done) => {
                    &&& r matches Ok(out) && crate::ast::letrecarm_models(out@) == done.0
                    &&& final(self).ctr() == done.1
                    &&& final(self).scope() == old(self).scope()
                },
                Err(k) => r matches Err(ek) && ek@ == k,
            },
        decreases arms@,
    {
        let ghost am = crate::ast::letrecarm_models(arms@);
        let ghost nv = string_views(news@);
        let ghost ctr0 = self.ctr();
        let ghost scope0 = self.scope();
        let mut out: Vec<LetRecArm> = Vec::new();
        let mut i: usize = 0;
        proof {
            crate::ast::lemma_letrecarm_models(arms@);
            crate::utils::lemma_string_views(news@);
            assert(am.skip(0) =~= am);
            assert(nv.skip(0) =~= nv);
        }
        while i < arms.len()
            invariant
                0 <= i <= arms@.len(),
                am == crate::ast::letrecarm_models(arms@),
                nv == string_views(news@),
                am.len() == arms@.len(),
                nv.len() == news@.len(),
                nv.len() == am.len(),
                forall|q: int| 0 <= q < arms@.len() ==> #[trigger] am[q] == arms@[q].model(),
                forall|q: int| 0 <= q < news@.len() ==> (#[trigger] news@[q])@ == nv[q],
                ctr0 == old(self).ctr(),
                scope0 == old(self).scope(),
                scope0 == self.scope(),
                out@.len() == i,
                ({
                    match spec_rename_arms(am.skip(i as int), nv.skip(i as int), self.ctr(), scope0) {
                        Ok(done) => spec_rename_arms(am, nv, ctr0, scope0) matches Ok(total)
                            && total.0 == crate::ast::letrecarm_models(out@) + done.0 && total.1
                            == done.1,
                        Err(k) => spec_rename_arms(am, nv, ctr0, scope0) == Err::<
                            (Seq<LetRecArmV>, Map<Seq<char>, nat>),
                            NamerErrV,
                        >(k),
                    }
                }),
            decreases arms@.len() - i,
        {
            proof {
                assert(decreases_to!(arms@ => arms@[i as int]));
                assert(decreases_to!(arms@[i as int] => arms@[i as int].body));
                assert(am.skip(i as int).first() == am[i as int]);
                assert(am.skip(i as int).drop_first() =~= am.skip(i + 1));
                assert(nv.skip(i as int).first() == nv[i as int]);
                assert(nv.skip(i as int).len() > 0);
                assert(nv.skip(i as int).drop_first() =~= nv.skip(i + 1));
                crate::ast::lemma_letrecarm_models(out@);
            }
            let newarg = self.define_var(&arms[i].arg_name);
            let rc = self.rename_expr(&arms[i].body);
            match rc {
                Ok(b2) => {
                    self.undefine_var(&newarg);
                    proof {
                        assert(self.scope() =~= scope0);
                    }
                    let fn2: String = if i < news.len() {
                        news[i].clone()
                    } else {
                        arms[i].fn_name.clone()
                    };
                    let arm2 = LetRecArm {
                        fn_name: fn2,
                        fn_ty: arms[i].fn_ty.clone(),
                        arg_name: newarg,
                        arg_ty: arms[i].arg_ty.clone(),
                        body: Box::new(b2),
                    };
                    let ghost out0 = out@;
                    let ghost arm2g = arm2;
                    out.push(arm2);
                    proof {
                        assert(out@.drop_last() =~= out0);
                        assert(crate::ast::letrecarm_models(out@)
                            =~= crate::ast::letrecarm_models(out0).push(arm2g.model()));
                        match spec_rename_arms(am.skip(i + 1), nv.skip(i + 1), self.ctr(), scope0) {
                            Ok(done2) => {
                                assert(crate::ast::letrecarm_models(out0) + (seq![arm2g.model()]
                                    + done2.0) =~= crate::ast::letrecarm_models(out@) + done2.0);
                            },
                            Err(_) => {},
                        }
                    }
                },
                Err(ek) => {
                    return Err(ek);
                },
            }
            i = i + 1;
        }
        proof {
            assert(am.skip(arms@.len() as int) =~= Seq::<LetRecArmV>::empty());
            assert(crate::ast::letrecarm_models(out@) + Seq::<LetRecArmV>::empty()
                =~= crate::ast::letrecarm_models(out@));
        }
        Ok(out)
    }

    /// Renames the results of `match` arms in order; patterns are copied.
    fn rename_match_arms(&mut self, arms: &Vec<crate::ast::MatchArm>) -> (r: Result<
        Vec<crate::ast::MatchArm>,
        NamerErrKind,
    >)
        ensures
            match spec_rename_match_arms(
                crate::ast::matcharm_models(arms@),
                old(self).ctr(),
                old(self).scope(),
            ) {
                Ok(done) => {
                    &&& r matches Ok(out) && crate::ast::matcharm_models(out@) == done.0
                    &&& final(self).ctr() == done.1
                    &&& final(self).scope() == old(self).scope()
                },
                Err(k) => r matches Err(ek) && ek@ == k,
            },
        decreases arms@,
    {
        let ghost am = crate::ast::matcharm_models(arms@);
        let ghost ctr0 = self.ctr();
        let ghost scope0 = self.scope();
        let mut out: Vec<crate::ast::MatchArm> = Vec::new();
        let mut i: usize = 0;
        proof {
            crate::ast::lemma_matcharm_models(arms@);
            assert(am.skip(0) =~= am);
        }
        while i < arms.len()
            invariant
                0 <= i <= arms@.len(),
                am == crate::ast::matcharm_models(arms@),
                am.len() == arms@.len(),
                forall|q: int| 0 <= q < arms@.len() ==> #[trigger] am[q] == arms@[q].model(),
                ctr0 == old(self).ctr(),
                scope0 == old(self).scope(),
                scope0 == self.scope(),
                out@.len() == i,
                ({
                    match spec_rename_match_arms(am.skip(i as int), self.ctr(), scope0) {
                        Ok(done) => spec_rename_match_arms(am, ctr0, scope0) matches Ok(total)
                            && total.0 == crate::ast::matcharm_models(out@) + done.0 && total.1
                            == done.1,
                        Err(k) => spec_rename_match_arms(am, ctr0, scope0) == Err::<
                            (Seq<MatchArmV>, Map<Seq<char>, nat>),
                            NamerErrV,
                        >(k),
                    }
                }),
            decreases arms@.len() - i,
        {
            proof {
                assert(decreases_to!(arms@ => arms@[i as int]));
                assert(decreases_to!(arms@[i as int] => arms@[i as int].res));
                assert(am.skip(i as int).first() == am[i as int]);
                assert(am.skip(i as int).drop_first() =~= am.skip(i + 1));
                crate::ast::lemma_matcharm_models(out@);
            }
            let rc = self.rename_expr(&arms[i].res);
            match rc {
                Ok(r2) => {
                    let arm2 = crate::ast::MatchArm { ptn: arms[i].ptn.clone(), res: r2 };
                    let ghost out0 = out@;
                    let ghost arm2g = arm2;
                    out.push(arm2);
                    proof {
                        assert(out@.drop_last() =~= out0);
                        assert(crate::ast::matcharm_models(out@) =~= crate::ast::matcharm_models(
                            out0,
                        ).push(arm2g.model()));
                        match spec_rename_match_arms(am.skip(i + 1), self.ctr(), scope0) {
                            Ok(done2) => {
                                assert(crate::ast::matcharm_models(out0) + (seq![arm2g.model()]
                                    + done2.0) =~= crate::ast::matcharm_models(out@) + done2.0);
                            },
                            Err(_) => {},
                        }
                    }
                },
                Err(ek) => {
                    return Err(ek);
                },
            }
            i = i + 1;
        }
        proof {
            assert(am.skip(arms@.len() as int) =~= Seq::<MatchArmV>::empty());
            assert(crate::ast::matcharm_models(out@) + Seq::<MatchArmV>::empty()
                =~= crate::ast::matcharm_models(out@));
        }
        Ok(out)
    }

    /// Rewrites the expression in place, exactly as `spec_rename` says under
    /// the current counters and scope; on an error the tree, the counters
    /// and the binding stack are all left as they were.
    pub fn visit(&mut self, e: &mut Expr) -> (r: Result<(), NamerErrKind>)
        ensures
            match spec_rename(old(e)@, old(self).ctr(), old(self).scope()) {
                Ok(done) => {
                    &&& r is Ok
                    &&& final(e)@ == done.0
                    &&& final(self).ctr() == done.1
                    &&& final(self).scope() == old(self).scope()
                },
                Err(k) => {
                    &&& r matches Err(ek) && ek@ == k
                    &&& *final(e) == *old(e)
                    &&& final(self).ctr() == old(self).ctr()
                    &&& final(self).scope() == old(self).scope()
                },
            },
    {
        let saved_suffixes = dup_suffixes(&self.name_suffix);
        let saved_scope = dup_scope_pairs(&self.old_new_varname);
        match self.rename_expr(e) {
            Ok(out) => {
                *e = out;
                Ok(())
            },
            Err(ek) => {
                self.name_suffix = saved_suffixes;
                self.old_new_varname = saved_scope;
                Err(ek)
            },
        }
    }
}

/// Copies the counter entries.
fn dup_suffixes(v: &Vec<(String, usize)>) -> (r: Vec<(String, usize)>)
    ensures
        r@ == v@,
{
    let mut r: Vec<(String, usize)> = Vec::new();
    let mut i: usize = 0;
    while i < v.len()
        invariant
            0 <= i <= v@.len(),
            r@ == v@.subrange(0, i as int),
        decreases v@.len() - i,
    {
        r.push((v[i].0.clone(), v[i].1));
        proof {
            assert(r@ =~= v@.subrange(0, i + 1));
        }
        i = i + 1;
    }
    proof {
        assert(v@.subrange(0, v@.len() as int) =~= v@);
    }
    r
}

/// Copies the binding-stack entries.
fn dup_scope_pairs(v: &Vec<(String, String)>) -> (r: Vec<(String, String)>)
    ensures
        r@ == v@,
{
    let mut r: Vec<(String, String)> = Vec::new();
    let mut i: usize = 0;
    while i < v.len()
        invariant
            0 <= i <= v@.len(),
            r@ == v@.subrange(0, i as int),
        decreases v@.len() - i,
    {
        r.push((v[i].0.clone(), v[i].1.clone()));
        proof {
            assert(r@ =~= v@.subrange(0, i + 1));
        }
        i = i + 1;
    }
    proof {
        assert(v@.subrange(0, v@.len() as int) =~= v@);
    }
    r
}

/// An issued name pins down the binder and the count it was issued at: for
/// original names free of the separator, `_<old>@<k>` is injective in
/// `(old, k)`.  Together with `gen_name`'s contract — each issue uses the
/// current count and steps it — this is why renaming gives every binder
/// position a name that appears at no other binder position: two issues for
/// the same original name carry different counts, and two different original
/// names can never print alike.
pub proof fn lemma_encode_injective(o1: Seq<char>, k1: nat, o2: Seq<char>, k2: nat)
    requires
        !o1.contains('@'),
        !o2.contains('@'),
        encode(o1, k1) == encode(o2, k2),
    ensures
        o1 == o2,
        k1 == k2,
{
    let s1 = encode(o1, k1);
    let s2 = encode(o2, k2);
    crate::num::lemma_dec_of_digits(k1);
    crate::num::lemma_dec_of_digits(k2);
    crate::num::lemma_dec_of_no_char(k1, '@');
    crate::num::lemma_dec_of_no_char(k2, '@');
    assert(s1.len() == 2 + o1.len() + dec_of(k1).len());
    assert(s1[1 + o1.len() as int] == '@');
    assert(s2[1 + o2.len() as int] == '@');
    assert forall|i: int| 0 <= i < o1.len() implies #[trigger] s1[1 + i] != '@' by {
        assert(s1[1 + i] == o1[i]);
        assert(!o1.contains('@'));
        if o1[i] == '@' {
            assert(o1.contains('@'));
        }
    }
    assert forall|i: int| 0 <= i < o2.len() implies #[trigger] s2[1 + i] != '@' by {
        assert(s2[1 + i] == o2[i]);
        if o2[i] == '@' {
            assert(o2.contains('@'));
        }
    }
    assert forall|i: int| 2 + o1.len() <= i < s1.len() implies #[trigger] s1[i] != '@' by {
        assert(s1[i] == dec_of(k1)[i - 2 - o1.len()]);
        if dec_of(k1)[i - 2 - o1.len()] == '@' {
            assert(dec_of(k1).contains('@'));
        }
    }
    assert forall|i: int| 2 + o2.len() <= i < s2.len() implies #[trigger] s2[i] != '@' by {
        assert(s2[i] == dec_of(k2)[i - 2 - o2.len()]);
        if dec_of(k2)[i - 2 - o2.len()] == '@' {
            assert(dec_of(k2).contains('@'));
        }
    }
    if o1.len() < o2.len() {
        let i: int = 1 + o1.len() as int;
        assert(s1[i] == '@');
        assert(s2[i] != '@');
        assert(false);
    }
    if o2.len() < o1.len() {
        let i: int = 1 + o2.len() as int;
        assert(s2[i] == '@');
        assert(s1[i] != '@');
        assert(false);
    }
    assert(o1.len() == o2.len());
    assert forall|i: int| 0 <= i < o1.len() implies #[trigger] o1[i] == o2[i] by {
        assert(s1[1 + i] == o1[i]);
        assert(s2[1 + i] == o2[i]);
    }
    assert(o1 =~= o2);
    assert(dec_of(k1).len() == dec_of(k2).len());
    assert forall|i: int| 0 <= i < dec_of(k1).len() implies #[trigger] dec_of(k1)[i] == dec_of(k2)[i] by {
        assert(s1[2 + o1.len() as int + i] == dec_of(k1)[i]);
        assert(s2[2 + o2.len() as int + i] == dec_of(k2)[i]);
    }
    assert(dec_of(k1) =~= dec_of(k2));
    crate::num::lemma_dec_of_injective(k1, k2);
}

/// Distinct issues give distinct names: for original names free of the
/// separator, different `(old, count)` pairs never print alike.
pub proof fn lemma_fresh_names_distinct(o1: Seq<char>, k1: nat, o2: Seq<char>, k2: nat)
    requires
        !o1.contains('@'),
        !o2.contains('@'),
        o1 != o2 || k1 != k2,
    ensures
        encode(o1, k1) != encode(o2, k2),
{
    if encode(o1, k1) == encode(o2, k2) {
        lemma_encode_injective(o1, k1, o2, k2);
    }
}

} // verus!
