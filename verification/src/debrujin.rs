//! The de Bruijn resolution pass.
//!
//! The resolver keeps a stack of frames, each a single binder or a
//! mutual-recursion bundle, and annotates every variable reference with the
//! pair of its frame position and, for bundles, its position inside the
//! bundle.  Annotations are keyed by the reference's index in traversal
//! order and stored in a [`NodeInfo`] side table.  The whole pass is pinned
//! by the spec-level function [`spec_resolve_expr`].

use vstd::prelude::*;

use crate::ast::{Expr, ExprV, LetRecArm, LetRecArmV, MatchArmV};
use crate::node_id::{NodeId, NodeInfo};

verus! {

/// A resolved variable reference: `Var(i)` names the binder of frame `i`,
/// `Rec(i, j)` the `j`th function of the bundle of frame `i`; frame `0` is
/// the most recent.
#[derive(Debug, Clone, Copy, PartialEq, Eq, Structural)]
pub enum DeBrujinIdx {
    Var(usize),
    Rec(usize, usize),
}

/// One frame of the resolver's stack.
enum VarBundle {
    Var(String),
    Rec(Vec<String>),
}

/// Spec-level mirror of `VarBundle`.
pub enum VarBundleV {
    Var(Seq<char>),
    Rec(Seq<Seq<char>>),
}

impl VarBundle {
    /// The mathematical value of this frame.
    spec fn model(&self) -> VarBundleV {
        match self {
            VarBundle::Var(v) => VarBundleV::Var(v@),
            VarBundle::Rec(vs) => VarBundleV::Rec(crate::utils::string_views(vs@)),
        }
    }
}

/// The annotations of a resolved program.
pub type DeBrujinInfo = NodeInfo<DeBrujinIdx>;

/// The de Bruijn resolver: the frame stack and the annotations so far.
pub struct DeBrujin {
    vars: Vec<VarBundle>,
    info: DeBrujinInfo,
    next_id: usize,
}

/// The models of the frames, most recent first.
spec fn bundle_models(s: Seq<VarBundle>) -> Seq<VarBundleV> {
    s.map_values(|b: VarBundle| b.model()).reverse()
}

/// The first position in `vs`, from `j` on, whose name is `id`.
pub open spec fn pos_from(vs: Seq<Seq<char>>, id: Seq<char>, j: int) -> Option<int>
    decreases vs.len() - j,
{
    if j < 0 || j >= vs.len() {
        None
    } else if vs[j] == id {
        Some(j)
    } else {
        pos_from(vs, id, j + 1)
    }
}

/// Resolution of `id` against the frames, scanning from position `i`.
pub open spec fn resolve_from(frames: Seq<VarBundleV>, id: Seq<char>, i: int) -> Option<
    DeBrujinIdx,
>
    decreases frames.len() - i,
{
    if i < 0 || i >= frames.len() {
        None
    } else {
        match frames[i] {
            VarBundleV::Var(v) => if v == id {
                Some(DeBrujinIdx::Var(i as usize))
            } else {
                resolve_from(frames, id, i + 1)
            },
            VarBundleV::Rec(vs) => match pos_from(vs, id, 0) {
                Some(j) => Some(DeBrujinIdx::Rec(i as usize, j as usize)),
                None => resolve_from(frames, id, i + 1),
            },
        }
    }
}

/// Resolution of `id` against the frames: the first frame that binds it.
pub open spec fn spec_resolve(frames: Seq<VarBundleV>, id: Seq<char>) -> Option<DeBrujinIdx> {
    resolve_from(frames, id, 0)
}

/// The number of variable references an expression holds, in the traversal
/// order of the resolver (patterns and `Lit` patterns are not traversed).
pub open spec fn varref_count(e: ExprV) -> nat
    decreases e,
{
    match e {
        ExprV::IntLit { .. } => 0,
        ExprV::UnitLit { .. } => 0,
        ExprV::Binary { lhs, rhs, .. } => varref_count(*lhs) + varref_count(*rhs),
        ExprV::Unary { sub, .. } => varref_count(*sub),
        ExprV::VarRef { .. } => 1,
        ExprV::Builtin { .. } => 0,
        ExprV::App { fun, arg } => varref_count(*fun) + varref_count(*arg),
        ExprV::Sequence { subs } => varref_count_list(subs),
        ExprV::Abs { body, .. } => varref_count(*body),
        ExprV::Let { val, body, .. } => varref_count(*val) + varref_count(*body),
        ExprV::Tuple { subs } => varref_count_list(subs),
        ExprV::Nth { sub, .. } => varref_count(*sub),
        ExprV::Ite { cond, tr, fl } => varref_count(*cond) + varref_count(*tr) + varref_count(*fl),
        ExprV::LetRec { arms, body } => varref_count_arms(arms) + varref_count(*body),
        ExprV::Match { sub, arms } => varref_count(*sub) + varref_count_match_arms(arms),
    }
}

/// The number of variable references in a list of expressions.
pub open spec fn varref_count_list(es: Seq<ExprV>) -> nat
    decreases es,
{
    if es.len() == 0 {
        0
    } else {
        varref_count(es.first()) + varref_count_list(es.drop_first())
    }
}

/// The number of variable references in the bodies of `let rec` arms.
pub open spec fn varref_count_arms(arms: Seq<LetRecArmV>) -> nat
    decreases arms,
{
    if arms.len() == 0 {
        0
    } else {
        varref_count(*arms.first().body) + varref_count_arms(arms.drop_first())
    }
}

/// The number of variable references in the results of `match` arms.
pub open spec fn varref_count_match_arms(arms: Seq<MatchArmV>) -> nat
    decreases arms,
{
    if arms.len() == 0 {
        0
    } else {
        varref_count(*arms.first().res) + varref_count_match_arms(arms.drop_first())
    }
}

/// Joins two optional annotation maps; `None` (an unbound reference) wins.
pub open spec fn join_infos(
    a: Option<Map<nat, DeBrujinIdx>>,
    b: Option<Map<nat, DeBrujinIdx>>,
) -> Option<Map<nat, DeBrujinIdx>> {
    match (a, b) {
        (Some(x), Some(y)) => Some(x.union_prefer_right(y)),
        _ => None,
    }
}


/// The names of a bundle, element by element.
pub proof fn lemma_arm_names(arms: Seq<LetRecArmV>)
    ensures
        arm_names(arms).len() == arms.len(),
        forall|i: int| 0 <= i < arms.len() ==> #[trigger] arm_names(arms)[i] == arms[i].fn_name,
{
}

/// The names of a bundle of `let rec` arms.
pub open spec fn arm_names(arms: Seq<LetRecArmV>) -> Seq<Seq<char>> {
    arms.map_values(|a: LetRecArmV| a.fn_name)
}

/// The annotations of the subtree `e`, whose first variable reference in
/// traversal order is numbered `n`, resolved against `frames`; `None` when
/// some reference is unbound.  Scoping: a lambda binds its argument over its
/// body; a `let` resolves its value outside and binds its name over its
/// body; a `let rec` binds all its function names as one bundle over every
/// arm body and over its own body, and each arm additionally binds its
/// argument over that arm's body.
pub open spec fn spec_resolve_expr(e: ExprV, frames: Seq<VarBundleV>, n: nat) -> Option<
    Map<nat, DeBrujinIdx>,
>
    decreases e,
{
    match e {
        ExprV::IntLit { .. } => Some(Map::empty()),
        ExprV::UnitLit { .. } => Some(Map::empty()),
        ExprV::Builtin { .. } => Some(Map::empty()),
        ExprV::VarRef { id } => match spec_resolve(frames, id) {
            Some(ix) => Some(Map::empty().insert(n, ix)),
            None => None,
        },
        ExprV::Binary { lhs, rhs, .. } => join_infos(
            spec_resolve_expr(*lhs, frames, n),
            spec_resolve_expr(*rhs, frames, n + varref_count(*lhs)),
        ),
        ExprV::Unary { sub, .. } => spec_resolve_expr(*sub, frames, n),
        ExprV::App { fun, arg } => join_infos(
            spec_resolve_expr(*fun, frames, n),
            spec_resolve_expr(*arg, frames, n + varref_count(*fun)),
        ),
        ExprV::Sequence { subs } => spec_resolve_list(subs, frames, n),
        ExprV::Abs { arg_name, body, .. } => spec_resolve_expr(
            *body,
            seq![VarBundleV::Var(arg_name)] + frames,
            n,
        ),
        ExprV::Let { name, val, body, .. } => join_infos(
            spec_resolve_expr(*val, frames, n),
            spec_resolve_expr(
                *body,
                seq![VarBundleV::Var(name)] + frames,
                n + varref_count(*val),
            ),
        ),
        ExprV::Tuple { subs } => spec_resolve_list(subs, frames, n),
        ExprV::Nth { sub, .. } => spec_resolve_expr(*sub, frames, n),
        ExprV::Ite { cond, tr, fl } => join_infos(
            join_infos(
                spec_resolve_expr(*cond, frames, n),
                spec_resolve_expr(*tr, frames, n + varref_count(*cond)),
            ),
            spec_resolve_expr(*fl, frames, n + varref_count(*cond) + varref_count(*tr)),
        ),
        ExprV::LetRec { arms, body } => {
            let rec_frames = seq![VarBundleV::Rec(arm_names(arms))] + frames;
            join_infos(
                spec_resolve_arms(arms, rec_frames, n),
                spec_resolve_expr(*body, rec_frames, n + varref_count_arms(arms)),
            )
        },
        ExprV::Match { sub, arms } => join_infos(
            spec_resolve_expr(*sub, frames, n),
            spec_resolve_match_arms(arms, frames, n + varref_count(*sub)),
        ),
    }
}

/// The annotations of a list of expressions, in order.
pub open spec fn spec_resolve_list(es: Seq<ExprV>, frames: Seq<VarBundleV>, n: nat) -> Option<
    Map<nat, DeBrujinIdx>,
>
    decreases es,
{
    if es.len() == 0 {
        Some(Map::empty())
    } else {
        join_infos(
            spec_resolve_expr(es.first(), frames, n),
            spec_resolve_list(es.drop_first(), frames, n + varref_count(es.first())),
        )
    }
}

/// The annotations of the bodies of `let rec` arms: each arm binds its
/// argument over its own body.
pub open spec fn spec_resolve_arms(
    arms: Seq<LetRecArmV>,
    frames: Seq<VarBundleV>,
    n: nat,
) -> Option<Map<nat, DeBrujinIdx>>
    decreases arms,
{
    if arms.len() == 0 {
        Some(Map::empty())
    } else {
        join_infos(
            spec_resolve_expr(
                *arms.first().body,
                seq![VarBundleV::Var(arms.first().arg_name)] + frames,
                n,
            ),
            spec_resolve_arms(arms.drop_first(), frames, n + varref_count(*arms.first().body)),
        )
    }
}

/// The annotations of the results of `match` arms.
pub open spec fn spec_resolve_match_arms(
    arms: Seq<MatchArmV>,
    frames: Seq<VarBundleV>,
    n: nat,
) -> Option<Map<nat, DeBrujinIdx>>
    decreases arms,
{
    if arms.len() == 0 {
        Some(Map::empty())
    } else {
        join_infos(
            spec_resolve_expr(*arms.first().res, frames, n),
            spec_resolve_match_arms(
                arms.drop_first(),
                frames,
                n + varref_count(*arms.first().res),
            ),
        )
    }
}

/// De Bruijn resolution is deterministic: on structurally equal trees, equal
/// frames and equal numbering, two runs produce the same annotations — the
/// pass is a function of its input, as `walk`'s contract shows.
pub proof fn lemma_resolution_deterministic(
    e1: ExprV,
    e2: ExprV,
    frames1: Seq<VarBundleV>,
    frames2: Seq<VarBundleV>,
    n1: nat,
    n2: nat,
)
    requires
        e1 == e2,
        frames1 == frames2,
        n1 == n2,
    ensures
        spec_resolve_expr(e1, frames1, n1) == spec_resolve_expr(e2, frames2, n2),
{
}

impl DeBrujin {
    /// The current frames, most recent first.
    pub closed spec fn frames(&self) -> Seq<VarBundleV> {
        bundle_models(self.vars@)
    }

    /// The annotations recorded so far.
    pub closed spec fn infos(&self) -> Map<nat, DeBrujinIdx> {
        self.info@
    }

    /// The number the next variable reference will get.
    pub closed spec fn next(&self) -> nat {
        self.next_id as nat
    }

    /// The reference counter is a machine integer, so it is bounded.
    pub proof fn lemma_next_bounded(&self)
        ensures
            self.next() <= usize::MAX,
    {
    }

    /// A fresh resolver: no frames, no annotations.
    pub fn new() -> (r: Self)
        ensures
            r.frames() == Seq::<VarBundleV>::empty(),
            r.infos() == Map::<nat, DeBrujinIdx>::empty(),
            r.next() == 0,
    {
        let r = DeBrujin { vars: Vec::new(), info: NodeInfo::new(), next_id: 0 };
        proof {
            assert(r.frames() =~= Seq::<VarBundleV>::empty());
        }
        r
    }

    /// Hands the recorded annotations out.
    pub fn get_info(self) -> (r: DeBrujinInfo)
        ensures
            r@ == self.infos(),
    {
        self.info
    }

    /// Resolves one name against the current frames.
    pub fn get_debrujin_idx(&self, id: &String) -> (r: Option<DeBrujinIdx>)
        ensures
            r == spec_resolve(self.frames(), id@),
    {
        let ghost frames = self.frames();
        let n = self.vars.len();
        let mut i: usize = 0;
        while i < n
            invariant
                0 <= i <= n == self.vars@.len(),
                frames == self.frames(),
                spec_resolve(frames, id@) == resolve_from(frames, id@, i as int),
            decreases n - i,
        {
            proof {
                assert(frames[i as int] == self.vars@[n - 1 - i as int].model());
            }
            match &self.vars[n - 1 - i] {
                VarBundle::Var(v) => {
                    if *v == *id {
                        return Some(DeBrujinIdx::Var(i));
                    }
                },
                VarBundle::Rec(vs) => {
                    let ghost vsv = crate::utils::string_views(vs@);
                    proof {
                        assert(frames[i as int] == VarBundleV::Rec(vsv));
                    }
                    let mut j: usize = 0;
                    while j < vs.len()
                        invariant
                            0 <= j <= vs@.len(),
                            0 <= i < frames.len(),
                            frames == self.frames(),
                            vsv == crate::utils::string_views(vs@),
                            frames[i as int] == VarBundleV::Rec(vsv),
                            spec_resolve(frames, id@) == resolve_from(frames, id@, i as int),
                            pos_from(vsv, id@, 0) == pos_from(vsv, id@, j as int),
                        decreases vs@.len() - j,
                    {
                        proof {
                            assert(vsv[j as int] == vs@[j as int]@);
                        }
                        if vs[j] == *id {
                            proof {
                                assert(vsv[j as int] == id@);
                                assert(pos_from(vsv, id@, j as int) == Some(j as int));
                                assert(pos_from(vsv, id@, 0) == Some(j as int));
                                assert(resolve_from(frames, id@, i as int) == Some(
                                    DeBrujinIdx::Rec(i, j),
                                ));
                            }
                            return Some(DeBrujinIdx::Rec(i, j));
                        }
                        j = j + 1;
                    }
                },
            }
            i = i + 1;
        }
        None
    }

    /// Pushes a single-binder frame.
    pub fn define_var(&mut self, id: &String)
        ensures
            final(self).frames() == seq![VarBundleV::Var(id@)] + old(self).frames(),
            final(self).infos() == old(self).infos(),
            final(self).next() == old(self).next(),
    {
        self.vars.push(VarBundle::Var(id.clone()));
        proof {
            lemma_bundle_models_push(old(self).vars@, self.vars@.last());
        }
    }

    /// Pushes a mutual-recursion frame holding the given names.
    pub fn define_rec(&mut self, rec: &Vec<String>)
        ensures
            final(self).frames() == seq![
                VarBundleV::Rec(crate::utils::string_views(rec@)),
            ] + old(self).frames(),
            final(self).infos() == old(self).infos(),
            final(self).next() == old(self).next(),
    {
        let names = crate::secd::langdef::dup_labels(rec);
        proof {
            assert(crate::utils::string_views(names@) == crate::secd::langdef::label_views(
                names@,
            ));
            assert(crate::utils::string_views(rec@) == crate::secd::langdef::label_views(rec@));
        }
        self.vars.push(VarBundle::Rec(names));
        proof {
            lemma_bundle_models_push(old(self).vars@, self.vars@.last());
        }
    }

    /// Pops the most recent frame, which must be the single binder `id`.
    pub fn undefine_var(&mut self, id: &String)
        requires
            old(self).frames().len() > 0,
            old(self).frames().first() == VarBundleV::Var(id@),
        ensures
            final(self).frames() == old(self).frames().drop_first(),
            final(self).infos() == old(self).infos(),
            final(self).next() == old(self).next(),
    {
        proof {
            lemma_bundle_models_pop(old(self).vars@);
        }
        let _ = self.vars.pop();
    }

    /// Pops the most recent frame, which must be a bundle of the given names.
    pub fn undefine_rec(&mut self, rec: &Vec<String>)
        requires
            old(self).frames().len() > 0,
            old(self).frames().first() == VarBundleV::Rec(crate::utils::string_views(rec@)),
        ensures
            final(self).frames() == old(self).frames().drop_first(),
            final(self).infos() == old(self).infos(),
            final(self).next() == old(self).next(),
    {
        proof {
            lemma_bundle_models_pop(old(self).vars@);
        }
        let _ = self.vars.pop();
    }
}

/// Pushing a frame on the vector puts its model at the front of the frames.
proof fn lemma_bundle_models_push(s: Seq<VarBundle>, b: VarBundle)
    ensures
        bundle_models(s.push(b)) == seq![b.model()] + bundle_models(s),
{
    let lhs = bundle_models(s.push(b));
    let rhs = seq![b.model()] + bundle_models(s);
    assert forall|i: int| 0 <= i < lhs.len() implies lhs[i] == rhs[i] by {
        let m = s.push(b).map_values(|x: VarBundle| x.model());
        assert(lhs[i] == m[m.len() - 1 - i]);
        if i == 0 {
        } else {
            assert(s.push(b)[s.len() - i] == s[s.len() - i]);
            assert(rhs[i] == bundle_models(s)[i - 1]);
        }
    }
    assert(lhs =~= rhs);
}

/// Popping the vector's last frame drops the front of the frames.
proof fn lemma_bundle_models_pop(s: Seq<VarBundle>)
    requires
        s.len() > 0,
    ensures
        bundle_models(s.drop_last()) == bundle_models(s).drop_first(),
{
    let lhs = bundle_models(s.drop_last());
    let rhs = bundle_models(s).drop_first();
    assert forall|i: int| 0 <= i < lhs.len() implies lhs[i] == rhs[i] by {
        assert(s.drop_last()[s.len() - 2 - i] == s[s.len() - 2 - i]);
    }
    assert(lhs =~= rhs);
}

impl DeBrujin {
    /// Walks an expression, annotating every variable reference with its
    /// resolution against the current frames, numbering references in
    /// traversal order from `next()` on.  On success the recorded
    /// annotations grow exactly by what `spec_resolve_expr` says and the
    /// frames are left as they were; on failure a reference was unbound or
    /// the numbering exceeded the machine's integer range.
    pub fn walk(&mut self, e: &Expr) -> (r: Result<(), String>)
        ensures
            match r {
                Ok(_) => {
                    &&& spec_resolve_expr(e@, old(self).frames(), old(self).next())
                        matches Some(m) && final(self).infos() == old(
                        self,
                    ).infos().union_prefer_right(m)
                    &&& final(self).frames() == old(self).frames()
                    &&& final(self).next() == old(self).next() + varref_count(e@)
                },
                Err(_) => spec_resolve_expr(e@, old(self).frames(), old(self).next()) is None
                    || old(self).next() + varref_count(e@) > usize::MAX,
            },
        decreases *e,
    {
        let ghost frames0 = self.frames();
        let ghost n0 = self.next();
        let ghost infos0 = self.infos();
        match e {
            Expr::IntLit { .. } => {
                proof {
                    assert(infos0.union_prefer_right(Map::empty()) =~= infos0);
                }
                Ok(())
            },
            Expr::UnitLit { .. } => {
                proof {
                    assert(infos0.union_prefer_right(Map::empty()) =~= infos0);
                }
                Ok(())
            },
            Expr::Builtin { .. } => {
                proof {
                    assert(infos0.union_prefer_right(Map::empty()) =~= infos0);
                }
                Ok(())
            },
            Expr::VarRef { id } => {
                match self.get_debrujin_idx(id) {
                    Some(ix) => {
                        if self.next_id == usize::MAX {
                            return Err(String::from_str("too many variable references"));
                        }
                        self.info.insert(NodeId(self.next_id), ix);
                        self.next_id = self.next_id + 1;
                        proof {
                            assert(infos0.union_prefer_right(
                                Map::empty().insert(n0, ix),
                            ) =~= infos0.insert(n0, ix));
                        }
                        Ok(())
                    },
                    None => Err(String::from_str("unknown variable reference")),
                }
            },
            Expr::Unary { sub, .. } => self.walk(sub),
            Expr::Nth { sub, .. } => self.walk(sub),
            Expr::Binary { lhs, rhs, .. } => {
                let r1 = self.walk(lhs);
                if r1.is_err() {
                    return r1;
                }
                let ghost acc = self.infos();
                let r2 = self.walk(rhs);
                if r2.is_err() {
                    return r2;
                }
                proof {
                    lemma_union_assoc(
                        infos0,
                        spec_resolve_expr(lhs.model(), frames0, n0),
                        spec_resolve_expr(rhs.model(), frames0, n0 + varref_count(lhs.model())),
                    );
                }
                Ok(())
            },
            Expr::App { fun, arg } => {
                let r1 = self.walk(fun);
                if r1.is_err() {
                    return r1;
                }
                let r2 = self.walk(arg);
                if r2.is_err() {
                    return r2;
                }
                proof {
                    lemma_union_assoc(
                        infos0,
                        spec_resolve_expr(fun.model(), frames0, n0),
                        spec_resolve_expr(arg.model(), frames0, n0 + varref_count(fun.model())),
                    );
                }
                Ok(())
            },
            Expr::Abs { arg_name, body, .. } => {
                self.define_var(arg_name);
                let r1 = self.walk(body);
                if r1.is_err() {
                    return r1;
                }
                self.undefine_var(arg_name);
                proof {
                    assert(self.frames() =~= frames0);
                }
                Ok(())
            },
            Expr::Let { name, val, body, .. } => {
                let r1 = self.walk(val);
                if r1.is_err() {
                    return r1;
                }
                self.define_var(name);
                let r2 = self.walk(body);
                if r2.is_err() {
                    return r2;
                }
                self.undefine_var(name);
                proof {
                    assert(self.frames() =~= frames0);
                    lemma_union_assoc(
                        infos0,
                        spec_resolve_expr(val.model(), frames0, n0),
                        spec_resolve_expr(
                            body.model(),
                            seq![VarBundleV::Var(name@)] + frames0,
                            n0 + varref_count(val.model()),
                        ),
                    );
                }
                Ok(())
            },
            Expr::Ite { cond, tr, fl } => {
                let r1 = self.walk(cond);
                if r1.is_err() {
                    return r1;
                }
                let r2 = self.walk(tr);
                if r2.is_err() {
                    proof {
                        assert(varref_count(e@) >= varref_count(cond.model()) + varref_count(
                            tr.model(),
                        ));
                    }
                    return r2;
                }
                let r3 = self.walk(fl);
                if r3.is_err() {
                    return r3;
                }
                proof {
                    let m1 = spec_resolve_expr(cond.model(), frames0, n0);
                    let m2 = spec_resolve_expr(
                        tr.model(),
                        frames0,
                        n0 + varref_count(cond.model()),
                    );
                    let m3 = spec_resolve_expr(
                        fl.model(),
                        frames0,
                        n0 + varref_count(cond.model()) + varref_count(tr.model()),
                    );
                    lemma_union_assoc(infos0, m1, m2);
                    lemma_union_assoc(infos0, join_infos(m1, m2), m3);
                }
                Ok(())
            },
            Expr::Sequence { subs } => self.walk_list(subs),
            Expr::Tuple { subs } => self.walk_list(subs),
            Expr::LetRec { arms, body } => {
                let mut names: Vec<String> = Vec::new();
                let mut k: usize = 0;
                while k < arms.len()
                    invariant
                        0 <= k <= arms@.len(),
                        crate::utils::string_views(names@) =~= arm_names(
                            crate::ast::letrecarm_models(arms@),
                        ).take(k as int),
                    decreases arms@.len() - k,
                {
                    let ghost names0 = names@;
                    names.push(arms[k].fn_name.clone());
                    proof {
                        crate::ast::lemma_letrecarm_models(arms@);
                        let am = crate::ast::letrecarm_models(arms@);
                        let anames = arm_names(am);
                        lemma_arm_names(am);
                        crate::utils::lemma_string_views(names@);
                        crate::utils::lemma_string_views(names0);
                        assert(crate::utils::string_views(names0).len() == k);
                        assert forall|q: int| 0 <= q < k + 1 implies crate::utils::string_views(
                            names@,
                        )[q] == anames.take(k + 1)[q] by {
                            assert(crate::utils::string_views(names@)[q] == names@[q]@);
                            assert(anames[q] == am[q].fn_name);
                            assert(am[q] == arms@[q].model());
                            if q < k {
                                assert(names@[q] == names0[q]);
                                assert(crate::utils::string_views(names0)[q] == names0[q]@);
                                assert(crate::utils::string_views(names0)[q] == anames.take(
                                    k as int,
                                )[q]);
                            } else {
                                assert(names@[q]@ == arms@[k as int].fn_name@);
                            }
                        }
                        assert(crate::utils::string_views(names@) =~= arm_names(
                            crate::ast::letrecarm_models(arms@),
                        ).take(k + 1));
                    }
                    k = k + 1;
                }
                proof {
                    crate::ast::lemma_letrecarm_models(arms@);
                    assert(arm_names(crate::ast::letrecarm_models(arms@)).take(
                        arms@.len() as int,
                    ) =~= arm_names(crate::ast::letrecarm_models(arms@)));
                }
                self.define_rec(&names);
                let ghost rec_frames = self.frames();
                let r1 = self.walk_arms(arms);
                if r1.is_err() {
                    return r1;
                }
                let r2 = self.walk(body);
                if r2.is_err() {
                    return r2;
                }
                self.undefine_rec(&names);
                proof {
                    assert(self.frames() =~= frames0);
                    lemma_union_assoc(
                        infos0,
                        spec_resolve_arms(crate::ast::letrecarm_models(arms@), rec_frames, n0),
                        spec_resolve_expr(
                            body.model(),
                            rec_frames,
                            n0 + varref_count_arms(crate::ast::letrecarm_models(arms@)),
                        ),
                    );
                }
                Ok(())
            },
            Expr::Match { sub, arms } => {
                let r1 = self.walk(sub);
                if r1.is_err() {
                    return r1;
                }
                let r2 = self.walk_match_arms(arms);
                if r2.is_err() {
                    return r2;
                }
                proof {
                    lemma_union_assoc(
                        infos0,
                        spec_resolve_expr(sub.model(), frames0, n0),
                        spec_resolve_match_arms(
                            crate::ast::matcharm_models(arms@),
                            frames0,
                            n0 + varref_count(sub.model()),
                        ),
                    );
                }
                Ok(())
            },
        }
    }

    /// Walks a list of expressions in order.
    fn walk_list(&mut self, subs: &Vec<Expr>) -> (r: Result<(), String>)
        ensures
            match r {
                Ok(_) => {
                    &&& spec_resolve_list(
                        crate::ast::expr_models(subs@),
                        old(self).frames(),
                        old(self).next(),
                    ) matches Some(m) && final(self).infos() == old(
                        self,
                    ).infos().union_prefer_right(m)
                    &&& final(self).frames() == old(self).frames()
                    &&& final(self).next() == old(self).next() + varref_count_list(
                        crate::ast::expr_models(subs@),
                    )
                },
                Err(_) => spec_resolve_list(
                    crate::ast::expr_models(subs@),
                    old(self).frames(),
                    old(self).next(),
                ) is None || old(self).next() + varref_count_list(crate::ast::expr_models(subs@))
                    > usize::MAX,
            },
        decreases subs@,
    {
        let ghost sm = crate::ast::expr_models(subs@);
        let ghost frames0 = self.frames();
        let ghost n0 = self.next();
        let ghost infos0 = self.infos();
        let ghost mut acc: Map<nat, DeBrujinIdx> = Map::empty();
        proof {
            crate::ast::lemma_expr_models(subs@);
            assert(infos0.union_prefer_right(acc) =~= infos0);
            assert(sm.skip(0) =~= sm);
        }
        let mut i: usize = 0;
        while i < subs.len()
            invariant
                0 <= i <= subs@.len(),
                sm == crate::ast::expr_models(subs@),
                sm.len() == subs@.len(),
                forall|q: int| 0 <= q < subs@.len() ==> #[trigger] sm[q] == subs@[q].model(),
                frames0 == old(self).frames(),
                n0 == old(self).next(),
                infos0 == old(self).infos(),
                frames0 == self.frames(),
                self.infos() == infos0.union_prefer_right(acc),
                n0 + varref_count_list(sm) == self.next() + varref_count_list(sm.skip(i as int)),
                match spec_resolve_list(sm.skip(i as int), frames0, self.next()) {
                    Some(mrest) => spec_resolve_list(sm, frames0, n0) == Some(
                        acc.union_prefer_right(mrest),
                    ),
                    None => spec_resolve_list(sm, frames0, n0) is None,
                },
            decreases subs@.len() - i,
        {
            proof {
                assert(decreases_to!(subs@ => subs@[i as int]));
                assert(sm.skip(i as int).first() == sm[i as int]);
                assert(sm.skip(i as int).drop_first() =~= sm.skip(i + 1));
            }
            let ghost n_i = self.next();
            let rc = self.walk(&subs[i]);
            match rc {
                Ok(_) => {
                    proof {
                        let mi = spec_resolve_expr(sm[i as int], frames0, n_i);
                        match mi {
                            Some(m) => {
                                assert(self.infos() =~= infos0.union_prefer_right(
                                    acc.union_prefer_right(m),
                                )) by {
                                    assert(infos0.union_prefer_right(acc).union_prefer_right(m)
                                        =~= infos0.union_prefer_right(acc.union_prefer_right(m)));
                                }
                                match spec_resolve_list(sm.skip(i + 1), frames0, self.next()) {
                                    Some(mrest2) => {
                                        assert(acc.union_prefer_right(
                                            m.union_prefer_right(mrest2),
                                        ) =~= acc.union_prefer_right(m).union_prefer_right(
                                            mrest2,
                                        ));
                                    },
                                    None => {},
                                }
                                acc = acc.union_prefer_right(m);
                            },
                            None => {
                                assert(false);
                            },
                        }
                    }
                },
                Err(msg) => {
                    proof {
                        assert(sm.skip(i as int).first() == sm[i as int]);
                        if spec_resolve_expr(sm[i as int], frames0, n_i) is None {
                            assert(spec_resolve_list(sm.skip(i as int), frames0, n_i) is None);
                            assert(spec_resolve_list(sm, frames0, n0) is None);
                        } else {
                            assert(n_i + varref_count(sm[i as int]) > usize::MAX);
                            assert(varref_count_list(sm.skip(i as int)) >= varref_count(
                                sm[i as int],
                            ));
                            assert(n0 + varref_count_list(sm) > usize::MAX);
                        }
                        assert(frames0 == old(self).frames());
                        assert(n0 == old(self).next());
                        assert(sm == crate::ast::expr_models(subs@));
                    }
                    return Err(msg);
                },
            }
            i = i + 1;
        }
        proof {
            assert(sm.skip(subs@.len() as int) =~= Seq::<ExprV>::empty());
            assert(acc.union_prefer_right(Map::empty()) =~= acc);
        }
        Ok(())
    }

    /// Walks the arm bodies of a `let rec`: each arm binds its argument over
    /// its own body; the bundle frame is already in place.
    fn walk_arms(&mut self, arms: &Vec<LetRecArm>) -> (r: Result<(), String>)
        ensures
            match r {
                Ok(_) => {
                    &&& spec_resolve_arms(
                        crate::ast::letrecarm_models(arms@),
                        old(self).frames(),
                        old(self).next(),
                    ) matches Some(m) && final(self).infos() == old(
                        self,
                    ).infos().union_prefer_right(m)
                    &&& final(self).frames() == old(self).frames()
                    &&& final(self).next() == old(self).next() + varref_count_arms(
                        crate::ast::letrecarm_models(arms@),
                    )
                },
                Err(_) => spec_resolve_arms(
                    crate::ast::letrecarm_models(arms@),
                    old(self).frames(),
                    old(self).next(),
                ) is None || old(self).next() + varref_count_arms(
                    crate::ast::letrecarm_models(arms@),
                ) > usize::MAX,
            },
        decreases arms@,
    {
        let ghost am = crate::ast::letrecarm_models(arms@);
        let ghost frames0 = self.frames();
        let ghost n0 = self.next();
        let ghost infos0 = self.infos();
        let ghost mut acc: Map<nat, DeBrujinIdx> = Map::empty();
        proof {
            crate::ast::lemma_letrecarm_models(arms@);
            assert(infos0.union_prefer_right(acc) =~= infos0);
            assert(am.skip(0) =~= am);
        }
        let mut i: usize = 0;
        while i < arms.len()
            invariant
                0 <= i <= arms@.len(),
                am == crate::ast::letrecarm_models(arms@),
                am.len() == arms@.len(),
                forall|q: int| 0 <= q < arms@.len() ==> #[trigger] am[q] == arms@[q].model(),
                frames0 == old(self).frames(),
                n0 == old(self).next(),
                infos0 == old(self).infos(),
                frames0 == self.frames(),
                self.infos() == infos0.union_prefer_right(acc),
                n0 + varref_count_arms(am) == self.next() + varref_count_arms(am.skip(i as int)),
                match spec_resolve_arms(am.skip(i as int), frames0, self.next()) {
                    Some(mrest) => spec_resolve_arms(am, frames0, n0) == Some(
                        acc.union_prefer_right(mrest),
                    ),
                    None => spec_resolve_arms(am, frames0, n0) is None,
                },
            decreases arms@.len() - i,
        {
            proof {
                assert(decreases_to!(arms@ => arms@[i as int]));
                assert(am.skip(i as int).first() == am[i as int]);
                assert(am.skip(i as int).drop_first() =~= am.skip(i + 1));
            }
            let ghost n_i = self.next();
            self.define_var(&arms[i].arg_name);
            let ghost arm_frames = self.frames();
            proof {
                assert(decreases_to!(arms@[i as int] => arms@[i as int].body));
            }
            proof {
                assert(arm_frames == seq![VarBundleV::Var(am[i as int].arg_name)] + frames0);
            }
            let rc = self.walk(&arms[i].body);
            match rc {
                Ok(_) => {
                    self.undefine_var(&arms[i].arg_name);
                    proof {
                        assert(self.frames() =~= frames0);
                        let mi = spec_resolve_expr(*am[i as int].body, arm_frames, n_i);
                        match mi {
                            Some(m) => {
                                assert(self.infos() =~= infos0.union_prefer_right(
                                    acc.union_prefer_right(m),
                                )) by {
                                    assert(infos0.union_prefer_right(acc).union_prefer_right(m)
                                        =~= infos0.union_prefer_right(acc.union_prefer_right(m)));
                                }
                                match spec_resolve_arms(am.skip(i + 1), frames0, self.next()) {
                                    Some(mrest2) => {
                                        assert(acc.union_prefer_right(
                                            m.union_prefer_right(mrest2),
                                        ) =~= acc.union_prefer_right(m).union_prefer_right(
                                            mrest2,
                                        ));
                                    },
                                    None => {},
                                }
                                acc = acc.union_prefer_right(m);
                            },
                            None => {
                                assert(false);
                            },
                        }
                    }
                },
                Err(msg) => {
                    proof {
                        if spec_resolve_expr(*am[i as int].body, arm_frames, n_i) is None {
                            assert(spec_resolve_arms(am.skip(i as int), frames0, n_i) is None);
                        } else {
                            assert(n_i + varref_count(*am[i as int].body) > usize::MAX);
                            assert(varref_count_arms(am.skip(i as int)) >= varref_count(
                                *am[i as int].body,
                            ));
                        }
                    }
                    return Err(msg);
                },
            }
            i = i + 1;
        }
        proof {
            assert(am.skip(arms@.len() as int) =~= Seq::<LetRecArmV>::empty());
            assert(acc.union_prefer_right(Map::empty()) =~= acc);
        }
        Ok(())
    }

    /// Walks the results of `match` arms; patterns bind nothing here.
    fn walk_match_arms(&mut self, arms: &Vec<crate::ast::MatchArm>) -> (r: Result<(), String>)
        ensures
            match r {
                Ok(_) => {
                    &&& spec_resolve_match_arms(
                        crate::ast::matcharm_models(arms@),
                        old(self).frames(),
                        old(self).next(),
                    ) matches Some(m) && final(self).infos() == old(
                        self,
                    ).infos().union_prefer_right(m)
                    &&& final(self).frames() == old(self).frames()
                    &&& final(self).next() == old(self).next() + varref_count_match_arms(
                        crate::ast::matcharm_models(arms@),
                    )
                },
                Err(_) => spec_resolve_match_arms(
                    crate::ast::matcharm_models(arms@),
                    old(self).frames(),
                    old(self).next(),
                ) is None || old(self).next() + varref_count_match_arms(
                    crate::ast::matcharm_models(arms@),
                ) > usize::MAX,
            },
        decreases arms@,
    {
        let ghost am = crate::ast::matcharm_models(arms@);
        let ghost frames0 = self.frames();
        let ghost n0 = self.next();
        let ghost infos0 = self.infos();
        let ghost mut acc: Map<nat, DeBrujinIdx> = Map::empty();
        proof {
            crate::ast::lemma_matcharm_models(arms@);
            assert(infos0.union_prefer_right(acc) =~= infos0);
            assert(am.skip(0) =~= am);
        }
        let mut i: usize = 0;
        while i < arms.len()
            invariant
                0 <= i <= arms@.len(),
                am == crate::ast::matcharm_models(arms@),
                am.len() == arms@.len(),
                forall|q: int| 0 <= q < arms@.len() ==> #[trigger] am[q] == arms@[q].model(),
                frames0 == old(self).frames(),
                n0 == old(self).next(),
                infos0 == old(self).infos(),
                frames0 == self.frames(),
                self.infos() == infos0.union_prefer_right(acc),
                n0 + varref_count_match_arms(am) == self.next() + varref_count_match_arms(
                    am.skip(i as int),
                ),
                match spec_resolve_match_arms(am.skip(i as int), frames0, self.next()) {
                    Some(mrest) => spec_resolve_match_arms(am, frames0, n0) == Some(
                        acc.union_prefer_right(mrest),
                    ),
                    None => spec_resolve_match_arms(am, frames0, n0) is None,
                },
            decreases arms@.len() - i,
        {
            proof {
                assert(decreases_to!(arms@ => arms@[i as int]));
                assert(am.skip(i as int).first() == am[i as int]);
                assert(am.skip(i as int).drop_first() =~= am.skip(i + 1));
            }
            let ghost n_i = self.next();
            proof {
                assert(decreases_to!(arms@[i as int] => arms@[i as int].res));
            }
            let rc = self.walk(&arms[i].res);
            match rc {
                Ok(_) => {
                    proof {
                        let mi = spec_resolve_expr(*am[i as int].res, frames0, n_i);
                        match mi {
                            Some(m) => {
                                assert(self.infos() =~= infos0.union_prefer_right(
                                    acc.union_prefer_right(m),
                                )) by {
                                    assert(infos0.union_prefer_right(acc).union_prefer_right(m)
                                        =~= infos0.union_prefer_right(acc.union_prefer_right(m)));
                                }
                                match spec_resolve_match_arms(
                                    am.skip(i + 1),
                                    frames0,
                                    self.next(),
                                ) {
                                    Some(mrest2) => {
                                        assert(acc.union_prefer_right(
                                            m.union_prefer_right(mrest2),
                                        ) =~= acc.union_prefer_right(m).union_prefer_right(
                                            mrest2,
                                        ));
                                    },
                                    None => {},
                                }
                                acc = acc.union_prefer_right(m);
                            },
                            None => {
                                assert(false);
                            },
                        }
                    }
                },
                Err(msg) => {
                    proof {
                        if spec_resolve_expr(*am[i as int].res, frames0, n_i) is None {
                            assert(spec_resolve_match_arms(am.skip(i as int), frames0, n_i)
                                is None);
                        } else {
                            assert(n_i + varref_count(*am[i as int].res) > usize::MAX);
                            assert(varref_count_match_arms(am.skip(i as int)) >= varref_count(
                                *am[i as int].res,
                            ));
                        }
                    }
                    return Err(msg);
                },
            }
            i = i + 1;
        }
        proof {
            assert(am.skip(arms@.len() as int) =~= Seq::<MatchArmV>::empty());
            assert(acc.union_prefer_right(Map::empty()) =~= acc);
        }
        Ok(())
    }
}

/// Unioning annotation maps is associative.
proof fn lemma_union_assoc(
    base: Map<nat, DeBrujinIdx>,
    a: Option<Map<nat, DeBrujinIdx>>,
    b: Option<Map<nat, DeBrujinIdx>>,
)
    ensures
        match join_infos(a, b) {
            Some(m) => match (a, b) {
                (Some(x), Some(y)) => base.union_prefer_right(m)
                    == base.union_prefer_right(x).union_prefer_right(y),
                _ => true,
            },
            None => true,
        },
{
    match (a, b) {
        (Some(x), Some(y)) => {
            assert(base.union_prefer_right(x.union_prefer_right(y)) =~= base.union_prefer_right(
                x,
            ).union_prefer_right(y));
        },
        _ => {},
    }
}

} // verus!
