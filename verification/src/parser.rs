//! The recursive-descent parser for MiniML source text.
//!
//! The grammar is layered by precedence, lowest first: `let` / `let rec` /
//! `match`, lambda, `;` sequences, `if`-`then`-`else`, equality, relational,
//! additive, multiplicative, unary prefix, application, atoms.  Whitespace is
//! any run of blank, tab, CR and LF, interleaved with `--` line comments.
//! Every parsing function works on a position into a character vector and
//! returns the position after what it consumed; `None` means the alternative
//! did not match, and the caller backtracks to its own position.
//!
//! The parser never builds a one-element sequence or tuple node: a sequence
//! of one part collapses to the part itself ([`no_small_seq`] holds of every
//! tree the parser returns).
//!
//! Every layer is pinned to a spec-level mirror (`spec_<layer>`): the
//! executable function returns exactly what its mirror says, position and
//! tree alike.  The mirrors guard each position a sub-parse hands back
//! (within bounds, strictly advanced), which makes their recursion
//! well-founded by construction; the executable layers always meet the
//! guards — their contracts say so — so a guard never fires at run time.

use vstd::prelude::*;

use crate::ast::{
    BinOp, BuiltinOp, DataType, DataTypeArm, DataTypeArmV, DataTypeV, Expr, ExprV, LetRecArm,
    LetRecArmV, MatchArm, MatchArmV, MatchPattern, MatchPatternV, Prog, ProgV, Ty, TyV, UnaOp,
};
use crate::num::{is_digit, parse_u64, spec_is_digit};
use crate::utils::{chars_to_string, string_to_chars};

verus! {

/// The errors of parsing.
#[derive(Debug)]
pub enum MiniMLErr {
    /// The text does not match the grammar.
    ParseError(String),
}

/// No sequence or tuple node of fewer than two parts, no `let rec` or
/// `match` without an arm, anywhere in the tree.
pub open spec fn no_small_seq(e: ExprV) -> bool
    decreases e,
{
    match e {
        ExprV::IntLit { .. } => true,
        ExprV::UnitLit { .. } => true,
        ExprV::VarRef { .. } => true,
        ExprV::Builtin { .. } => true,
        ExprV::Binary { lhs, rhs, .. } => no_small_seq(*lhs) && no_small_seq(*rhs),
        ExprV::Unary { sub, .. } => no_small_seq(*sub),
        ExprV::App { fun, arg } => no_small_seq(*fun) && no_small_seq(*arg),
        ExprV::Sequence { subs } => subs.len() >= 2 && no_small_seq_list(subs),
        ExprV::Abs { body, .. } => no_small_seq(*body),
        ExprV::Let { val, body, .. } => no_small_seq(*val) && no_small_seq(*body),
        ExprV::Tuple { subs } => subs.len() >= 2 && no_small_seq_list(subs),
        ExprV::Nth { sub, .. } => no_small_seq(*sub),
        ExprV::Ite { cond, tr, fl } => no_small_seq(*cond) && no_small_seq(*tr) && no_small_seq(
            *fl,
        ),
        ExprV::LetRec { arms, body } => arms.len() >= 1 && no_small_seq_arms(arms)
            && no_small_seq(*body),
        ExprV::Match { sub, arms } => arms.len() >= 1 && no_small_seq(*sub)
            && no_small_seq_match_arms(arms),
    }
}

/// `no_small_seq` over a list of expressions.
pub open spec fn no_small_seq_list(es: Seq<ExprV>) -> bool
    decreases es,
{
    forall|i: int| 0 <= i < es.len() ==> no_small_seq(#[trigger] es[i])
}

/// `no_small_seq` over the bodies of `let rec` arms.
pub open spec fn no_small_seq_arms(arms: Seq<LetRecArmV>) -> bool
    decreases arms,
{
    forall|i: int| 0 <= i < arms.len() ==> no_small_seq(*(#[trigger] arms[i]).body)
}

/// `no_small_seq` over the results of `match` arms.
pub open spec fn no_small_seq_match_arms(arms: Seq<MatchArmV>) -> bool
    decreases arms,
{
    forall|i: int| 0 <= i < arms.len() ==> no_small_seq(*(#[trigger] arms[i]).res)
}

/// Is `c` a character an identifier may start with?
pub open spec fn spec_is_ident_start(c: char) -> bool {
    (97 <= c as u32 <= 122) || (65 <= c as u32 <= 90) || c == '_'
}

/// Is `c` a character an identifier may continue with?
pub open spec fn spec_is_ident_char(c: char) -> bool {
    spec_is_ident_start(c) || spec_is_digit(c)
}

/// Decides whether `c` may start an identifier.
fn is_ident_start(c: char) -> (r: bool)
    ensures
        r == spec_is_ident_start(c),
{
    let u: u32 = c as u32;
    (97 <= u && u <= 122) || (65 <= u && u <= 90) || c == '_'
}

/// Decides whether `c` may continue an identifier.
fn is_ident_char(c: char) -> (r: bool)
    ensures
        r == spec_is_ident_char(c),
{
    is_ident_start(c) || is_digit(c)
}

/// Does `s` have the shape of an identifier?
pub open spec fn spec_is_ident(s: Seq<char>) -> bool {
    s.len() >= 1 && spec_is_ident_start(s[0]) && forall|i: int|
        0 <= i < s.len() ==> spec_is_ident_char(#[trigger] s[i])
}

/// Is `s` one of the language's keywords?
pub open spec fn spec_is_keyword(s: Seq<char>) -> bool {
    ||| s == "in"@
    ||| s == "let"@
    ||| s == "if"@
    ||| s == "else"@
    ||| s == "then"@
    ||| s == "rec"@
    ||| s == "and"@
    ||| s == "match"@
    ||| s == "end"@
    ||| s == "datatype"@
    ||| s == "int"@
    ||| s == "bool"@
    ||| s == "unit"@
}

/// Is `c` whitespace of the surface language: blank, tab, CR or LF?
pub open spec fn spec_is_ws(c: char) -> bool {
    c == ' ' || c == '\t' || c == '\r' || c == '\n'
}

/// The end of the line comment starting inside position `i`: the position
/// of the next line feed, or the end of the text.
pub open spec fn comment_end(s: Seq<char>, i: int) -> int
    decreases s.len() - i,
{
    if i < 0 || i >= s.len() || s[i] == '\n' {
        i
    } else {
        comment_end(s, i + 1)
    }
}

/// A comment runs forward and ends within the text.
pub proof fn lemma_comment_end_bounds(s: Seq<char>, i: int)
    ensures
        i <= comment_end(s, i),
        i <= s.len() ==> comment_end(s, i) <= s.len(),
    decreases s.len() - i,
{
    if !(i < 0 || i >= s.len() || s[i] == '\n') {
        lemma_comment_end_bounds(s, i + 1);
    }
}

/// The position after the whitespace and line comments at `pos`.
pub open spec fn spec_ws_end(s: Seq<char>, pos: int) -> int
    decreases s.len() - pos,
    via spec_ws_end_decreases
{
    if pos < 0 || pos >= s.len() {
        pos
    } else if spec_is_ws(s[pos]) {
        spec_ws_end(s, pos + 1)
    } else if s[pos] == '-' && pos + 1 < s.len() && s[pos + 1] == '-' {
        spec_ws_end(s, comment_end(s, pos + 2))
    } else {
        pos
    }
}

#[via_fn]
proof fn spec_ws_end_decreases(s: Seq<char>, pos: int) {
    lemma_comment_end_bounds(s, pos + 2);
}

/// Skipping whitespace stays within the text.
pub proof fn lemma_ws_end_bounds(s: Seq<char>, pos: int)
    requires
        0 <= pos <= s.len(),
    ensures
        pos <= spec_ws_end(s, pos) <= s.len(),
    decreases s.len() - pos,
{
    if pos < s.len() {
        if spec_is_ws(s[pos]) {
            lemma_ws_end_bounds(s, pos + 1);
        } else if s[pos] == '-' && pos + 1 < s.len() && s[pos + 1] == '-' {
            lemma_comment_end_bounds(s, pos + 2);
            lemma_ws_end_bounds(s, comment_end(s, pos + 2));
        }
    }
}

/// The exact text `t` at `pos`, no whitespace skipped: the position after
/// it, or nothing.
pub open spec fn spec_tag(s: Seq<char>, pos: int, t: Seq<char>) -> Option<int> {
    if 0 <= pos && pos + t.len() <= s.len() && s.subrange(pos, pos + t.len()) == t {
        Some(pos + t.len())
    } else {
        None
    }
}

/// Whitespace, then the exact text `t`; never matches an empty text.
pub open spec fn spec_wstag(s: Seq<char>, pos: int, t: Seq<char>) -> Option<int> {
    if t.len() == 0 {
        None
    } else {
        spec_tag(s, spec_ws_end(s, pos), t)
    }
}

/// The end of the identifier-character run from `j` on.
pub open spec fn ident_end(s: Seq<char>, j: int) -> int
    decreases s.len() - j,
{
    if j < 0 || j >= s.len() || !spec_is_ident_char(s[j]) {
        j
    } else {
        ident_end(s, j + 1)
    }
}

/// An identifier run covers exactly its identifier characters.
pub proof fn lemma_ident_end_run(s: Seq<char>, a: int, j: int)
    requires
        0 <= a <= j <= s.len(),
        forall|k: int| a <= k < j ==> spec_is_ident_char(#[trigger] s[k]),
        j == s.len() || !spec_is_ident_char(s[j]),
    ensures
        ident_end(s, a) == j,
    decreases j - a,
{
    if a < j {
        lemma_ident_end_run(s, a + 1, j);
    }
}

/// An identifier-shaped word at `pos`, keywords included: the position
/// after it and its characters.
pub open spec fn spec_identlike(s: Seq<char>, pos: int) -> Option<(int, Seq<char>)> {
    if 0 <= pos < s.len() && spec_is_ident_start(s[pos]) {
        let j = ident_end(s, pos + 1);
        Some((j, s.subrange(pos, j)))
    } else {
        None
    }
}

/// Whitespace, then an identifier that is not a keyword.
pub open spec fn spec_ident(s: Seq<char>, pos: int) -> Option<(int, Seq<char>)> {
    match spec_identlike(s, spec_ws_end(s, pos)) {
        Some((j, w)) => if spec_is_keyword(w) {
            None
        } else {
            Some((j, w))
        },
        None => None,
    }
}

/// The end of the digit run from `j` on.
pub open spec fn digit_end(s: Seq<char>, j: int) -> int
    decreases s.len() - j,
{
    if j < 0 || j >= s.len() || !spec_is_digit(s[j]) {
        j
    } else {
        digit_end(s, j + 1)
    }
}

/// A digit run covers exactly its digits.
pub proof fn lemma_digit_end_run(s: Seq<char>, a: int, j: int)
    requires
        0 <= a <= j <= s.len(),
        forall|k: int| a <= k < j ==> spec_is_digit(#[trigger] s[k]),
        j == s.len() || !spec_is_digit(s[j]),
    ensures
        digit_end(s, a) == j,
    decreases j - a,
{
    if a < j {
        lemma_digit_end_run(s, a + 1, j);
    }
}

/// Whitespace, then an unsigned integer literal, as its value; fails on a
/// value above the largest surface integer.
pub open spec fn spec_integer(s: Seq<char>, pos: int) -> Option<(int, i64)> {
    let a = spec_ws_end(s, pos);
    if 0 <= a < s.len() && spec_is_digit(s[a]) {
        let j = digit_end(s, a);
        match crate::num::spec_parse_u64(s.subrange(a, j)) {
            Some(m) => if m <= i64::MAX as u64 {
                Some((j, m as i64))
            } else {
                None
            },
            None => None,
        }
    } else {
        None
    }
}

/// Decides whether the characters of `t` spell `s`.
pub(crate) fn word_is(t: &Vec<char>, s: &str) -> (r: bool)
    ensures
        r == (t@ == s@),
{
    let sv = string_to_chars(s);
    if t.len() != sv.len() {
        proof {
            assert(t@ != s@);
        }
        return false;
    }
    let mut i: usize = 0;
    while i < t.len()
        invariant
            0 <= i <= t@.len(),
            t@.len() == sv@.len() == s@.len(),
            sv@ == s@,
            forall|j: int| 0 <= j < i ==> t@[j] == s@[j],
        decreases t@.len() - i,
    {
        if t[i] != sv[i] {
            proof {
                assert(t@[i as int] != s@[i as int]);
            }
            return false;
        }
        i = i + 1;
    }
    proof {
        assert(t@ =~= s@);
    }
    true
}

/// Decides whether `s` is a keyword.
pub fn is_keyword(s: &Vec<char>) -> (r: bool)
    ensures
        r == spec_is_keyword(s@),
{
    word_is(s, "in") || word_is(s, "let") || word_is(s, "if") || word_is(s, "else") || word_is(
        s,
        "then",
    ) || word_is(s, "rec") || word_is(s, "and") || word_is(s, "match") || word_is(s, "end")
        || word_is(s, "datatype") || word_is(s, "int") || word_is(s, "bool") || word_is(s, "unit")
}

/// Skips whitespace and `--` line comments.  Whitespace is any run of blank,
/// tab, CR and LF, optionally interleaved with comments extending to the end
/// of their line.
pub fn skip_ws(v: &Vec<char>, pos: usize) -> (r: usize)
    requires
        pos <= v@.len(),
    ensures
        pos <= r <= v@.len(),
        r as int == spec_ws_end(v@, pos as int),
{
    let mut i: usize = pos;
    let n = v.len();
    while i < n
        invariant
            pos <= i <= n == v@.len(),
            spec_ws_end(v@, pos as int) == spec_ws_end(v@, i as int),
        decreases v@.len() - i,
    {
        let c = v[i];
        if c == ' ' || c == '\t' || c == '\r' || c == '\n' {
            i = i + 1;
        } else if c == '-' && i + 1 < n && v[i + 1] == '-' {
            let ghost i0 = i;
            i = i + 2;
            while i < n && v[i] != '\n'
                invariant
                    pos <= i <= n == v@.len(),
                    i0 + 2 <= i,
                    spec_ws_end(v@, pos as int) == spec_ws_end(v@, i0 as int),
                    comment_end(v@, i0 + 2) == comment_end(v@, i as int),
                decreases v@.len() - i,
            {
                i = i + 1;
            }
            proof {
                assert(comment_end(v@, i as int) == i as int);
                assert(spec_ws_end(v@, i0 as int) == spec_ws_end(v@, i as int));
            }
        } else {
            proof {
                assert(spec_ws_end(v@, i as int) == i as int);
            }
            return i;
        }
    }
    proof {
        assert(spec_ws_end(v@, i as int) == i as int);
    }
    i
}

/// Consumes the exact text `s` at `pos`, without leading whitespace.
fn tag(v: &Vec<char>, pos: usize, s: &str) -> (r: Option<usize>)
    requires
        pos <= v@.len(),
    ensures
        match r {
            Some(j) => pos <= j <= v@.len() && j - pos == s@.len() && spec_tag(
                v@,
                pos as int,
                s@,
            ) == Some(j as int),
            None => spec_tag(v@, pos as int, s@) is None,
        },
{
    let sv = string_to_chars(s);
    let n = v.len();
    if n - pos < sv.len() {
        return None;
    }
    let end = pos + sv.len();
    let mut i: usize = 0;
    while i < sv.len()
        invariant
            0 <= i <= sv@.len(),
            sv@ == s@,
            pos + sv@.len() == end <= n == v@.len(),
            forall|k: int| 0 <= k < i ==> v@[pos + k] == s@[k],
        decreases sv@.len() - i,
    {
        if v[pos + i] != sv[i] {
            proof {
                assert(v@.subrange(pos as int, pos + s@.len())[i as int] != s@[i as int]);
            }
            return None;
        }
        i = i + 1;
    }
    proof {
        assert(v@.subrange(pos as int, pos + s@.len()) =~= s@);
    }
    Some(end)
}

/// Skips whitespace, then consumes the exact text `s`; consumes at least one
/// character on success.
pub fn wstag(v: &Vec<char>, pos: usize, s: &str) -> (r: Option<usize>)
    requires
        pos <= v@.len(),
    ensures
        match r {
            Some(j) => pos < j <= v@.len() && spec_wstag(v@, pos as int, s@) == Some(j as int),
            None => spec_wstag(v@, pos as int, s@) is None,
        },
{
    let sv = string_to_chars(s);
    if sv.len() == 0 {
        return None;
    }
    let a = skip_ws(v, pos);
    match tag(v, a, s) {
        Some(j) => Some(j),
        None => None,
    }
}

/// Reads an identifier-shaped word at `pos` (no whitespace skipping):
/// keywords included.
pub fn identlike(v: &Vec<char>, pos: usize) -> (r: Option<(usize, Vec<char>)>)
    requires
        pos <= v@.len(),
    ensures
        match r {
            Some(done) => pos < done.0 <= v@.len() && spec_is_ident(done.1@) && spec_identlike(
                v@,
                pos as int,
            ) == Some((done.0 as int, done.1@)),
            None => spec_identlike(v@, pos as int) is None,
        },
{
    if pos >= v.len() || !is_ident_start(v[pos]) {
        return None;
    }
    let mut j: usize = pos + 1;
    let mut word: Vec<char> = Vec::new();
    word.push(v[pos]);
    while j < v.len() && is_ident_char(v[j])
        invariant
            pos < j <= v@.len(),
            word@.len() == j - pos,
            spec_is_ident(word@),
            word@ == v@.subrange(pos as int, j as int),
            forall|k: int| pos + 1 <= k < j ==> spec_is_ident_char(#[trigger] v@[k]),
        decreases v@.len() - j,
    {
        word.push(v[j]);
        proof {
            assert(word@ =~= v@.subrange(pos as int, j + 1));
        }
        j = j + 1;
    }
    proof {
        lemma_ident_end_run(v@, pos + 1, j as int);
    }
    Some((j, word))
}

/// Reads an identifier after whitespace: an identifier-shaped word that is
/// not a keyword.
pub fn ident(v: &Vec<char>, pos: usize) -> (r: Option<(usize, String)>)
    requires
        pos <= v@.len(),
    ensures
        match r {
            Some(done) => pos < done.0 <= v@.len() && spec_is_ident(done.1@)
                && !spec_is_keyword(done.1@) && spec_ident(v@, pos as int) == Some(
                (done.0 as int, done.1@),
            ),
            None => spec_ident(v@, pos as int) is None,
        },
{
    let a = skip_ws(v, pos);
    match identlike(v, a) {
        Some((j, word)) => {
            if is_keyword(&word) {
                None
            } else {
                Some((j, chars_to_string(&word)))
            }
        },
        None => None,
    }
}

/// Reads an unsigned integer literal after whitespace, as its value.
pub fn integer(v: &Vec<char>, pos: usize) -> (r: Option<(usize, i64)>)
    requires
        pos <= v@.len(),
    ensures
        match r {
            Some(done) => pos < done.0 <= v@.len() && done.1 >= 0 && spec_integer(
                v@,
                pos as int,
            ) == Some((done.0 as int, done.1)),
            None => spec_integer(v@, pos as int) is None,
        },
{
    let a = skip_ws(v, pos);
    if a >= v.len() || !is_digit(v[a]) {
        return None;
    }
    let mut j: usize = a;
    let mut digits: Vec<char> = Vec::new();
    while j < v.len() && is_digit(v[j])
        invariant
            pos <= a <= j <= v@.len(),
            digits@.len() == j - a,
            digits@ == v@.subrange(a as int, j as int),
            forall|k: int| a <= k < j ==> spec_is_digit(#[trigger] v@[k]),
            spec_is_digit(v@[a as int]),
            a as int == spec_ws_end(v@, pos as int),
        decreases v@.len() - j,
    {
        digits.push(v[j]);
        proof {
            assert(digits@ =~= v@.subrange(a as int, j + 1));
        }
        j = j + 1;
    }
    proof {
        lemma_digit_end_run(v@, a as int, j as int);
        assert(j > a);
    }
    match parse_u64(&digits) {
        Some(m) => if m <= i64::MAX as u64 {
            Some((j, m as i64))
        } else {
            None
        },
        None => None,
    }
}

/// Did a sub-parse hand back a position strictly past `from`, within the
/// text?  The executable layers always do; a mirror returns nothing when a
/// guard fails, so its recursion is well-founded by construction.
pub open spec fn advanced(s: Seq<char>, from: int, to: int) -> bool {
    from < to <= s.len()
}

/// Mirror of `ty_base`.
pub open spec fn spec_ty_base(s: Seq<char>, pos: int) -> Option<(int, TyV)> {
    match spec_identlike(s, spec_ws_end(s, pos)) {
        Some((j, w)) => if w == "int"@ {
            Some((j, TyV::IntTy))
        } else if w == "bool"@ {
            Some((j, TyV::BoolTy))
        } else if w == "unit"@ {
            Some((j, TyV::UnitTy))
        } else {
            None
        },
        None => None,
    }
}

/// Mirror of `ty_data_type`.
pub open spec fn spec_ty_data_type(s: Seq<char>, pos: int) -> Option<(int, TyV)> {
    match spec_ident(s, pos) {
        Some((j, w)) => Some((j, TyV::DataTy(w))),
        None => None,
    }
}

/// Mirror of `ty_paren`.
pub open spec fn spec_ty_paren(s: Seq<char>, pos: int) -> Option<(int, TyV)>
    decreases s.len() - pos, 0int,
{
    match spec_wstag(s, pos, "("@) {
        Some(a) => if advanced(s, pos, a) {
            match spec_ty(s, a) {
                Some((b, t)) => match spec_wstag(s, b, ")"@) {
                    Some(c) => Some((c, t)),
                    None => None,
                },
                None => None,
            }
        } else {
            None
        },
        None => None,
    }
}

/// Mirror of `ty_atom`.
pub open spec fn spec_ty_atom(s: Seq<char>, pos: int) -> Option<(int, TyV)>
    decreases s.len() - pos, 1int,
{
    match spec_ty_paren(s, pos) {
        Some(done) => Some(done),
        None => match spec_ty_base(s, pos) {
            Some(done) => Some(done),
            None => spec_ty_data_type(s, pos),
        },
    }
}

/// Mirror of `ty_lam`.
pub open spec fn spec_ty_lam(s: Seq<char>, pos: int) -> Option<(int, TyV)>
    decreases s.len() - pos, 2int,
{
    match spec_ty_atom(s, pos) {
        Some((a, head)) => if advanced(s, pos, a) {
            match spec_wstag(s, a, "->"@) {
                Some(b) => if advanced(s, a, b) {
                    match spec_ty_lam(s, b) {
                        Some((c, rest)) => Some(
                            (c, TyV::AbsTy(Box::new(head), Box::new(rest))),
                        ),
                        None => None,
                    }
                } else {
                    None
                },
                None => Some((a, head)),
            }
        } else {
            None
        },
        None => None,
    }
}

/// Mirror of `ty`.
pub open spec fn spec_ty(s: Seq<char>, pos: int) -> Option<(int, TyV)>
    decreases s.len() - pos, 3int,
{
    spec_ty_lam(s, pos)
}

/// Mirror of `unitlit`.
pub open spec fn spec_unitlit(s: Seq<char>, pos: int) -> Option<(int, ExprV)> {
    match spec_wstag(s, pos, "("@) {
        Some(a) => match spec_wstag(s, a, ")"@) {
            Some(b) => Some((b, ExprV::UnitLit {})),
            None => None,
        },
        None => None,
    }
}

/// Mirror of `intlit`.
pub open spec fn spec_intlit(s: Seq<char>, pos: int) -> Option<(int, ExprV)> {
    match spec_integer(s, pos) {
        Some((j, val)) => Some((j, ExprV::IntLit { val })),
        None => None,
    }
}

/// Mirror of `lit`.
pub open spec fn spec_lit(s: Seq<char>, pos: int) -> Option<(int, ExprV)> {
    match spec_unitlit(s, pos) {
        Some(done) => Some(done),
        None => spec_intlit(s, pos),
    }
}

/// Mirror of `ptn1`.
pub open spec fn spec_ptn1(s: Seq<char>, pos: int) -> Option<(int, MatchPatternV)>
    decreases s.len() - pos, 1int,
{
    match spec_ptn1_paren(s, pos) {
        Some(done) => Some(done),
        None => match spec_ptn1_lit(s, pos) {
            Some(done) => Some(done),
            None => match spec_ptn1_data(s, pos) {
                Some(done) => Some(done),
                None => spec_ptn1_binder(s, pos),
            },
        },
    }
}

/// Mirror of `ptn1_paren`.
pub open spec fn spec_ptn1_paren(s: Seq<char>, pos: int) -> Option<(int, MatchPatternV)>
    decreases s.len() - pos, 0int,
{
    match spec_wstag(s, pos, "("@) {
        Some(a) => if advanced(s, pos, a) {
            match spec_ptn(s, a) {
                Some((b, p)) => match spec_wstag(s, b, ")"@) {
                    Some(c) => Some((c, p)),
                    None => None,
                },
                None => None,
            }
        } else {
            None
        },
        None => None,
    }
}

/// Mirror of `ptn1_lit`.
pub open spec fn spec_ptn1_lit(s: Seq<char>, pos: int) -> Option<(int, MatchPatternV)> {
    match spec_lit(s, pos) {
        Some((j, val)) => Some((j, MatchPatternV::Lit { val: Box::new(val) })),
        None => None,
    }
}

/// Mirror of `ptn1_data`.
pub open spec fn spec_ptn1_data(s: Seq<char>, pos: int) -> Option<(int, MatchPatternV)>
    decreases s.len() - pos, 0int,
{
    match spec_ident(s, pos) {
        Some((a, ctor)) => if advanced(s, pos, a) {
            match spec_ptn1(s, a) {
                Some((b, first)) => if advanced(s, a, b) {
                    let (c, rest) = spec_ptn1_args(s, b);
                    Some((c, MatchPatternV::DataType { ctor, subs: seq![first] + rest }))
                } else {
                    None
                },
                None => None,
            }
        } else {
            None
        },
        None => None,
    }
}

/// Mirror of the argument run of a constructor pattern: sub-patterns as
/// long as one matches.
pub open spec fn spec_ptn1_args(s: Seq<char>, pos: int) -> (int, Seq<MatchPatternV>)
    decreases s.len() - pos, 2int,
{
    match spec_ptn1(s, pos) {
        Some((j, p)) => if advanced(s, pos, j) {
            let (k, rest) = spec_ptn1_args(s, j);
            (k, seq![p] + rest)
        } else {
            (pos, Seq::empty())
        },
        None => (pos, Seq::empty()),
    }
}

/// Mirror of `ptn1_binder`.
pub open spec fn spec_ptn1_binder(s: Seq<char>, pos: int) -> Option<(int, MatchPatternV)> {
    match spec_ident(s, pos) {
        Some((j, name)) => Some((j, MatchPatternV::Binder { name })),
        None => None,
    }
}

/// Mirror of the `, p` continuations of a pattern.
pub open spec fn spec_ptn_rest(s: Seq<char>, pos: int) -> Option<(int, Seq<MatchPatternV>)>
    decreases s.len() - pos, 2int,
{
    match spec_wstag(s, pos, ","@) {
        Some(b) => if advanced(s, pos, b) {
            match spec_ptn1(s, b) {
                Some((j, p)) => if advanced(s, b, j) {
                    match spec_ptn_rest(s, j) {
                        Some((c, rest)) => Some((c, seq![p] + rest)),
                        None => None,
                    }
                } else {
                    None
                },
                None => None,
            }
        } else {
            None
        },
        None => Some((pos, Seq::empty())),
    }
}

/// Mirror of `ptn`.
pub open spec fn spec_ptn(s: Seq<char>, pos: int) -> Option<(int, MatchPatternV)>
    decreases s.len() - pos, 3int,
{
    match spec_ptn1(s, pos) {
        Some((a, first)) => if advanced(s, pos, a) {
            match spec_ptn_rest(s, a) {
                Some((c, rest)) => if rest.len() == 0 {
                    Some((c, first))
                } else {
                    Some((c, MatchPatternV::Tuple { subs: seq![first] + rest }))
                },
                None => None,
            }
        } else {
            None
        },
        None => None,
    }
}

/// Parses a base type name: `int`, `bool` or `unit`.
pub fn ty_base(v: &Vec<char>, pos: usize) -> (r: Option<(usize, Ty)>)
    requires
        pos <= v@.len(),
    ensures
        r matches Some(done) ==> pos < done.0 <= v@.len(),
        ({
            let sr = spec_ty_base(v@, pos as int);
            match r {
                Some(done) => sr == Some((done.0 as int, done.1@)),
                None => sr is None,
            }
        }),
{
    let a = skip_ws(v, pos);
    match identlike(v, a) {
        Some((j, w)) => {
            if word_is(&w, "int") {
                Some((j, Ty::IntTy))
            } else if word_is(&w, "bool") {
                Some((j, Ty::BoolTy))
            } else if word_is(&w, "unit") {
                Some((j, Ty::UnitTy))
            } else {
                None
            }
        },
        None => None,
    }
}

/// Parses a data-type name as a type.
pub fn ty_data_type(v: &Vec<char>, pos: usize) -> (r: Option<(usize, Ty)>)
    requires
        pos <= v@.len(),
    ensures
        r matches Some(done) ==> pos < done.0 <= v@.len(),
        ({
            let sr = spec_ty_data_type(v@, pos as int);
            match r {
                Some(done) => sr == Some((done.0 as int, done.1@)),
                None => sr is None,
            }
        }),
{
    match ident(v, pos) {
        Some((j, name)) => Some((j, Ty::DataTy(name))),
        None => None,
    }
}

/// Parses a parenthesised type.
pub fn ty_paren(v: &Vec<char>, pos: usize) -> (r: Option<(usize, Ty)>)
    requires
        pos <= v@.len(),
    ensures
        r matches Some(done) ==> pos < done.0 <= v@.len(),
        ({
            let sr = spec_ty_paren(v@, pos as int);
            match r {
                Some(done) => sr == Some((done.0 as int, done.1@)),
                None => sr is None,
            }
        }),
    decreases v@.len() - pos, 0int,
{
    let a = wstag(v, pos, "(")?;
    let (b, t) = ty(v, a)?;
    let c = wstag(v, b, ")")?;
    Some((c, t))
}

/// Parses an atomic type: parenthesised, base, or a data-type name.
pub fn ty_atom(v: &Vec<char>, pos: usize) -> (r: Option<(usize, Ty)>)
    requires
        pos <= v@.len(),
    ensures
        r matches Some(done) ==> pos < done.0 <= v@.len(),
        ({
            let sr = spec_ty_atom(v@, pos as int);
            match r {
                Some(done) => sr == Some((done.0 as int, done.1@)),
                None => sr is None,
            }
        }),
    decreases v@.len() - pos, 1int,
{
    match ty_paren(v, pos) {
        Some(done) => Some(done),
        None => match ty_base(v, pos) {
            Some(done) => Some(done),
            None => ty_data_type(v, pos),
        },
    }
}

/// Parses arrow types: `T₁ -> T₂ -> T₃` associates to the right.
pub fn ty_lam(v: &Vec<char>, pos: usize) -> (r: Option<(usize, Ty)>)
    requires
        pos <= v@.len(),
    ensures
        r matches Some(done) ==> pos < done.0 <= v@.len(),
        ({
            let sr = spec_ty_lam(v@, pos as int);
            match r {
                Some(done) => sr == Some((done.0 as int, done.1@)),
                None => sr is None,
            }
        }),
    decreases v@.len() - pos, 2int,
{
    let (a, head) = ty_atom(v, pos)?;
    match wstag(v, a, "->") {
        Some(b) => {
            let (c, rest) = ty_lam(v, b)?;
            Some((c, Ty::AbsTy(Box::new(head), Box::new(rest))))
        },
        None => Some((a, head)),
    }
}

/// Parses a type.
pub fn ty(v: &Vec<char>, pos: usize) -> (r: Option<(usize, Ty)>)
    requires
        pos <= v@.len(),
    ensures
        r matches Some(done) ==> pos < done.0 <= v@.len(),
        ({
            let sr = spec_ty(v@, pos as int);
            match r {
                Some(done) => sr == Some((done.0 as int, done.1@)),
                None => sr is None,
            }
        }),
    decreases v@.len() - pos, 3int,
{
    ty_lam(v, pos)
}

/// Parses a literal pattern or expression atom: unit or an integer.
pub fn lit(v: &Vec<char>, pos: usize) -> (r: Option<(usize, Expr)>)
    requires
        pos <= v@.len(),
    ensures
        r matches Some(done) ==> pos < done.0 <= v@.len() && no_small_seq(done.1@),
        ({
            let sr = spec_lit(v@, pos as int);
            match r {
                Some(done) => sr == Some((done.0 as int, done.1@)),
                None => sr is None,
            }
        }),
{
    match unitlit(v, pos) {
        Some(done) => Some(done),
        None => intlit(v, pos),
    }
}

/// Parses the unit literal `( )`.
pub fn unitlit(v: &Vec<char>, pos: usize) -> (r: Option<(usize, Expr)>)
    requires
        pos <= v@.len(),
    ensures
        r matches Some(done) ==> pos < done.0 <= v@.len() && no_small_seq(done.1@),
        ({
            let sr = spec_unitlit(v@, pos as int);
            match r {
                Some(done) => sr == Some((done.0 as int, done.1@)),
                None => sr is None,
            }
        }),
{
    let a = wstag(v, pos, "(")?;
    let b = wstag(v, a, ")")?;
    Some((b, Expr::UnitLit {}))
}

/// Parses an integer literal.
pub fn intlit(v: &Vec<char>, pos: usize) -> (r: Option<(usize, Expr)>)
    requires
        pos <= v@.len(),
    ensures
        r matches Some(done) ==> pos < done.0 <= v@.len() && no_small_seq(done.1@),
        ({
            let sr = spec_intlit(v@, pos as int);
            match r {
                Some(done) => sr == Some((done.0 as int, done.1@)),
                None => sr is None,
            }
        }),
{
    match integer(v, pos) {
        Some((j, val)) => Some((j, Expr::IntLit { val })),
        None => None,
    }
}

/// Parses one pattern alternative: parenthesised, literal, a constructor
/// applied to at least one sub-pattern, or a binder.
pub fn ptn1(v: &Vec<char>, pos: usize) -> (r: Option<(usize, MatchPattern)>)
    requires
        pos <= v@.len(),
    ensures
        r matches Some(done) ==> pos < done.0 <= v@.len(),
        ({
            let sr = spec_ptn1(v@, pos as int);
            match r {
                Some(done) => sr == Some((done.0 as int, done.1@)),
                None => sr is None,
            }
        }),
    decreases v@.len() - pos, 1int,
{
    match ptn1_paren(v, pos) {
        Some(done) => Some(done),
        None => match ptn1_lit(v, pos) {
            Some(done) => Some(done),
            None => match ptn1_data(v, pos) {
                Some(done) => Some(done),
                None => ptn1_binder(v, pos),
            },
        },
    }
}

/// Parses a parenthesised pattern.
pub fn ptn1_paren(v: &Vec<char>, pos: usize) -> (r: Option<(usize, MatchPattern)>)
    requires
        pos <= v@.len(),
    ensures
        r matches Some(done) ==> pos < done.0 <= v@.len(),
        ({
            let sr = spec_ptn1_paren(v@, pos as int);
            match r {
                Some(done) => sr == Some((done.0 as int, done.1@)),
                None => sr is None,
            }
        }),
    decreases v@.len() - pos, 0int,
{
    let a = wstag(v, pos, "(")?;
    let (b, p) = ptn(v, a)?;
    let c = wstag(v, b, ")")?;
    Some((c, p))
}

/// Parses a literal pattern.
pub fn ptn1_lit(v: &Vec<char>, pos: usize) -> (r: Option<(usize, MatchPattern)>)
    requires
        pos <= v@.len(),
    ensures
        r matches Some(done) ==> pos < done.0 <= v@.len(),
        ({
            let sr = spec_ptn1_lit(v@, pos as int);
            match r {
                Some(done) => sr == Some((done.0 as int, done.1@)),
                None => sr is None,
            }
        }),
{
    match lit(v, pos) {
        Some((j, val)) => Some((j, MatchPattern::Lit { val })),
        None => None,
    }
}

/// Parses a constructor pattern: a name applied to at least one sub-pattern.
/// A bare name is always a binder, so a constructor without arguments cannot
/// be written at pattern position.
pub fn ptn1_data(v: &Vec<char>, pos: usize) -> (r: Option<(usize, MatchPattern)>)
    requires
        pos <= v@.len(),
    ensures
        r matches Some(done) ==> pos < done.0 <= v@.len(),
        ({
            let sr = spec_ptn1_data(v@, pos as int);
            match r {
                Some(done) => sr == Some((done.0 as int, done.1@)),
                None => sr is None,
            }
        }),
    decreases v@.len() - pos, 0int,
{
    let (a, ctor) = ident(v, pos)?;
    let (b, first) = ptn1(v, a)?;
    let (cur, rest) = ptn1_args(v, b);
    let ghost firstg = first;
    let ghost restg = rest@;
    let mut subs: Vec<MatchPattern> = Vec::new();
    subs.push(first);
    let mut rest2 = rest;
    subs.append(&mut rest2);
    proof {
        assert(subs@ =~= seq![firstg] + restg);
        lemma_pattern_prepend(firstg, restg);
    }
    Some((cur, MatchPattern::DataType { ctor, subs }))
}

/// Parses the argument run of a constructor pattern: sub-patterns as long
/// as one matches.
fn ptn1_args(v: &Vec<char>, pos: usize) -> (r: (usize, Vec<MatchPattern>))
    requires
        pos <= v@.len(),
    ensures
        pos <= r.0 <= v@.len(),
        spec_ptn1_args(v@, pos as int).0 == r.0 as int,
        spec_ptn1_args(v@, pos as int).1 == crate::ast::pattern_models(r.1@),
    decreases v@.len() - pos, 2int,
{
    match ptn1(v, pos) {
        Some((j, p)) => {
            let (k, rest) = ptn1_args(v, j);
            let ghost pg = p;
            let ghost restg = rest@;
            let mut out: Vec<MatchPattern> = Vec::new();
            out.push(p);
            let mut rest2 = rest;
            out.append(&mut rest2);
            proof {
                assert(out@ =~= seq![pg] + restg);
                lemma_pattern_prepend(pg, restg);
            }
            (k, out)
        },
        None => {
            let out: Vec<MatchPattern> = Vec::new();
            proof {
                assert(crate::ast::pattern_models(out@) =~= Seq::<MatchPatternV>::empty());
            }
            (pos, out)
        },
    }
}


/// Prepending one expression prepends its model.
proof fn lemma_expr_prepend(e: Expr, rest: Seq<Expr>)
    ensures
        crate::ast::expr_models(seq![e] + rest) == seq![e.model()] + crate::ast::expr_models(rest),
{
    let whole = seq![e] + rest;
    crate::ast::lemma_expr_models(whole);
    crate::ast::lemma_expr_models(rest);
    assert forall|q: int|
        0 <= q < whole.len() implies crate::ast::expr_models(whole)[q] == (seq![e.model()]
        + crate::ast::expr_models(rest))[q] by {
        if q == 0 {
            assert(whole[0] == e);
        } else {
            assert(whole[q] == rest[q - 1]);
        }
    }
    assert(crate::ast::expr_models(whole) =~= seq![e.model()] + crate::ast::expr_models(rest));
}

/// Prepending one `match` arm prepends its model.
proof fn lemma_matcharm_prepend(a: MatchArm, rest: Seq<MatchArm>)
    ensures
        crate::ast::matcharm_models(seq![a] + rest) == seq![a.model()]
            + crate::ast::matcharm_models(rest),
{
    let whole = seq![a] + rest;
    crate::ast::lemma_matcharm_models(whole);
    crate::ast::lemma_matcharm_models(rest);
    assert forall|q: int|
        0 <= q < whole.len() implies crate::ast::matcharm_models(whole)[q] == (seq![a.model()]
        + crate::ast::matcharm_models(rest))[q] by {
        if q == 0 {
            assert(whole[0] == a);
        } else {
            assert(whole[q] == rest[q - 1]);
        }
    }
    assert(crate::ast::matcharm_models(whole) =~= seq![a.model()] + crate::ast::matcharm_models(
        rest,
    ));
}

/// Prepending one `let rec` arm prepends its model.
proof fn lemma_letrecarm_prepend(a: LetRecArm, rest: Seq<LetRecArm>)
    ensures
        crate::ast::letrecarm_models(seq![a] + rest) == seq![a.model()]
            + crate::ast::letrecarm_models(rest),
{
    let whole = seq![a] + rest;
    crate::ast::lemma_letrecarm_models(whole);
    crate::ast::lemma_letrecarm_models(rest);
    assert forall|q: int|
        0 <= q < whole.len() implies crate::ast::letrecarm_models(whole)[q] == (seq![a.model()]
        + crate::ast::letrecarm_models(rest))[q] by {
        if q == 0 {
            assert(whole[0] == a);
        } else {
            assert(whole[q] == rest[q - 1]);
        }
    }
    assert(crate::ast::letrecarm_models(whole) =~= seq![a.model()]
        + crate::ast::letrecarm_models(rest));
}

/// Prepending one pattern prepends its model.
proof fn lemma_pattern_prepend(p: MatchPattern, rest: Seq<MatchPattern>)
    ensures
        crate::ast::pattern_models(seq![p] + rest) == seq![p.model()] + crate::ast::pattern_models(
            rest,
        ),
{
    let whole = seq![p] + rest;
    crate::ast::lemma_pattern_models(whole);
    crate::ast::lemma_pattern_models(rest);
    assert forall|q: int|
        0 <= q < whole.len() implies crate::ast::pattern_models(whole)[q] == (seq![p.model()]
        + crate::ast::pattern_models(rest))[q] by {
        if q == 0 {
            assert(whole[0] == p);
        } else {
            assert(whole[q] == rest[q - 1]);
        }
    }
    assert(crate::ast::pattern_models(whole) =~= seq![p.model()] + crate::ast::pattern_models(
        rest,
    ));
}

/// Parses a binder pattern.
pub fn ptn1_binder(v: &Vec<char>, pos: usize) -> (r: Option<(usize, MatchPattern)>)
    requires
        pos <= v@.len(),
    ensures
        r matches Some(done) ==> pos < done.0 <= v@.len(),
        ({
            let sr = spec_ptn1_binder(v@, pos as int);
            match r {
                Some(done) => sr == Some((done.0 as int, done.1@)),
                None => sr is None,
            }
        }),
{
    match ident(v, pos) {
        Some((j, name)) => Some((j, MatchPattern::Binder { name })),
        None => None,
    }
}

/// Parses a pattern: a comma-separated tuple collapses to its only part
/// when it has one.
pub fn ptn(v: &Vec<char>, pos: usize) -> (r: Option<(usize, MatchPattern)>)
    requires
        pos <= v@.len(),
    ensures
        r matches Some(done) ==> pos < done.0 <= v@.len(),
        ({
            let sr = spec_ptn(v@, pos as int);
            match r {
                Some(done) => sr == Some((done.0 as int, done.1@)),
                None => sr is None,
            }
        }),
    decreases v@.len() - pos, 3int,
{
    let (a, first) = ptn1(v, pos)?;
    match ptn_rest(v, a) {
        Some((c, rest)) => {
            if rest.len() == 0 {
                Some((c, first))
            } else {
                let ghost firstg = first;
                let ghost restg = rest@;
                let mut subs: Vec<MatchPattern> = Vec::new();
                subs.push(first);
                let mut rest2 = rest;
                subs.append(&mut rest2);
                proof {
                    assert(subs@ =~= seq![firstg] + restg);
                    lemma_pattern_prepend(firstg, restg);
                }
                Some((c, MatchPattern::Tuple { subs }))
            }
        },
        None => None,
    }
}

/// Parses the `, p` continuations of a pattern.
fn ptn_rest(v: &Vec<char>, pos: usize) -> (r: Option<(usize, Vec<MatchPattern>)>)
    requires
        pos <= v@.len(),
    ensures
        r matches Some(done) ==> pos <= done.0 <= v@.len(),
        ({
            let sr = spec_ptn_rest(v@, pos as int);
            match r {
                Some(done) => sr == Some(
                    (done.0 as int, crate::ast::pattern_models(done.1@)),
                ),
                None => sr is None,
            }
        }),
    decreases v@.len() - pos, 2int,
{
    match wstag(v, pos, ",") {
        Some(b) => match ptn1(v, b) {
            Some((j, p)) => match ptn_rest(v, j) {
                Some((c, rest)) => {
                    let ghost pg = p;
                    let ghost restg = rest@;
                    let mut out: Vec<MatchPattern> = Vec::new();
                    out.push(p);
                    let mut rest2 = rest;
                    out.append(&mut rest2);
                    proof {
                        assert(out@ =~= seq![pg] + restg);
                        lemma_pattern_prepend(pg, restg);
                    }
                    Some((c, out))
                },
                None => None,
            },
            None => None,
        },
        None => {
            let out: Vec<MatchPattern> = Vec::new();
            proof {
                assert(crate::ast::pattern_models(out@) =~= Seq::<MatchPatternV>::empty());
            }
            Some((pos, out))
        },
    }
}

/// Mirror of `builtin`.
pub open spec fn spec_builtin(s: Seq<char>, pos: int) -> Option<(int, ExprV)> {
    match spec_identlike(s, spec_ws_end(s, pos)) {
        Some((j, w)) => if w == "println"@ {
            Some((j, ExprV::Builtin { op: BuiltinOp::Println }))
        } else if w == "true"@ {
            Some((j, ExprV::Builtin { op: BuiltinOp::True }))
        } else if w == "false"@ {
            Some((j, ExprV::Builtin { op: BuiltinOp::False }))
        } else if w == "nth"@ {
            Some((j, ExprV::Builtin { op: BuiltinOp::Nth }))
        } else {
            None
        },
        None => None,
    }
}

/// Mirror of `nth`.
#[verifier::opaque]
pub open spec fn spec_nth(s: Seq<char>, pos: int) -> Option<(int, ExprV)>
    decreases s.len() - pos, 0int,
{
    match spec_identlike(s, spec_ws_end(s, pos)) {
        Some((b, w)) => if w == "nth"@ {
            match spec_integer(s, b) {
                Some((c, idx)) => if advanced(s, pos, c) {
                    match spec_expr(s, c) {
                        Some((d, sub)) => Some((d, ExprV::Nth { idx, sub: Box::new(sub) })),
                        None => None,
                    }
                } else {
                    None
                },
                None => None,
            }
        } else {
            None
        },
        None => None,
    }
}

/// Mirror of `paren`.
#[verifier::opaque]
pub open spec fn spec_paren(s: Seq<char>, pos: int) -> Option<(int, ExprV)>
    decreases s.len() - pos, 0int,
{
    match spec_wstag(s, pos, "("@) {
        Some(a) => if advanced(s, pos, a) {
            match spec_expr(s, a) {
                Some((b, e)) => match spec_wstag(s, b, ")"@) {
                    Some(c) => Some((c, e)),
                    None => None,
                },
                None => None,
            }
        } else {
            None
        },
        None => None,
    }
}

/// Mirror of `tuplee`.
#[verifier::opaque]
pub open spec fn spec_tuplee(s: Seq<char>, pos: int) -> Option<(int, ExprV)>
    decreases s.len() - pos, 0int,
{
    match spec_wstag(s, pos, "("@) {
        Some(a) => if advanced(s, pos, a) {
            match spec_expr(s, a) {
                Some((b, first)) => if advanced(s, pos, b) {
                    match spec_tuple_rest(s, b) {
                        Some((c, rest)) => if 1 + rest.len() < 2 {
                            None
                        } else {
                            match spec_wstag(s, c, ")"@) {
                                Some(d) => Some(
                                    (d, ExprV::Tuple { subs: seq![first] + rest }),
                                ),
                                None => None,
                            }
                        },
                        None => None,
                    }
                } else {
                    None
                },
                None => None,
            }
        } else {
            None
        },
        None => None,
    }
}

/// Mirror of the `, e` continuations of a tuple.
#[verifier::opaque]
pub open spec fn spec_tuple_rest(s: Seq<char>, pos: int) -> Option<(int, Seq<ExprV>)>
    decreases s.len() - pos, 0int,
{
    match spec_wstag(s, pos, ","@) {
        Some(b) => if advanced(s, pos, b) {
            match spec_expr(s, b) {
                Some((j, e)) => if advanced(s, pos, j) && b < j {
                    match spec_tuple_rest(s, j) {
                        Some((c, rest)) => Some((c, seq![e] + rest)),
                        None => None,
                    }
                } else {
                    None
                },
                None => None,
            }
        } else {
            None
        },
        None => Some((pos, Seq::empty())),
    }
}

/// Mirror of `atom`.
pub open spec fn spec_atom(s: Seq<char>, pos: int) -> Option<(int, ExprV)>
    decreases s.len() - pos, 1int,
{
    match spec_lit(s, pos) {
        Some(done) => Some(done),
        None => match spec_nth(s, pos) {
            Some(done) => Some(done),
            None => match spec_builtin(s, pos) {
                Some(done) => Some(done),
                None => match spec_ident(s, pos) {
                    Some((j, id)) => Some((j, ExprV::VarRef { id })),
                    None => match spec_paren(s, pos) {
                        Some(done) => Some(done),
                        None => spec_tuplee(s, pos),
                    },
                },
            },
        },
    }
}

/// Mirror of the atom run of an application, folding to the left.
pub open spec fn spec_app_rest(s: Seq<char>, pos: int, acc: ExprV) -> Option<(int, ExprV)>
    decreases s.len() - pos, 2int,
{
    match spec_atom(s, pos) {
        Some((j, arg)) => if advanced(s, pos, j) {
            spec_app_rest(s, j, ExprV::App { fun: Box::new(acc), arg: Box::new(arg) })
        } else {
            Some((pos, acc))
        },
        None => Some((pos, acc)),
    }
}

/// Mirror of `app`.
pub open spec fn spec_app(s: Seq<char>, pos: int) -> Option<(int, ExprV)>
    decreases s.len() - pos, 2int,
{
    match spec_atom(s, pos) {
        Some((a, head)) => if advanced(s, pos, a) {
            spec_app_rest(s, a, head)
        } else {
            None
        },
        None => None,
    }
}

/// Mirror of `una_op`.
pub open spec fn spec_una_op(s: Seq<char>, pos: int) -> Option<(int, UnaOp)> {
    match spec_wstag(s, pos, "!"@) {
        Some(j) => Some((j, UnaOp::Lnot)),
        None => match spec_wstag(s, pos, "-"@) {
            Some(j) => Some((j, UnaOp::Neg)),
            None => None,
        },
    }
}

/// Mirror of `mul_op`.
pub open spec fn spec_mul_op(s: Seq<char>, pos: int) -> Option<(int, BinOp)> {
    match spec_wstag(s, pos, "*"@) {
        Some(j) => Some((j, BinOp::Mul)),
        None => match spec_wstag(s, pos, "/"@) {
            Some(j) => Some((j, BinOp::Div)),
            None => match spec_wstag(s, pos, "%"@) {
                Some(j) => Some((j, BinOp::Rem)),
                None => None,
            },
        },
    }
}

/// Mirror of `add_op`.
pub open spec fn spec_add_op(s: Seq<char>, pos: int) -> Option<(int, BinOp)> {
    match spec_wstag(s, pos, "+"@) {
        Some(j) => Some((j, BinOp::Add)),
        None => match spec_wstag(s, pos, "-"@) {
            Some(j) => Some((j, BinOp::Sub)),
            None => None,
        },
    }
}

/// Mirror of `rel_op`: the two-character operators are tried first.
pub open spec fn spec_rel_op(s: Seq<char>, pos: int) -> Option<(int, BinOp)> {
    match spec_wstag(s, pos, ">="@) {
        Some(j) => Some((j, BinOp::Ge)),
        None => match spec_wstag(s, pos, "<="@) {
            Some(j) => Some((j, BinOp::Le)),
            None => match spec_wstag(s, pos, ">"@) {
                Some(j) => Some((j, BinOp::Gt)),
                None => match spec_wstag(s, pos, "<"@) {
                    Some(j) => Some((j, BinOp::Lt)),
                    None => None,
                },
            },
        },
    }
}

/// Mirror of `eq_op`.
pub open spec fn spec_eq_op(s: Seq<char>, pos: int) -> Option<(int, BinOp)> {
    match spec_wstag(s, pos, "=="@) {
        Some(j) => Some((j, BinOp::Eq)),
        None => match spec_wstag(s, pos, "!="@) {
            Some(j) => Some((j, BinOp::Ne)),
            None => None,
        },
    }
}

/// Mirror of `una`.
pub open spec fn spec_una(s: Seq<char>, pos: int) -> Option<(int, ExprV)>
    decreases s.len() - pos, 3int,
{
    match spec_una_op(s, pos) {
        Some((a, op)) => if advanced(s, pos, a) {
            match spec_una(s, a) {
                Some((b, sub)) => Some((b, ExprV::Unary { op, sub: Box::new(sub) })),
                None => None,
            }
        } else {
            None
        },
        None => spec_app(s, pos),
    }
}

/// Mirror of the operator continuations of a multiplicative chain.
pub open spec fn spec_mul_rest(s: Seq<char>, pos: int, acc: ExprV) -> Option<(int, ExprV)>
    decreases s.len() - pos, 4int,
{
    match spec_mul_op(s, pos) {
        Some((b, op)) => if advanced(s, pos, b) {
            match spec_una(s, b) {
                Some((j, rhs)) => if advanced(s, pos, j) && b < j {
                    spec_mul_rest(
                        s,
                        j,
                        ExprV::Binary { lhs: Box::new(acc), op, rhs: Box::new(rhs) },
                    )
                } else {
                    None
                },
                None => None,
            }
        } else {
            None
        },
        None => Some((pos, acc)),
    }
}

/// Mirror of `mul`.
pub open spec fn spec_mul(s: Seq<char>, pos: int) -> Option<(int, ExprV)>
    decreases s.len() - pos, 4int,
{
    match spec_una(s, pos) {
        Some((a, head)) => if advanced(s, pos, a) {
            spec_mul_rest(s, a, head)
        } else {
            None
        },
        None => None,
    }
}

/// Mirror of the operator continuations of an additive chain.
pub open spec fn spec_add_rest(s: Seq<char>, pos: int, acc: ExprV) -> Option<(int, ExprV)>
    decreases s.len() - pos, 5int,
{
    match spec_add_op(s, pos) {
        Some((b, op)) => if advanced(s, pos, b) {
            match spec_mul(s, b) {
                Some((j, rhs)) => if advanced(s, pos, j) && b < j {
                    spec_add_rest(
                        s,
                        j,
                        ExprV::Binary { lhs: Box::new(acc), op, rhs: Box::new(rhs) },
                    )
                } else {
                    None
                },
                None => None,
            }
        } else {
            None
        },
        None => Some((pos, acc)),
    }
}

/// Mirror of `add`.
pub open spec fn spec_add(s: Seq<char>, pos: int) -> Option<(int, ExprV)>
    decreases s.len() - pos, 5int,
{
    match spec_mul(s, pos) {
        Some((a, head)) => if advanced(s, pos, a) {
            spec_add_rest(s, a, head)
        } else {
            None
        },
        None => None,
    }
}

/// Mirror of the operator continuations of a relational chain.
pub open spec fn spec_rel_rest(s: Seq<char>, pos: int, acc: ExprV) -> Option<(int, ExprV)>
    decreases s.len() - pos, 6int,
{
    match spec_rel_op(s, pos) {
        Some((b, op)) => if advanced(s, pos, b) {
            match spec_add(s, b) {
                Some((j, rhs)) => if advanced(s, pos, j) && b < j {
                    spec_rel_rest(
                        s,
                        j,
                        ExprV::Binary { lhs: Box::new(acc), op, rhs: Box::new(rhs) },
                    )
                } else {
                    None
                },
                None => None,
            }
        } else {
            None
        },
        None => Some((pos, acc)),
    }
}

/// Mirror of `rel`.
pub open spec fn spec_rel(s: Seq<char>, pos: int) -> Option<(int, ExprV)>
    decreases s.len() - pos, 6int,
{
    match spec_add(s, pos) {
        Some((a, head)) => if advanced(s, pos, a) {
            spec_rel_rest(s, a, head)
        } else {
            None
        },
        None => None,
    }
}

/// Mirror of the operator continuations of an equality chain.
pub open spec fn spec_eq_rest(s: Seq<char>, pos: int, acc: ExprV) -> Option<(int, ExprV)>
    decreases s.len() - pos, 7int,
{
    match spec_eq_op(s, pos) {
        Some((b, op)) => if advanced(s, pos, b) {
            match spec_rel(s, b) {
                Some((j, rhs)) => if advanced(s, pos, j) && b < j {
                    spec_eq_rest(
                        s,
                        j,
                        ExprV::Binary { lhs: Box::new(acc), op, rhs: Box::new(rhs) },
                    )
                } else {
                    None
                },
                None => None,
            }
        } else {
            None
        },
        None => Some((pos, acc)),
    }
}

/// Mirror of `eq`.
pub open spec fn spec_eq(s: Seq<char>, pos: int) -> Option<(int, ExprV)>
    decreases s.len() - pos, 7int,
{
    match spec_rel(s, pos) {
        Some((a, head)) => if advanced(s, pos, a) {
            spec_eq_rest(s, a, head)
        } else {
            None
        },
        None => None,
    }
}

/// Mirror of `ite1`.
pub open spec fn spec_ite1(s: Seq<char>, pos: int) -> Option<(int, ExprV)>
    decreases s.len() - pos, 8int,
{
    match spec_wstag(s, pos, "if"@) {
        Some(a) => if advanced(s, pos, a) {
            match spec_eq(s, a) {
                Some((b, cond)) => match spec_wstag(s, b, "then"@) {
                    Some(c) => if advanced(s, pos, c) {
                        match spec_eq(s, c) {
                            Some((d, tr)) => match spec_wstag(s, d, "else"@) {
                                Some(e) => if advanced(s, pos, e) {
                                    match spec_ite(s, e) {
                                        Some((f, fl)) => Some(
                                            (
                                                f,
                                                ExprV::Ite {
                                                    cond: Box::new(cond),
                                                    tr: Box::new(tr),
                                                    fl: Box::new(fl),
                                                },
                                            ),
                                        ),
                                        None => None,
                                    }
                                } else {
                                    None
                                },
                                None => None,
                            },
                            None => None,
                        }
                    } else {
                        None
                    },
                    None => None,
                },
                None => None,
            }
        } else {
            None
        },
        None => None,
    }
}

/// Mirror of `ite`.
pub open spec fn spec_ite(s: Seq<char>, pos: int) -> Option<(int, ExprV)>
    decreases s.len() - pos, 9int,
{
    match spec_ite1(s, pos) {
        Some(done) => Some(done),
        None => spec_eq(s, pos),
    }
}

/// Mirror of the `; e` continuations of a sequence.
pub open spec fn spec_seq_rest(s: Seq<char>, pos: int) -> Option<(int, Seq<ExprV>)>
    decreases s.len() - pos, 10int,
{
    match spec_wstag(s, pos, ";"@) {
        Some(b) => if advanced(s, pos, b) {
            match spec_ite(s, b) {
                Some((j, e)) => if advanced(s, pos, j) && b < j {
                    match spec_seq_rest(s, j) {
                        Some((c, rest)) => Some((c, seq![e] + rest)),
                        None => None,
                    }
                } else {
                    None
                },
                None => None,
            }
        } else {
            None
        },
        None => Some((pos, Seq::empty())),
    }
}

/// Mirror of `sequence`: one part stays the part itself.
pub open spec fn spec_sequence(s: Seq<char>, pos: int) -> Option<(int, ExprV)>
    decreases s.len() - pos, 10int,
{
    match spec_ite(s, pos) {
        Some((a, first)) => if advanced(s, pos, a) {
            match spec_seq_rest(s, a) {
                Some((c, rest)) => if rest.len() == 0 {
                    Some((c, first))
                } else {
                    Some((c, ExprV::Sequence { subs: seq![first] + rest }))
                },
                None => None,
            }
        } else {
            None
        },
        None => None,
    }
}

/// Mirror of `lam1`.
pub open spec fn spec_lam1(s: Seq<char>, pos: int) -> Option<(int, ExprV)>
    decreases s.len() - pos, 10int,
{
    match spec_wstag(s, pos, "\\"@) {
        Some(a) => if advanced(s, pos, a) {
            match spec_ident(s, a) {
                Some((b, arg_name)) => {
                    let annotated = spec_wstag(s, b, ":"@);
                    let cd: (int, TyV) = match annotated {
                        Some(c0) => match spec_ty(s, c0) {
                            Some((c1, t)) => (c1, t),
                            None => (c0, TyV::UnkTy),
                        },
                        None => (b, TyV::UnkTy),
                    };
                    if (match annotated {
                        Some(c0) => spec_ty(s, c0) is Some,
                        None => true,
                    }) {
                        match spec_wstag(s, cd.0, "->"@) {
                            Some(d) => if advanced(s, pos, d) {
                                match spec_expr(s, d) {
                                    Some((e, body)) => Some(
                                        (
                                            e,
                                            ExprV::Abs {
                                                arg_name,
                                                arg_ty: cd.1,
                                                body: Box::new(body),
                                            },
                                        ),
                                    ),
                                    None => None,
                                }
                            } else {
                                None
                            },
                            None => None,
                        }
                    } else {
                        None
                    }
                },
                None => None,
            }
        } else {
            None
        },
        None => None,
    }
}

/// Mirror of `lam`.
pub open spec fn spec_lam(s: Seq<char>, pos: int) -> Option<(int, ExprV)>
    decreases s.len() - pos, 11int,
{
    match spec_lam1(s, pos) {
        Some(done) => Some(done),
        None => spec_sequence(s, pos),
    }
}

/// Mirror of `mat1arm`.
pub open spec fn spec_mat1arm(s: Seq<char>, pos: int) -> Option<(int, MatchArmV)>
    decreases s.len() - pos, 11int,
{
    match spec_wstag(s, pos, "|"@) {
        Some(a) => if advanced(s, pos, a) {
            match spec_ptn(s, a) {
                Some((b, p)) => match spec_wstag(s, b, "->"@) {
                    Some(c) => if advanced(s, pos, c) {
                        match spec_expr(s, c) {
                            Some((d, res)) => Some(
                                (d, MatchArmV { ptn: p, res: Box::new(res) }),
                            ),
                            None => None,
                        }
                    } else {
                        None
                    },
                    None => None,
                },
                None => None,
            }
        } else {
            None
        },
        None => None,
    }
}

/// Mirror of the arm run of a `match`.
pub open spec fn spec_matcharms_rest(s: Seq<char>, pos: int) -> (int, Seq<MatchArmV>)
    decreases s.len() - pos, 12int,
{
    match spec_mat1arm(s, pos) {
        Some((j, arm)) => if advanced(s, pos, j) {
            let (k, rest) = spec_matcharms_rest(s, j);
            (k, seq![arm] + rest)
        } else {
            (pos, Seq::empty())
        },
        None => (pos, Seq::empty()),
    }
}

/// Mirror of `mat1`.
pub open spec fn spec_mat1(s: Seq<char>, pos: int) -> Option<(int, ExprV)>
    decreases s.len() - pos, 12int,
{
    match spec_wstag(s, pos, "match"@) {
        Some(a) => if advanced(s, pos, a) {
            match spec_expr(s, a) {
                Some((b, sub)) => if advanced(s, pos, b) {
                    match spec_mat1arm(s, b) {
                        Some((c, first)) => if advanced(s, pos, c) {
                            let (e, rest) = spec_matcharms_rest(s, c);
                            match spec_wstag(s, e, "end"@) {
                                Some(d) => Some(
                                    (
                                        d,
                                        ExprV::Match {
                                            sub: Box::new(sub),
                                            arms: seq![first] + rest,
                                        },
                                    ),
                                ),
                                None => None,
                            }
                        } else {
                            None
                        },
                        None => None,
                    }
                } else {
                    None
                },
                None => None,
            }
        } else {
            None
        },
        None => None,
    }
}

/// Mirror of `mat`.
pub open spec fn spec_mat(s: Seq<char>, pos: int) -> Option<(int, ExprV)>
    decreases s.len() - pos, 13int,
{
    match spec_mat1(s, pos) {
        Some(done) => Some(done),
        None => spec_lam(s, pos),
    }
}

/// Mirror of `let1`.
pub open spec fn spec_let1(s: Seq<char>, pos: int) -> Option<(int, ExprV)>
    decreases s.len() - pos, 13int,
{
    match spec_wstag(s, pos, "let"@) {
        Some(a) => if advanced(s, pos, a) {
            match spec_ident(s, a) {
                Some((b, name)) => {
                    let annotated = spec_wstag(s, b, ":"@);
                    let cd: (int, TyV) = match annotated {
                        Some(c0) => match spec_ty(s, c0) {
                            Some((c1, t)) => (c1, t),
                            None => (c0, TyV::UnkTy),
                        },
                        None => (b, TyV::UnkTy),
                    };
                    if (match annotated {
                        Some(c0) => spec_ty(s, c0) is Some,
                        None => true,
                    }) {
                        match spec_wstag(s, cd.0, "="@) {
                            Some(d) => if advanced(s, pos, d) {
                                match spec_expr(s, d) {
                                    Some((e, val)) => match spec_wstag(s, e, "in"@) {
                                        Some(f) => if advanced(s, pos, f) {
                                            match spec_expr(s, f) {
                                                Some((g, body)) => Some(
                                                    (
                                                        g,
                                                        ExprV::Let {
                                                            name,
                                                            ty: cd.1,
                                                            val: Box::new(val),
                                                            body: Box::new(body),
                                                        },
                                                    ),
                                                ),
                                                None => None,
                                            }
                                        } else {
                                            None
                                        },
                                        None => None,
                                    },
                                    None => None,
                                }
                            } else {
                                None
                            },
                            None => None,
                        }
                    } else {
                        None
                    }
                },
                None => None,
            }
        } else {
            None
        },
        None => None,
    }
}

/// Mirror of `let2arm`.
pub open spec fn spec_let2arm(s: Seq<char>, pos: int) -> Option<(int, LetRecArmV)>
    decreases s.len() - pos, 13int,
{
    match spec_ident(s, pos) {
        Some((a, fn_name)) => {
            let annotated = spec_wstag(s, a, ":"@);
            let bd: (int, TyV) = match annotated {
                Some(b0) => match spec_ty(s, b0) {
                    Some((b1, t)) => (b1, t),
                    None => (b0, TyV::UnkTy),
                },
                None => (a, TyV::UnkTy),
            };
            if (match annotated {
                Some(b0) => spec_ty(s, b0) is Some,
                None => true,
            }) {
                match spec_wstag(s, bd.0, "="@) {
                    Some(c) => match spec_wstag(s, c, "\\"@) {
                        Some(d) => match spec_ident(s, d) {
                            Some((e, arg_name)) => {
                                let annotated2 = spec_wstag(s, e, ":"@);
                                let fd: (int, TyV) = match annotated2 {
                                    Some(f0) => match spec_ty(s, f0) {
                                        Some((f1, t)) => (f1, t),
                                        None => (f0, TyV::UnkTy),
                                    },
                                    None => (e, TyV::UnkTy),
                                };
                                if (match annotated2 {
                                    Some(f0) => spec_ty(s, f0) is Some,
                                    None => true,
                                }) {
                                    match spec_wstag(s, fd.0, "->"@) {
                                        Some(g) => if advanced(s, pos, g) {
                                            match spec_expr(s, g) {
                                                Some((h, body)) => Some(
                                                    (
                                                        h,
                                                        LetRecArmV {
                                                            fn_name,
                                                            fn_ty: bd.1,
                                                            arg_name,
                                                            arg_ty: fd.1,
                                                            body: Box::new(body),
                                                        },
                                                    ),
                                                ),
                                                None => None,
                                            }
                                        } else {
                                            None
                                        },
                                        None => None,
                                    }
                                } else {
                                    None
                                }
                            },
                            None => None,
                        },
                        None => None,
                    },
                    None => None,
                }
            } else {
                None
            }
        },
        None => None,
    }
}

/// Mirror of the `and f = \x -> e` continuations of a `let rec`.
pub open spec fn spec_letrecarms_rest(s: Seq<char>, pos: int) -> Option<(int, Seq<LetRecArmV>)>
    decreases s.len() - pos, 14int,
{
    match spec_wstag(s, pos, "and"@) {
        Some(c) => if advanced(s, pos, c) {
            match spec_let2arm(s, c) {
                Some((j, arm)) => if advanced(s, pos, j) && c < j {
                    match spec_letrecarms_rest(s, j) {
                        Some((k, rest)) => Some((k, seq![arm] + rest)),
                        None => None,
                    }
                } else {
                    None
                },
                None => None,
            }
        } else {
            None
        },
        None => Some((pos, Seq::empty())),
    }
}

/// Mirror of `let2`.
pub open spec fn spec_let2(s: Seq<char>, pos: int) -> Option<(int, ExprV)>
    decreases s.len() - pos, 14int,
{
    match spec_wstag(s, pos, "let"@) {
        Some(a) => match spec_identlike(s, spec_ws_end(s, a)) {
            Some((a3, w)) => if w == "rec"@ {
                if advanced(s, pos, a3) {
                    match spec_let2arm(s, a3) {
                        Some((b, first)) => if advanced(s, pos, b) {
                            match spec_letrecarms_rest(s, b) {
                                Some((c, rest)) => match spec_wstag(s, c, "in"@) {
                                    Some(d) => if advanced(s, pos, d) {
                                        match spec_expr(s, d) {
                                            Some((e, body)) => Some(
                                                (
                                                    e,
                                                    ExprV::LetRec {
                                                        arms: seq![first] + rest,
                                                        body: Box::new(body),
                                                    },
                                                ),
                                            ),
                                            None => None,
                                        }
                                    } else {
                                        None
                                    },
                                    None => None,
                                },
                                None => None,
                            }
                        } else {
                            None
                        },
                        None => None,
                    }
                } else {
                    None
                }
            } else {
                None
            },
            None => None,
        },
        None => None,
    }
}

/// Mirror of `lett`.
pub open spec fn spec_lett(s: Seq<char>, pos: int) -> Option<(int, ExprV)>
    decreases s.len() - pos, 15int,
{
    match spec_let1(s, pos) {
        Some(done) => Some(done),
        None => match spec_let2(s, pos) {
            Some(done) => Some(done),
            None => spec_mat(s, pos),
        },
    }
}

/// Mirror of `expr`.
pub open spec fn spec_expr(s: Seq<char>, pos: int) -> Option<(int, ExprV)>
    decreases s.len() - pos, 16int,
{
    spec_lett(s, pos)
}

/// Parses a built-in name: `println`, `true`, `false` or `nth`.
pub fn builtin(v: &Vec<char>, pos: usize) -> (r: Option<(usize, Expr)>)
    requires
        pos <= v@.len(),
    ensures
        r matches Some(done) ==> pos < done.0 <= v@.len() && no_small_seq(done.1@),
        ({
                let sr = spec_builtin(v@, pos as int);
                match r {
                    Some(done) => sr == Some((done.0 as int, done.1@)),
                    None => sr is None,
                }
            }),
{
    let a = skip_ws(v, pos);
    match identlike(v, a) {
        Some((j, w)) => {
            if word_is(&w, "println") {
                Some((j, Expr::Builtin { op: BuiltinOp::Println }))
            } else if word_is(&w, "true") {
                Some((j, Expr::Builtin { op: BuiltinOp::True }))
            } else if word_is(&w, "false") {
                Some((j, Expr::Builtin { op: BuiltinOp::False }))
            } else if word_is(&w, "nth") {
                Some((j, Expr::Builtin { op: BuiltinOp::Nth }))
            } else {
                None
            }
        },
        None => None,
    }
}

/// Parses `nth k e`: the built-in tuple projection form.
pub fn nth(v: &Vec<char>, pos: usize) -> (r: Option<(usize, Expr)>)
    requires
        pos <= v@.len(),
    ensures
        r matches Some(done) ==> pos < done.0 <= v@.len() && no_small_seq(done.1@),
        ({
                let sr = spec_nth(v@, pos as int);
                match r {
                    Some(done) => sr == Some((done.0 as int, done.1@)),
                    None => sr is None,
                }
            }),
    decreases v@.len() - pos, 0int,
{
    proof {
        reveal(spec_nth);
    }
    let a = skip_ws(v, pos);
    let (b, w) = identlike(v, a)?;
    if !word_is(&w, "nth") {
        return None;
    }
    let (c, idx) = integer(v, b)?;
    let (d, sub) = expr(v, c)?;
    Some((d, Expr::Nth { idx, sub: Box::new(sub) }))
}

/// Parses a parenthesised expression.
pub fn paren(v: &Vec<char>, pos: usize) -> (r: Option<(usize, Expr)>)
    requires
        pos <= v@.len(),
    ensures
        r matches Some(done) ==> pos < done.0 <= v@.len() && no_small_seq(done.1@),
        ({
                let sr = spec_paren(v@, pos as int);
                match r {
                    Some(done) => sr == Some((done.0 as int, done.1@)),
                    None => sr is None,
                }
            }),
    decreases v@.len() - pos, 0int,
{
    proof {
        reveal(spec_paren);
    }
    let a = wstag(v, pos, "(")?;
    let (b, e) = expr(v, a)?;
    let c = wstag(v, b, ")")?;
    Some((c, e))
}

/// A list node over well-formed parts is well formed.
proof fn lemma_list_node_wf(subs: Seq<Expr>)
    requires
        no_small_seq_list(crate::ast::expr_models(subs)),
    ensures
        subs.len() >= 2 ==> no_small_seq(ExprV::Tuple { subs: crate::ast::expr_models(subs) })
            && no_small_seq(ExprV::Sequence { subs: crate::ast::expr_models(subs) }),
{
    crate::ast::lemma_expr_models(subs);
}

/// The ways `spec_tuplee` comes out, case by case, so that its callers need
/// not unfold it.
#[verifier::rlimit(100)]
#[verifier::spinoff_prover]
proof fn lemma_tuplee_cases(s: Seq<char>, pos: int)
    ensures
        spec_wstag(s, pos, "("@) is None ==> spec_tuplee(s, pos) is None,
        ({
            match spec_wstag(s, pos, "("@) {
                Some(a) => advanced(s, pos, a) ==> match spec_expr(s, a) {
                    Some((b, first)) => advanced(s, pos, b) ==> match spec_tuple_rest(s, b) {
                        Some((c, rest)) => if rest.len() == 0 {
                            spec_tuplee(s, pos) is None
                        } else {
                            match spec_wstag(s, c, ")"@) {
                                Some(d) => spec_tuplee(s, pos) == Some(
                                    (d, ExprV::Tuple { subs: seq![first] + rest }),
                                ),
                                None => spec_tuplee(s, pos) is None,
                            }
                        },
                        None => spec_tuplee(s, pos) is None,
                    },
                    None => spec_tuplee(s, pos) is None,
                },
                None => true,
            }
        }),
{
    reveal(spec_tuplee);
}

/// Parses a tuple `(e₁, …, eₙ)` with at least two parts.
#[verifier::rlimit(100)]
#[verifier::spinoff_prover]
pub fn tuplee(v: &Vec<char>, pos: usize) -> (r: Option<(usize, Expr)>)
    requires
        pos <= v@.len(),
    ensures
        r matches Some(done) ==> pos < done.0 <= v@.len() && no_small_seq(done.1@),
        ({
            let sr = spec_tuplee(v@, pos as int);
            match r {
                Some(done) => sr == Some((done.0 as int, done.1@)),
                None => sr is None,
            }
        }),
    decreases v@.len() - pos, 0int,
{
    proof {
        lemma_tuplee_cases(v@, pos as int);
    }
    let a = wstag(v, pos, "(")?;
    let (b, first) = expr(v, a)?;
    let (c, rest) = match tuple_rest(v, b) {
        Some(done) => done,
        None => {
            return None;
        },
    };
    if rest.len() < 1 {
        return None;
    }
    let d = wstag(v, c, ")")?;
    let ghost firstg = first;
    let ghost restg = rest@;
    let mut subs: Vec<Expr> = Vec::new();
    subs.push(first);
    let mut rest2 = rest;
    subs.append(&mut rest2);
    proof {
        assert(subs@ =~= seq![firstg] + restg);
        lemma_expr_prepend(firstg, restg);
        assert forall|q: int|
            0 <= q < crate::ast::expr_models(subs@).len() implies no_small_seq(
            #[trigger] crate::ast::expr_models(subs@)[q],
        ) by {
            if q == 0 {
                assert(crate::ast::expr_models(subs@)[0] == firstg.model());
            } else {
                assert(crate::ast::expr_models(subs@)[q] == crate::ast::expr_models(restg)[q - 1]);
            }
        }
        lemma_list_node_wf(subs@);
    }
    let res = Expr::Tuple { subs };
    Some((d, res))
}

/// Parses the `, e` continuations of a tuple.
fn tuple_rest(v: &Vec<char>, pos: usize) -> (r: Option<(usize, Vec<Expr>)>)
    requires
        pos <= v@.len(),
    ensures
        r matches Some(done) ==> pos <= done.0 <= v@.len(),
        ({
            let sr = spec_tuple_rest(v@, pos as int);
            match r {
                Some(done) => sr == Some((done.0 as int, crate::ast::expr_models(done.1@)))
                    && no_small_seq_list(crate::ast::expr_models(done.1@)),
                None => sr is None,
            }
        }),
    decreases v@.len() - pos, 0int,
{
    proof {
        reveal(spec_tuple_rest);
    }
    match wstag(v, pos, ",") {
        Some(b) => match expr(v, b) {
            Some((j, e)) => match tuple_rest(v, j) {
                Some((c, rest)) => {
                    let ghost eg = e;
                    let ghost restg = rest@;
                    let mut out: Vec<Expr> = Vec::new();
                    out.push(e);
                    let mut rest2 = rest;
                    out.append(&mut rest2);
                    proof {
                        assert(out@ =~= seq![eg] + restg);
                        lemma_expr_prepend(eg, restg);
                        crate::ast::lemma_expr_models(out@);
                        assert forall|q: int|
                            0 <= q < crate::ast::expr_models(out@).len() implies no_small_seq(
                            #[trigger] crate::ast::expr_models(out@)[q],
                        ) by {
                            assert(crate::ast::expr_models(out@)[q] == out@[q].model());
                            if q > 0 {
                                assert(out@[q] == restg[q - 1]);
                                assert(crate::ast::expr_models(restg)[q - 1] == restg[q
                                    - 1].model());
                            }
                        }
                    }
                    Some((c, out))
                },
                None => None,
            },
            None => None,
        },
        None => {
            let out: Vec<Expr> = Vec::new();
            proof {
                assert(crate::ast::expr_models(out@) =~= Seq::<ExprV>::empty());
            }
            Some((pos, out))
        },
    }
}

/// Parses an atom: a literal, the `nth` projection form, a built-in name, a
/// variable reference, a parenthesised expression, or a tuple.
#[verifier::rlimit(100)]
#[verifier::spinoff_prover]
pub fn atom(v: &Vec<char>, pos: usize) -> (r: Option<(usize, Expr)>)
    requires
        pos <= v@.len(),
    ensures
        r matches Some(done) ==> pos < done.0 <= v@.len() && no_small_seq(done.1@),
        ({
                let sr = spec_atom(v@, pos as int);
                match r {
                    Some(done) => sr == Some((done.0 as int, done.1@)),
                    None => sr is None,
                }
            }),
    decreases v@.len() - pos, 1int,
{
    match lit(v, pos) {
        Some(done) => {
            return Some(done);
        },
        None => {},
    }
    match nth(v, pos) {
        Some(done) => {
            return Some(done);
        },
        None => {},
    }
    match builtin(v, pos) {
        Some(done) => {
            return Some(done);
        },
        None => {},
    }
    match ident(v, pos) {
        Some((j, id)) => {
            return Some((j, Expr::VarRef { id }));
        },
        None => {},
    }
    match paren(v, pos) {
        Some(done) => {
            return Some(done);
        },
        None => {},
    }
    tuplee(v, pos)
}

/// Parses applications: an atom followed by further atoms, associating to
/// the left.
pub fn app(v: &Vec<char>, pos: usize) -> (r: Option<(usize, Expr)>)
    requires
        pos <= v@.len(),
    ensures
        r matches Some(done) ==> pos < done.0 <= v@.len() && no_small_seq(done.1@),
        ({
            let sr = spec_app(v@, pos as int);
            match r {
                Some(done) => sr == Some((done.0 as int, done.1@)),
                None => sr is None,
            }
        }),
    decreases v@.len() - pos, 2int,
{
    let (a, head) = atom(v, pos)?;
    let (j, e) = app_rest(v, a, head);
    Some((j, e))
}

/// Parses the atom run of an application, folding to the left.
fn app_rest(v: &Vec<char>, pos: usize, acc: Expr) -> (r: (usize, Expr))
    requires
        pos <= v@.len(),
        no_small_seq(acc@),
    ensures
        pos <= r.0 <= v@.len(),
        no_small_seq(r.1@),
        spec_app_rest(v@, pos as int, acc@) == Some((r.0 as int, r.1@)),
    decreases v@.len() - pos, 2int,
{
    match atom(v, pos) {
        Some((j, arg)) => app_rest(v, j, Expr::App { fun: Box::new(acc), arg: Box::new(arg) }),
        None => (pos, acc),
    }
}

/// Parses a unary operator: `!` or `-`.
pub fn una_op(v: &Vec<char>, pos: usize) -> (r: Option<(usize, UnaOp)>)
    requires
        pos <= v@.len(),
    ensures
        r matches Some(done) ==> pos < done.0 <= v@.len(),
        ({
                let sr = spec_una_op(v@, pos as int);
                match r {
                    Some(done) => sr == Some((done.0 as int, done.1)),
                    None => sr is None,
                }
            }),
{
    match wstag(v, pos, "!") {
        Some(j) => Some((j, UnaOp::Lnot)),
        None => match wstag(v, pos, "-") {
            Some(j) => Some((j, UnaOp::Neg)),
            None => None,
        },
    }
}

/// Parses prefix chains of unary operators, binding right to left.
pub fn una(v: &Vec<char>, pos: usize) -> (r: Option<(usize, Expr)>)
    requires
        pos <= v@.len(),
    ensures
        r matches Some(done) ==> pos < done.0 <= v@.len() && no_small_seq(done.1@),
        ({
                let sr = spec_una(v@, pos as int);
                match r {
                    Some(done) => sr == Some((done.0 as int, done.1@)),
                    None => sr is None,
                }
            }),
    decreases v@.len() - pos, 3int,
{
    match una_op(v, pos) {
        Some((a, op)) => {
            let (b, sub) = una(v, a)?;
            Some((b, Expr::Unary { op, sub: Box::new(sub) }))
        },
        None => app(v, pos),
    }
}

/// Parses a multiplicative operator: `*`, `/` or `%`.
pub fn mul_op(v: &Vec<char>, pos: usize) -> (r: Option<(usize, BinOp)>)
    requires
        pos <= v@.len(),
    ensures
        r matches Some(done) ==> pos < done.0 <= v@.len(),
        ({
                let sr = spec_mul_op(v@, pos as int);
                match r {
                    Some(done) => sr == Some((done.0 as int, done.1)),
                    None => sr is None,
                }
            }),
{
    match wstag(v, pos, "*") {
        Some(j) => Some((j, BinOp::Mul)),
        None => match wstag(v, pos, "/") {
            Some(j) => Some((j, BinOp::Div)),
            None => match wstag(v, pos, "%") {
                Some(j) => Some((j, BinOp::Rem)),
                None => None,
            },
        },
    }
}

/// Parses an additive operator: `+` or `-`.
pub fn add_op(v: &Vec<char>, pos: usize) -> (r: Option<(usize, BinOp)>)
    requires
        pos <= v@.len(),
    ensures
        r matches Some(done) ==> pos < done.0 <= v@.len(),
        ({
                let sr = spec_add_op(v@, pos as int);
                match r {
                    Some(done) => sr == Some((done.0 as int, done.1)),
                    None => sr is None,
                }
            }),
{
    match wstag(v, pos, "+") {
        Some(j) => Some((j, BinOp::Add)),
        None => match wstag(v, pos, "-") {
            Some(j) => Some((j, BinOp::Sub)),
            None => None,
        },
    }
}

/// Parses a relational operator; `>=` and `<=` are tried before `>` and
/// `<`.
pub fn rel_op(v: &Vec<char>, pos: usize) -> (r: Option<(usize, BinOp)>)
    requires
        pos <= v@.len(),
    ensures
        r matches Some(done) ==> pos < done.0 <= v@.len(),
        ({
                let sr = spec_rel_op(v@, pos as int);
                match r {
                    Some(done) => sr == Some((done.0 as int, done.1)),
                    None => sr is None,
                }
            }),
{
    match wstag(v, pos, ">=") {
        Some(j) => Some((j, BinOp::Ge)),
        None => match wstag(v, pos, "<=") {
            Some(j) => Some((j, BinOp::Le)),
            None => match wstag(v, pos, ">") {
                Some(j) => Some((j, BinOp::Gt)),
                None => match wstag(v, pos, "<") {
                    Some(j) => Some((j, BinOp::Lt)),
                    None => None,
                },
            },
        },
    }
}

/// Parses an equality operator: `==` or `!=`.
pub fn eq_op(v: &Vec<char>, pos: usize) -> (r: Option<(usize, BinOp)>)
    requires
        pos <= v@.len(),
    ensures
        r matches Some(done) ==> pos < done.0 <= v@.len(),
        ({
                let sr = spec_eq_op(v@, pos as int);
                match r {
                    Some(done) => sr == Some((done.0 as int, done.1)),
                    None => sr is None,
                }
            }),
{
    match wstag(v, pos, "==") {
        Some(j) => Some((j, BinOp::Eq)),
        None => match wstag(v, pos, "!=") {
            Some(j) => Some((j, BinOp::Ne)),
            None => None,
        },
    }
}

/// Parses multiplicative chains, associating to the left.
pub fn mul(v: &Vec<char>, pos: usize) -> (r: Option<(usize, Expr)>)
    requires
        pos <= v@.len(),
    ensures
        r matches Some(done) ==> pos < done.0 <= v@.len() && no_small_seq(done.1@),
        ({
            let sr = spec_mul(v@, pos as int);
            match r {
                Some(done) => sr == Some((done.0 as int, done.1@)),
                None => sr is None,
            }
        }),
    decreases v@.len() - pos, 4int,
{
    let (a, head) = una(v, pos)?;
    mul_rest(v, a, head)
}

/// Parses the operator continuations of a multiplicative chain.
fn mul_rest(v: &Vec<char>, pos: usize, acc: Expr) -> (r: Option<(usize, Expr)>)
    requires
        pos <= v@.len(),
        no_small_seq(acc@),
    ensures
        r matches Some(done) ==> pos <= done.0 <= v@.len() && no_small_seq(done.1@),
        ({
            let sr = spec_mul_rest(v@, pos as int, acc@);
            match r {
                Some(done) => sr == Some((done.0 as int, done.1@)),
                None => sr is None,
            }
        }),
    decreases v@.len() - pos, 4int,
{
    match mul_op(v, pos) {
        Some((b, op)) => match una(v, b) {
            Some((j, rhs)) => mul_rest(
                v,
                j,
                Expr::Binary { lhs: Box::new(acc), op, rhs: Box::new(rhs) },
            ),
            None => None,
        },
        None => Some((pos, acc)),
    }
}

/// Parses additive chains, associating to the left.
pub fn add(v: &Vec<char>, pos: usize) -> (r: Option<(usize, Expr)>)
    requires
        pos <= v@.len(),
    ensures
        r matches Some(done) ==> pos < done.0 <= v@.len() && no_small_seq(done.1@),
        ({
            let sr = spec_add(v@, pos as int);
            match r {
                Some(done) => sr == Some((done.0 as int, done.1@)),
                None => sr is None,
            }
        }),
    decreases v@.len() - pos, 5int,
{
    let (a, head) = crate::parser::mul(v, pos)?;
    add_rest(v, a, head)
}

/// Parses the operator continuations of a additive chain.
fn add_rest(v: &Vec<char>, pos: usize, acc: Expr) -> (r: Option<(usize, Expr)>)
    requires
        pos <= v@.len(),
        no_small_seq(acc@),
    ensures
        r matches Some(done) ==> pos <= done.0 <= v@.len() && no_small_seq(done.1@),
        ({
            let sr = spec_add_rest(v@, pos as int, acc@);
            match r {
                Some(done) => sr == Some((done.0 as int, done.1@)),
                None => sr is None,
            }
        }),
    decreases v@.len() - pos, 5int,
{
    match add_op(v, pos) {
        Some((b, op)) => match crate::parser::mul(v, b) {
            Some((j, rhs)) => add_rest(
                v,
                j,
                Expr::Binary { lhs: Box::new(acc), op, rhs: Box::new(rhs) },
            ),
            None => None,
        },
        None => Some((pos, acc)),
    }
}

/// Parses relational chains, associating to the left.
pub fn rel(v: &Vec<char>, pos: usize) -> (r: Option<(usize, Expr)>)
    requires
        pos <= v@.len(),
    ensures
        r matches Some(done) ==> pos < done.0 <= v@.len() && no_small_seq(done.1@),
        ({
            let sr = spec_rel(v@, pos as int);
            match r {
                Some(done) => sr == Some((done.0 as int, done.1@)),
                None => sr is None,
            }
        }),
    decreases v@.len() - pos, 6int,
{
    let (a, head) = crate::parser::add(v, pos)?;
    rel_rest(v, a, head)
}

/// Parses the operator continuations of a relational chain.
fn rel_rest(v: &Vec<char>, pos: usize, acc: Expr) -> (r: Option<(usize, Expr)>)
    requires
        pos <= v@.len(),
        no_small_seq(acc@),
    ensures
        r matches Some(done) ==> pos <= done.0 <= v@.len() && no_small_seq(done.1@),
        ({
            let sr = spec_rel_rest(v@, pos as int, acc@);
            match r {
                Some(done) => sr == Some((done.0 as int, done.1@)),
                None => sr is None,
            }
        }),
    decreases v@.len() - pos, 6int,
{
    match rel_op(v, pos) {
        Some((b, op)) => match crate::parser::add(v, b) {
            Some((j, rhs)) => rel_rest(
                v,
                j,
                Expr::Binary { lhs: Box::new(acc), op, rhs: Box::new(rhs) },
            ),
            None => None,
        },
        None => Some((pos, acc)),
    }
}

/// Parses equality chains, associating to the left.
pub fn eq(v: &Vec<char>, pos: usize) -> (r: Option<(usize, Expr)>)
    requires
        pos <= v@.len(),
    ensures
        r matches Some(done) ==> pos < done.0 <= v@.len() && no_small_seq(done.1@),
        ({
            let sr = spec_eq(v@, pos as int);
            match r {
                Some(done) => sr == Some((done.0 as int, done.1@)),
                None => sr is None,
            }
        }),
    decreases v@.len() - pos, 7int,
{
    let (a, head) = rel(v, pos)?;
    eq_rest(v, a, head)
}

/// Parses the operator continuations of a equality chain.
fn eq_rest(v: &Vec<char>, pos: usize, acc: Expr) -> (r: Option<(usize, Expr)>)
    requires
        pos <= v@.len(),
        no_small_seq(acc@),
    ensures
        r matches Some(done) ==> pos <= done.0 <= v@.len() && no_small_seq(done.1@),
        ({
            let sr = spec_eq_rest(v@, pos as int, acc@);
            match r {
                Some(done) => sr == Some((done.0 as int, done.1@)),
                None => sr is None,
            }
        }),
    decreases v@.len() - pos, 7int,
{
    match eq_op(v, pos) {
        Some((b, op)) => match rel(v, b) {
            Some((j, rhs)) => eq_rest(
                v,
                j,
                Expr::Binary { lhs: Box::new(acc), op, rhs: Box::new(rhs) },
            ),
            None => None,
        },
        None => Some((pos, acc)),
    }
}

/// Parses `if c then t else f`; the `else` branch recurses into this layer.
#[verifier::rlimit(100)]
#[verifier::spinoff_prover]
pub fn ite1(v: &Vec<char>, pos: usize) -> (r: Option<(usize, Expr)>)
    requires
        pos <= v@.len(),
    ensures
        r matches Some(done) ==> pos < done.0 <= v@.len() && no_small_seq(done.1@),
        ({
                let sr = spec_ite1(v@, pos as int);
                match r {
                    Some(done) => sr == Some((done.0 as int, done.1@)),
                    None => sr is None,
                }
            }),
    decreases v@.len() - pos, 8int,
{
    let a = wstag(v, pos, "if")?;
    let (b, cond) = eq(v, a)?;
    let c = wstag(v, b, "then")?;
    let (d, tr) = eq(v, c)?;
    let e2 = wstag(v, d, "else")?;
    let (f, fl) = ite(v, e2)?;
    Some((f, Expr::Ite { cond: Box::new(cond), tr: Box::new(tr), fl: Box::new(fl) }))
}

/// Parses a conditional or falls through to equality.
pub fn ite(v: &Vec<char>, pos: usize) -> (r: Option<(usize, Expr)>)
    requires
        pos <= v@.len(),
    ensures
        r matches Some(done) ==> pos < done.0 <= v@.len() && no_small_seq(done.1@),
        ({
                let sr = spec_ite(v@, pos as int);
                match r {
                    Some(done) => sr == Some((done.0 as int, done.1@)),
                    None => sr is None,
                }
            }),
    decreases v@.len() - pos, 9int,
{
    match ite1(v, pos) {
        Some(done) => Some(done),
        None => eq(v, pos),
    }
}

/// Parses `;`-sequences; a sequence of one part collapses to the part.
pub fn sequence(v: &Vec<char>, pos: usize) -> (r: Option<(usize, Expr)>)
    requires
        pos <= v@.len(),
    ensures
        r matches Some(done) ==> pos < done.0 <= v@.len() && no_small_seq(done.1@),
        ({
            let sr = spec_sequence(v@, pos as int);
            match r {
                Some(done) => sr == Some((done.0 as int, done.1@)),
                None => sr is None,
            }
        }),
    decreases v@.len() - pos, 10int,
{
    let (a, first) = ite(v, pos)?;
    match seq_rest(v, a) {
        Some((c, rest)) => {
            if rest.len() == 0 {
                Some((c, first))
            } else {
                let ghost firstg = first;
                let ghost restg = rest@;
                let mut subs: Vec<Expr> = Vec::new();
                subs.push(first);
                let mut rest2 = rest;
                subs.append(&mut rest2);
                proof {
                    assert(subs@ =~= seq![firstg] + restg);
                    lemma_expr_prepend(firstg, restg);
                    crate::ast::lemma_expr_models(subs@);
                    assert forall|q: int|
                        0 <= q < crate::ast::expr_models(subs@).len() implies no_small_seq(
                        #[trigger] crate::ast::expr_models(subs@)[q],
                    ) by {
                        assert(crate::ast::expr_models(subs@)[q] == subs@[q].model());
                        if q > 0 {
                            assert(subs@[q] == restg[q - 1]);
                            assert(crate::ast::expr_models(restg)[q - 1] == restg[q - 1].model());
                        }
                    }
                    assert(no_small_seq_list(crate::ast::expr_models(subs@)));
                }
                let res = Expr::Sequence { subs };
                proof {
                    assert(no_small_seq(res@));
                }
                Some((c, res))
            }
        },
        None => None,
    }
}

/// Parses the `; e` continuations of a sequence.
fn seq_rest(v: &Vec<char>, pos: usize) -> (r: Option<(usize, Vec<Expr>)>)
    requires
        pos <= v@.len(),
    ensures
        r matches Some(done) ==> pos <= done.0 <= v@.len(),
        ({
            let sr = spec_seq_rest(v@, pos as int);
            match r {
                Some(done) => sr == Some((done.0 as int, crate::ast::expr_models(done.1@)))
                    && no_small_seq_list(crate::ast::expr_models(done.1@)),
                None => sr is None,
            }
        }),
    decreases v@.len() - pos, 10int,
{
    match wstag(v, pos, ";") {
        Some(b) => match ite(v, b) {
            Some((j, e)) => match seq_rest(v, j) {
                Some((c, rest)) => {
                    let ghost eg = e;
                    let ghost restg = rest@;
                    let mut out: Vec<Expr> = Vec::new();
                    out.push(e);
                    let mut rest2 = rest;
                    out.append(&mut rest2);
                    proof {
                        assert(out@ =~= seq![eg] + restg);
                        lemma_expr_prepend(eg, restg);
                        crate::ast::lemma_expr_models(out@);
                        assert forall|q: int|
                            0 <= q < crate::ast::expr_models(out@).len() implies no_small_seq(
                            #[trigger] crate::ast::expr_models(out@)[q],
                        ) by {
                            assert(crate::ast::expr_models(out@)[q] == out@[q].model());
                            if q > 0 {
                                assert(out@[q] == restg[q - 1]);
                                assert(crate::ast::expr_models(restg)[q - 1] == restg[q
                                    - 1].model());
                            }
                        }
                    }
                    Some((c, out))
                },
                None => None,
            },
            None => None,
        },
        None => {
            let out: Vec<Expr> = Vec::new();
            proof {
                assert(crate::ast::expr_models(out@) =~= Seq::<ExprV>::empty());
            }
            Some((pos, out))
        },
    }
}

/// Parses a lambda `\x : T -> e`.
pub fn lam1(v: &Vec<char>, pos: usize) -> (r: Option<(usize, Expr)>)
    requires
        pos <= v@.len(),
    ensures
        r matches Some(done) ==> pos < done.0 <= v@.len() && no_small_seq(done.1@),
        ({
                let sr = spec_lam1(v@, pos as int);
                match r {
                    Some(done) => sr == Some((done.0 as int, done.1@)),
                    None => sr is None,
                }
            }),
    decreases v@.len() - pos, 10int,
{
    let a = wstag(v, pos, "\\")?;
    let (b, arg_name) = ident(v, a)?;
    let (c, arg_ty) = match wstag(v, b, ":") {
        Some(c0) => {
            let (c1, t) = ty(v, c0)?;
            (c1, t)
        },
        None => (b, Ty::UnkTy),
    };
    let d = wstag(v, c, "->")?;
    let (e2, body) = expr(v, d)?;
    Some((e2, Expr::Abs { arg_name, arg_ty, body: Box::new(body) }))
}

/// Parses a lambda or falls through to sequences.
pub fn lam(v: &Vec<char>, pos: usize) -> (r: Option<(usize, Expr)>)
    requires
        pos <= v@.len(),
    ensures
        r matches Some(done) ==> pos < done.0 <= v@.len() && no_small_seq(done.1@),
        ({
                let sr = spec_lam(v@, pos as int);
                match r {
                    Some(done) => sr == Some((done.0 as int, done.1@)),
                    None => sr is None,
                }
            }),
    decreases v@.len() - pos, 11int,
{
    match lam1(v, pos) {
        Some(done) => Some(done),
        None => sequence(v, pos),
    }
}

/// Parses one `match` arm: `| p -> e`.
pub fn mat1arm(v: &Vec<char>, pos: usize) -> (r: Option<(usize, MatchArm)>)
    requires
        pos <= v@.len(),
    ensures
        r matches Some(done) ==> pos < done.0 <= v@.len() && no_small_seq(*done.1@.res),
        ({
                let sr = spec_mat1arm(v@, pos as int);
                match r {
                    Some(done) => sr == Some((done.0 as int, done.1@)),
                    None => sr is None,
                }
            }),
    decreases v@.len() - pos, 11int,
{
    let a = wstag(v, pos, "|")?;
    let (b, p) = ptn(v, a)?;
    let c = wstag(v, b, "->")?;
    let (d, res) = expr(v, c)?;
    Some((d, MatchArm { ptn: p, res }))
}

/// Parses `match e | p -> e … end` with at least one arm.
pub fn mat1(v: &Vec<char>, pos: usize) -> (r: Option<(usize, Expr)>)
    requires
        pos <= v@.len(),
    ensures
        r matches Some(done) ==> pos < done.0 <= v@.len() && no_small_seq(done.1@),
        ({
            let sr = spec_mat1(v@, pos as int);
            match r {
                Some(done) => sr == Some((done.0 as int, done.1@)),
                None => sr is None,
            }
        }),
    decreases v@.len() - pos, 12int,
{
    let a = wstag(v, pos, "match")?;
    let (b, sub) = expr(v, a)?;
    let (c, first) = mat1arm(v, b)?;
    let (e2, rest) = matcharms_rest(v, c);
    let d = wstag(v, e2, "end")?;
    let ghost firstg = first;
    let ghost restg = rest@;
    let mut arms: Vec<MatchArm> = Vec::new();
    arms.push(first);
    let mut rest2 = rest;
    arms.append(&mut rest2);
    proof {
        assert(arms@ =~= seq![firstg] + restg);
        lemma_matcharm_prepend(firstg, restg);
        crate::ast::lemma_matcharm_models(arms@);
        assert forall|q: int|
            0 <= q < crate::ast::matcharm_models(arms@).len() implies no_small_seq(
            *(#[trigger] crate::ast::matcharm_models(arms@)[q]).res,
        ) by {
            assert(crate::ast::matcharm_models(arms@)[q] == arms@[q].model());
            if q > 0 {
                assert(arms@[q] == restg[q - 1]);
                assert(crate::ast::matcharm_models(restg)[q - 1] == restg[q - 1].model());
            }
        }
        assert(no_small_seq_match_arms(crate::ast::matcharm_models(arms@)));
    }
    let res = Expr::Match { sub: Box::new(sub), arms };
    proof {
        assert(no_small_seq(res@));
    }
    Some((d, res))
}

/// Parses the arm run of a `match`.
fn matcharms_rest(v: &Vec<char>, pos: usize) -> (r: (usize, Vec<MatchArm>))
    requires
        pos <= v@.len(),
    ensures
        pos <= r.0 <= v@.len(),
        spec_matcharms_rest(v@, pos as int).0 == r.0 as int,
        spec_matcharms_rest(v@, pos as int).1 == crate::ast::matcharm_models(r.1@),
        forall|q: int|
            0 <= q < r.1@.len() ==> no_small_seq(
                *(#[trigger] crate::ast::matcharm_models(r.1@)[q]).res,
            ),
    decreases v@.len() - pos, 12int,
{
    match mat1arm(v, pos) {
        Some((j, arm)) => {
            let (k, rest) = matcharms_rest(v, j);
            let ghost armg = arm;
            let ghost restg = rest@;
            let mut out: Vec<MatchArm> = Vec::new();
            out.push(arm);
            let mut rest2 = rest;
            out.append(&mut rest2);
            proof {
                assert(out@ =~= seq![armg] + restg);
                lemma_matcharm_prepend(armg, restg);
                crate::ast::lemma_matcharm_models(out@);
                assert forall|q: int|
                    0 <= q < out@.len() implies no_small_seq(
                    *(#[trigger] crate::ast::matcharm_models(out@)[q]).res,
                ) by {
                    assert(crate::ast::matcharm_models(out@)[q] == out@[q].model());
                    if q > 0 {
                        assert(out@[q] == restg[q - 1]);
                        assert(crate::ast::matcharm_models(restg)[q - 1] == restg[q - 1].model());
                    }
                }
            }
            (k, out)
        },
        None => {
            let out: Vec<MatchArm> = Vec::new();
            proof {
                assert(crate::ast::matcharm_models(out@) =~= Seq::<MatchArmV>::empty());
            }
            (pos, out)
        },
    }
}

/// Parses a `match` or falls through to lambdas.
pub fn mat(v: &Vec<char>, pos: usize) -> (r: Option<(usize, Expr)>)
    requires
        pos <= v@.len(),
    ensures
        r matches Some(done) ==> pos < done.0 <= v@.len() && no_small_seq(done.1@),
        ({
                let sr = spec_mat(v@, pos as int);
                match r {
                    Some(done) => sr == Some((done.0 as int, done.1@)),
                    None => sr is None,
                }
            }),
    decreases v@.len() - pos, 13int,
{
    match mat1(v, pos) {
        Some(done) => Some(done),
        None => lam(v, pos),
    }
}

/// Parses `let x : T = v in b`.
pub fn let1(v: &Vec<char>, pos: usize) -> (r: Option<(usize, Expr)>)
    requires
        pos <= v@.len(),
    ensures
        r matches Some(done) ==> pos < done.0 <= v@.len() && no_small_seq(done.1@),
        ({
                let sr = spec_let1(v@, pos as int);
                match r {
                    Some(done) => sr == Some((done.0 as int, done.1@)),
                    None => sr is None,
                }
            }),
    decreases v@.len() - pos, 13int,
{
    let a = wstag(v, pos, "let")?;
    let (b, name) = ident(v, a)?;
    let (c, tyv) = match wstag(v, b, ":") {
        Some(c0) => {
            let (c1, t) = ty(v, c0)?;
            (c1, t)
        },
        None => (b, Ty::UnkTy),
    };
    let d = wstag(v, c, "=")?;
    let (e2, val) = expr(v, d)?;
    let f = wstag(v, e2, "in")?;
    let (g, body) = expr(v, f)?;
    Some(
        (
            g,
            Expr::Let { name, ty: tyv, val: Box::new(val), body: Box::new(body) },
        ),
    )
}

/// Parses one `let rec` arm: `f : T = \x : T -> e`.
pub fn let2arm(v: &Vec<char>, pos: usize) -> (r: Option<(usize, LetRecArm)>)
    requires
        pos <= v@.len(),
    ensures
        r matches Some(done) ==> pos < done.0 <= v@.len() && no_small_seq(*done.1@.body),
        ({
                let sr = spec_let2arm(v@, pos as int);
                match r {
                    Some(done) => sr == Some((done.0 as int, done.1@)),
                    None => sr is None,
                }
            }),
    decreases v@.len() - pos, 13int,
{
    let (a, fn_name) = ident(v, pos)?;
    let (b, fn_ty) = match wstag(v, a, ":") {
        Some(b0) => {
            let (b1, t) = ty(v, b0)?;
            (b1, t)
        },
        None => (a, Ty::UnkTy),
    };
    let c = wstag(v, b, "=")?;
    let d = wstag(v, c, "\\")?;
    let (e2, arg_name) = ident(v, d)?;
    let (f, arg_ty) = match wstag(v, e2, ":") {
        Some(f0) => {
            let (f1, t) = ty(v, f0)?;
            (f1, t)
        },
        None => (e2, Ty::UnkTy),
    };
    let g = wstag(v, f, "->")?;
    let (h, body) = expr(v, g)?;
    Some((h, LetRecArm { fn_name, fn_ty, arg_name, arg_ty, body: Box::new(body) }))
}

/// Parses `let rec f = \x -> e and … in b` with at least one arm.
pub fn let2(v: &Vec<char>, pos: usize) -> (r: Option<(usize, Expr)>)
    requires
        pos <= v@.len(),
    ensures
        r matches Some(done) ==> pos < done.0 <= v@.len() && no_small_seq(done.1@),
        ({
            let sr = spec_let2(v@, pos as int);
            match r {
                Some(done) => sr == Some((done.0 as int, done.1@)),
                None => sr is None,
            }
        }),
    decreases v@.len() - pos, 14int,
{
    let a = wstag(v, pos, "let")?;
    let a2 = skip_ws(v, a);
    let (a3, w) = identlike(v, a2)?;
    if !word_is(&w, "rec") {
        return None;
    }
    let (b, first) = let2arm(v, a3)?;
    let (c, rest) = match letrecarms_rest(v, b) {
        Some(done) => done,
        None => {
            return None;
        },
    };
    let d = wstag(v, c, "in")?;
    let (e2, body) = expr(v, d)?;
    let ghost firstg = first;
    let ghost restg = rest@;
    let mut arms: Vec<LetRecArm> = Vec::new();
    arms.push(first);
    let mut rest2 = rest;
    arms.append(&mut rest2);
    proof {
        assert(arms@ =~= seq![firstg] + restg);
        lemma_letrecarm_prepend(firstg, restg);
        crate::ast::lemma_letrecarm_models(arms@);
        assert forall|q: int|
            0 <= q < crate::ast::letrecarm_models(arms@).len() implies no_small_seq(
            *(#[trigger] crate::ast::letrecarm_models(arms@)[q]).body,
        ) by {
            assert(crate::ast::letrecarm_models(arms@)[q] == arms@[q].model());
            if q > 0 {
                assert(arms@[q] == restg[q - 1]);
                assert(crate::ast::letrecarm_models(restg)[q - 1] == restg[q - 1].model());
            }
        }
        assert(no_small_seq_arms(crate::ast::letrecarm_models(arms@)));
    }
    let res = Expr::LetRec { arms, body: Box::new(body) };
    proof {
        assert(no_small_seq(res@));
    }
    Some((e2, res))
}

/// Parses the `and f = \x -> e` continuations of a `let rec`.
fn letrecarms_rest(v: &Vec<char>, pos: usize) -> (r: Option<(usize, Vec<LetRecArm>)>)
    requires
        pos <= v@.len(),
    ensures
        r matches Some(done) ==> pos <= done.0 <= v@.len(),
        ({
            let sr = spec_letrecarms_rest(v@, pos as int);
            match r {
                Some(done) => sr == Some(
                    (done.0 as int, crate::ast::letrecarm_models(done.1@)),
                ) && (forall|q: int|
                    0 <= q < done.1@.len() ==> no_small_seq(
                        *(#[trigger] crate::ast::letrecarm_models(done.1@)[q]).body,
                    )),
                None => sr is None,
            }
        }),
    decreases v@.len() - pos, 14int,
{
    match wstag(v, pos, "and") {
        Some(c) => match let2arm(v, c) {
            Some((j, arm)) => match letrecarms_rest(v, j) {
                Some((k, rest)) => {
                    let ghost armg = arm;
                    let ghost restg = rest@;
                    let mut out: Vec<LetRecArm> = Vec::new();
                    out.push(arm);
                    let mut rest2 = rest;
                    out.append(&mut rest2);
                    proof {
                        assert(out@ =~= seq![armg] + restg);
                        lemma_letrecarm_prepend(armg, restg);
                        crate::ast::lemma_letrecarm_models(out@);
                        assert forall|q: int|
                            0 <= q < out@.len() implies no_small_seq(
                            *(#[trigger] crate::ast::letrecarm_models(out@)[q]).body,
                        ) by {
                            assert(crate::ast::letrecarm_models(out@)[q] == out@[q].model());
                            if q > 0 {
                                assert(out@[q] == restg[q - 1]);
                                assert(crate::ast::letrecarm_models(restg)[q - 1] == restg[q
                                    - 1].model());
                            }
                        }
                    }
                    Some((k, out))
                },
                None => None,
            },
            None => None,
        },
        None => {
            let out: Vec<LetRecArm> = Vec::new();
            proof {
                assert(crate::ast::letrecarm_models(out@) =~= Seq::<LetRecArmV>::empty());
            }
            Some((pos, out))
        },
    }
}

/// Parses a `let`, a `let rec`, or falls through to `match`.
pub fn lett(v: &Vec<char>, pos: usize) -> (r: Option<(usize, Expr)>)
    requires
        pos <= v@.len(),
    ensures
        r matches Some(done) ==> pos < done.0 <= v@.len() && no_small_seq(done.1@),
        ({
                let sr = spec_lett(v@, pos as int);
                match r {
                    Some(done) => sr == Some((done.0 as int, done.1@)),
                    None => sr is None,
                }
            }),
    decreases v@.len() - pos, 15int,
{
    match let1(v, pos) {
        Some(done) => Some(done),
        None => match let2(v, pos) {
            Some(done) => Some(done),
            None => mat(v, pos),
        },
    }
}

/// Parses an expression.
pub fn expr(v: &Vec<char>, pos: usize) -> (r: Option<(usize, Expr)>)
    requires
        pos <= v@.len(),
    ensures
        r matches Some(done) ==> pos < done.0 <= v@.len() && no_small_seq(done.1@),
        ({
                let sr = spec_expr(v@, pos as int);
                match r {
                    Some(done) => sr == Some((done.0 as int, done.1@)),
                    None => sr is None,
                }
            }),
    decreases v@.len() - pos, 16int,
{
    lett(v, pos)
}

/// Records a data-type name in the parsing context.
pub fn create_data_type(names: &mut Vec<String>, name: String)
    ensures
        crate::utils::string_views(final(names)@) == crate::utils::string_views(old(names)@).push(
            name@,
        ),
{
    let ghost n0 = names@;
    let ghost nv = name@;
    names.push(name);
    proof {
        crate::utils::lemma_string_views(names@);
        crate::utils::lemma_string_views(n0);
        assert forall|q: int|
            0 <= q < names@.len() implies crate::utils::string_views(names@)[q]
            == crate::utils::string_views(n0).push(nv)[q] by {
            if q < n0.len() {
                assert(names@[q] == n0[q]);
            }
        }
        assert(crate::utils::string_views(names@) =~= crate::utils::string_views(n0).push(nv));
    }
}

/// Is `name` a known data-type name in the parsing context?
pub fn is_data_type_name(names: &Vec<String>, name: &String) -> (r: bool)
    ensures
        r == crate::utils::string_views(names@).contains(name@),
{
    let mut i: usize = 0;
    while i < names.len()
        invariant
            0 <= i <= names@.len(),
            forall|q: int| 0 <= q < i ==> crate::utils::string_views(names@)[q] != name@,
        decreases names@.len() - i,
    {
        proof {
            crate::utils::lemma_string_views(names@);
        }
        if names[i] == *name {
            proof {
                assert(crate::utils::string_views(names@)[i as int] == name@);
            }
            return true;
        }
        i = i + 1;
    }
    proof {
        crate::utils::lemma_string_views(names@);
        assert forall|q: int|
            0 <= q < crate::utils::string_views(names@).len() implies crate::utils::string_views(
            names@,
        )[q] != name@ by {}
    }
    false
}

/// Mirror of the argument-type run of a constructor declaration.
pub open spec fn spec_tyargs_rest(s: Seq<char>, pos: int) -> (int, Seq<TyV>)
    decreases s.len() - pos,
{
    match spec_ty(s, pos) {
        Some((j, t)) => if advanced(s, pos, j) {
            let (k, rest) = spec_tyargs_rest(s, j);
            (k, seq![t] + rest)
        } else {
            (pos, Seq::empty())
        },
        None => (pos, Seq::empty()),
    }
}

/// Mirror of `data_type_arm`.
pub open spec fn spec_data_type_arm(s: Seq<char>, pos: int) -> Option<(int, DataTypeArmV)> {
    match spec_wstag(s, pos, "|"@) {
        Some(a) => if advanced(s, pos, a) {
            match spec_ident(s, a) {
                Some((b, ctor)) => if advanced(s, pos, b) {
                    match spec_ty(s, b) {
                        Some((c, first)) => if advanced(s, pos, c) {
                            let (d, rest) = spec_tyargs_rest(s, c);
                            Some((d, DataTypeArmV { ctor, arg_tys: seq![first] + rest }))
                        } else {
                            None
                        },
                        None => None,
                    }
                } else {
                    None
                },
                None => None,
            }
        } else {
            None
        },
        None => None,
    }
}

/// Mirror of the constructor run of a declaration.
pub open spec fn spec_dtarms_rest(s: Seq<char>, pos: int) -> (int, Seq<DataTypeArmV>)
    decreases s.len() - pos,
{
    match spec_data_type_arm(s, pos) {
        Some((j, arm)) => if advanced(s, pos, j) {
            let (k, rest) = spec_dtarms_rest(s, j);
            (k, seq![arm] + rest)
        } else {
            (pos, Seq::empty())
        },
        None => (pos, Seq::empty()),
    }
}

/// Mirror of `data_type`.
pub open spec fn spec_data_type(s: Seq<char>, pos: int) -> Option<(int, DataTypeV)> {
    match spec_wstag(s, pos, "datatype"@) {
        Some(a) => if advanced(s, pos, a) {
            match spec_ident(s, a) {
                Some((b, name)) => match spec_wstag(s, b, "="@) {
                    Some(c) => if advanced(s, pos, c) {
                        let (d, arms) = spec_dtarms_rest(s, c);
                        match spec_wstag(s, d, "end"@) {
                            Some(e) => Some((e, DataTypeV { name, arms })),
                            None => None,
                        }
                    } else {
                        None
                    },
                    None => None,
                },
                None => None,
            }
        } else {
            None
        },
        None => None,
    }
}

/// Mirror of the declaration run of a program.
pub open spec fn spec_datatypes_rest(s: Seq<char>, pos: int) -> (int, Seq<DataTypeV>)
    decreases s.len() - pos,
{
    match spec_data_type(s, pos) {
        Some((j, dt)) => if advanced(s, pos, j) {
            let (k, rest) = spec_datatypes_rest(s, j);
            (k, seq![dt] + rest)
        } else {
            (pos, Seq::empty())
        },
        None => (pos, Seq::empty()),
    }
}

/// Mirror of `top`.
pub open spec fn spec_top(s: Seq<char>, pos: int) -> Option<(int, ProgV)> {
    let (a, dts) = spec_datatypes_rest(s, pos);
    match spec_expr(s, a) {
        Some((b, main)) => Some((b, ProgV { data_types: dts, main_expr: main })),
        None => None,
    }
}

/// Mirror of `parse`: a whole program, then only whitespace to the end.
pub open spec fn spec_parse(s: Seq<char>) -> Option<ProgV> {
    match spec_top(s, 0) {
        Some((j, p)) => if spec_ws_end(s, j) == s.len() {
            Some(p)
        } else {
            None
        },
        None => None,
    }
}

/// Prepending one type prepends its model.
proof fn lemma_ty_prepend(t: Ty, rest: Seq<Ty>)
    ensures
        crate::ast::ty_models(seq![t] + rest) == seq![t.model()] + crate::ast::ty_models(rest),
{
    let whole = seq![t] + rest;
    crate::ast::lemma_ty_models(whole);
    crate::ast::lemma_ty_models(rest);
    assert forall|q: int|
        0 <= q < whole.len() implies crate::ast::ty_models(whole)[q] == (seq![t.model()]
        + crate::ast::ty_models(rest))[q] by {
        if q == 0 {
            assert(whole[0] == t);
        } else {
            assert(whole[q] == rest[q - 1]);
        }
    }
    assert(crate::ast::ty_models(whole) =~= seq![t.model()] + crate::ast::ty_models(rest));
}

/// Prepending one constructor declaration prepends its model.
proof fn lemma_datatypearm_prepend(a: DataTypeArm, rest: Seq<DataTypeArm>)
    ensures
        crate::ast::datatypearm_models(seq![a] + rest) == seq![a.model()]
            + crate::ast::datatypearm_models(rest),
{
    let whole = seq![a] + rest;
    crate::ast::lemma_datatypearm_models(whole);
    crate::ast::lemma_datatypearm_models(rest);
    assert forall|q: int|
        0 <= q < whole.len() implies crate::ast::datatypearm_models(whole)[q] == (seq![a.model()]
        + crate::ast::datatypearm_models(rest))[q] by {
        if q == 0 {
            assert(whole[0] == a);
        } else {
            assert(whole[q] == rest[q - 1]);
        }
    }
    assert(crate::ast::datatypearm_models(whole) =~= seq![a.model()]
        + crate::ast::datatypearm_models(rest));
}

/// Prepending one declaration prepends its model.
proof fn lemma_datatype_prepend(d: DataType, rest: Seq<DataType>)
    ensures
        crate::ast::datatype_models(seq![d] + rest) == seq![d.model()]
            + crate::ast::datatype_models(rest),
{
    let whole = seq![d] + rest;
    crate::ast::lemma_datatype_models(whole);
    crate::ast::lemma_datatype_models(rest);
    assert forall|q: int|
        0 <= q < whole.len() implies crate::ast::datatype_models(whole)[q] == (seq![d.model()]
        + crate::ast::datatype_models(rest))[q] by {
        if q == 0 {
            assert(whole[0] == d);
        } else {
            assert(whole[q] == rest[q - 1]);
        }
    }
    assert(crate::ast::datatype_models(whole) =~= seq![d.model()]
        + crate::ast::datatype_models(rest));
}

/// Parses one constructor of a data-type declaration: `| Ctor τ…` with at
/// least one argument type.
pub fn data_type_arm(v: &Vec<char>, pos: usize) -> (r: Option<(usize, DataTypeArm)>)
    requires
        pos <= v@.len(),
    ensures
        r matches Some(done) ==> pos < done.0 <= v@.len(),
        ({
            let sr = spec_data_type_arm(v@, pos as int);
            match r {
                Some(done) => sr == Some((done.0 as int, done.1@)),
                None => sr is None,
            }
        }),
{
    let a = wstag(v, pos, "|")?;
    let (b, ctor) = ident(v, a)?;
    let (c, first) = ty(v, b)?;
    let (d, rest) = tyargs_rest(v, c);
    let ghost firstg = first;
    let ghost restg = rest@;
    let mut arg_tys: Vec<Ty> = Vec::new();
    arg_tys.push(first);
    let mut rest2 = rest;
    arg_tys.append(&mut rest2);
    proof {
        assert(arg_tys@ =~= seq![firstg] + restg);
        lemma_ty_prepend(firstg, restg);
    }
    Some((d, DataTypeArm { ctor, arg_tys }))
}

/// Parses the argument-type run of a constructor declaration.
fn tyargs_rest(v: &Vec<char>, pos: usize) -> (r: (usize, Vec<Ty>))
    requires
        pos <= v@.len(),
    ensures
        pos <= r.0 <= v@.len(),
        spec_tyargs_rest(v@, pos as int).0 == r.0 as int,
        spec_tyargs_rest(v@, pos as int).1 == crate::ast::ty_models(r.1@),
    decreases v@.len() - pos,
{
    match ty(v, pos) {
        Some((j, t)) => {
            let (k, rest) = tyargs_rest(v, j);
            let ghost tg = t;
            let ghost restg = rest@;
            let mut out: Vec<Ty> = Vec::new();
            out.push(t);
            let mut rest2 = rest;
            out.append(&mut rest2);
            proof {
                assert(out@ =~= seq![tg] + restg);
                lemma_ty_prepend(tg, restg);
            }
            (k, out)
        },
        None => {
            let out: Vec<Ty> = Vec::new();
            proof {
                assert(crate::ast::ty_models(out@) =~= Seq::<TyV>::empty());
            }
            (pos, out)
        },
    }
}

/// Parses a data-type declaration `datatype Name = | C τ… end`, recording
/// its name in the context.
pub fn data_type(v: &Vec<char>, pos: usize, ctx: &mut Vec<String>) -> (r: Option<(
    usize,
    DataType,
)>)
    requires
        pos <= v@.len(),
    ensures
        r matches Some(done) ==> pos < done.0 <= v@.len(),
        ({
            let sr = spec_data_type(v@, pos as int);
            match r {
                Some(done) => sr == Some((done.0 as int, done.1@)),
                None => sr is None,
            }
        }),
{
    let a = wstag(v, pos, "datatype")?;
    let (b, name) = ident(v, a)?;
    create_data_type(ctx, name.clone());
    let c = wstag(v, b, "=")?;
    let (d, arms) = dtarms_rest(v, c);
    let e = wstag(v, d, "end")?;
    Some((e, DataType { name, arms }))
}

/// Parses the constructor run of a declaration.
fn dtarms_rest(v: &Vec<char>, pos: usize) -> (r: (usize, Vec<DataTypeArm>))
    requires
        pos <= v@.len(),
    ensures
        pos <= r.0 <= v@.len(),
        spec_dtarms_rest(v@, pos as int).0 == r.0 as int,
        spec_dtarms_rest(v@, pos as int).1 == crate::ast::datatypearm_models(r.1@),
    decreases v@.len() - pos,
{
    match data_type_arm(v, pos) {
        Some((j, arm)) => {
            let (k, rest) = dtarms_rest(v, j);
            let ghost armg = arm;
            let ghost restg = rest@;
            let mut out: Vec<DataTypeArm> = Vec::new();
            out.push(arm);
            let mut rest2 = rest;
            out.append(&mut rest2);
            proof {
                assert(out@ =~= seq![armg] + restg);
                lemma_datatypearm_prepend(armg, restg);
            }
            (k, out)
        },
        None => {
            let out: Vec<DataTypeArm> = Vec::new();
            proof {
                assert(crate::ast::datatypearm_models(out@) =~= Seq::<DataTypeArmV>::empty());
            }
            (pos, out)
        },
    }
}

/// Parses the declaration run of a program, recording the names in the
/// context.
fn datatypes_rest(v: &Vec<char>, pos: usize, ctx: &mut Vec<String>) -> (r: (
    usize,
    Vec<DataType>,
))
    requires
        pos <= v@.len(),
    ensures
        pos <= r.0 <= v@.len(),
        spec_datatypes_rest(v@, pos as int).0 == r.0 as int,
        spec_datatypes_rest(v@, pos as int).1 == crate::ast::datatype_models(r.1@),
    decreases v@.len() - pos,
{
    match data_type(v, pos, ctx) {
        Some((j, dt)) => {
            let (k, rest) = datatypes_rest(v, j, ctx);
            let ghost dtg = dt;
            let ghost restg = rest@;
            let mut out: Vec<DataType> = Vec::new();
            out.push(dt);
            let mut rest2 = rest;
            out.append(&mut rest2);
            proof {
                assert(out@ =~= seq![dtg] + restg);
                lemma_datatype_prepend(dtg, restg);
            }
            (k, out)
        },
        None => {
            let out: Vec<DataType> = Vec::new();
            proof {
                assert(crate::ast::datatype_models(out@) =~= Seq::<DataTypeV>::empty());
            }
            (pos, out)
        },
    }
}

/// Parses a whole program: data-type declarations, then one expression.
pub fn top(v: &Vec<char>, pos: usize) -> (r: Option<(usize, Prog)>)
    requires
        pos <= v@.len(),
    ensures
        r matches Some(done) ==> pos <= done.0 <= v@.len() && no_small_seq(
            done.1.main_expr@,
        ),
        ({
            let sr = spec_top(v@, pos as int);
            match r {
                Some(done) => sr == Some((done.0 as int, done.1@)),
                None => sr is None,
            }
        }),
{
    let mut ctx: Vec<String> = Vec::new();
    let (cur, data_types) = datatypes_rest(v, pos, &mut ctx);
    let (a, main_expr) = expr(v, cur)?;
    let res = Prog { data_types, main_expr };
    Some((a, res))
}

/// Parses a program from source text.  The whole text must be consumed, up
/// to trailing whitespace; anything else is a parse error.
pub fn parse(buf: &str) -> (r: Result<Prog, MiniMLErr>)
    ensures
        r matches Ok(prog) ==> no_small_seq(prog.main_expr@),
        ({
            let sr = spec_parse(buf@);
            match r {
                Ok(prog) => sr == Some(prog@),
                Err(_) => sr is None,
            }
        }),
{
    let v = string_to_chars(buf);
    match top(&v, 0) {
        Some((j, prog)) => {
            let k = skip_ws(&v, j);
            if k == v.len() {
                Ok(prog)
            } else {
                Err(MiniMLErr::ParseError(String::from_str("unexpected trailing input")))
            }
        },
        None => Err(MiniMLErr::ParseError(String::from_str("no expression recognised"))),
    }
}

} // verus!
