//! Parsing and printing of SECD instructions: the textual instruction
//! format, one instruction per line.
//!
//! Both directions are pinned exactly: printing follows
//! [`spec_print_instr`], parsing follows [`spec_parse_line`], and
//! [`lemma_instr_round_trip`] proves that parsing a printed instruction gives
//! the instruction back.

use vstd::prelude::*;

use crate::num::{
    all_digits, dec_of, dec_of_int, dec_val, i64_to_dec, is_digit, lemma_dec_of_digits,
    lemma_dec_val_of, parse_u64, spec_is_digit, spec_parse_u64, u64_to_dec,
};
use crate::secd::langdef::{instr_models, label_views, BinOp, BrOp, BuiltinOp, SECDInstr, SECDInstrV, SECDVal,
    SECDValV, UnaOp};
use crate::utils::{chars_to_string, string_to_chars};

verus! {

/// Is `c` whitespace of the instruction format (blank, tab, CR, LF)?
pub open spec fn spec_is_space(c: char) -> bool {
    c == ' ' || c == '\t' || c == '\r' || c == '\n'
}

/// Decides whether `c` is whitespace of the instruction format.
pub fn is_space(c: char) -> (r: bool)
    ensures
        r == spec_is_space(c),
{
    c == ' ' || c == '\t' || c == '\r' || c == '\n'
}

/// The length of the whitespace-free token at the head of `s`.
pub open spec fn token_len(s: Seq<char>) -> nat
    decreases s,
{
    if s.len() == 0 || spec_is_space(s[0]) {
        0
    } else {
        1 + token_len(s.drop_first())
    }
}

/// The head token is as long as its run of non-whitespace characters.
proof fn lemma_token_len(s: Seq<char>, n: int)
    requires
        0 <= n <= s.len(),
        forall|k: int| 0 <= k < n ==> !spec_is_space(#[trigger] s[k]),
        n == s.len() || spec_is_space(s[n]),
    ensures
        token_len(s) == n,
    decreases n,
{
    if n == 0 {
    } else {
        assert(!spec_is_space(s[0]));
        lemma_token_len(s.drop_first(), n - 1);
    }
}

/// The head token is at least one character and at most the whole string.
proof fn lemma_token_len_bound(s: Seq<char>)
    ensures
        token_len(s) <= s.len(),
        s.len() > 0 && !spec_is_space(s[0]) ==> token_len(s) >= 1,
    decreases s,
{
    if s.len() > 0 && !spec_is_space(s[0]) {
        lemma_token_len_bound(s.drop_first());
    }
}

/// The whitespace-separated tokens of `s`, in order.
pub open spec fn spec_tokenize(s: Seq<char>) -> Seq<Seq<char>>
    decreases s.len(),
    via spec_tokenize_decreases
{
    if s.len() == 0 {
        Seq::empty()
    } else if spec_is_space(s[0]) {
        spec_tokenize(s.drop_first())
    } else {
        let n = token_len(s) as int;
        seq![s.take(n)] + spec_tokenize(s.skip(n))
    }
}

#[via_fn]
proof fn spec_tokenize_decreases(s: Seq<char>) {
    if s.len() > 0 && !spec_is_space(s[0]) {
        lemma_token_len_bound(s);
    }
}

/// The views of every token in a vector.
pub open spec fn token_views(s: Seq<Vec<char>>) -> Seq<Seq<char>> {
    s.map_values(|t: Vec<char>| t@)
}

/// Splits `v` into its whitespace-separated tokens, from position `i` on.
fn tokenize_from(v: &Vec<char>, i: usize) -> (r: Vec<Vec<char>>)
    requires
        i <= v@.len(),
    ensures
        token_views(r@) == spec_tokenize(v@.skip(i as int)),
    decreases v@.len() - i,
{
    if i == v.len() {
        let r: Vec<Vec<char>> = Vec::new();
        proof {
            assert(v@.skip(i as int) =~= Seq::<char>::empty());
            assert(token_views(r@) =~= spec_tokenize(v@.skip(i as int)));
        }
        return r;
    }
    if is_space(v[i]) {
        let r = tokenize_from(v, i + 1);
        proof {
            assert(v@.skip(i as int).drop_first() =~= v@.skip(i + 1));
        }
        return r;
    }
    // scan the token
    let mut j: usize = i + 1;
    while j < v.len() && !is_space(v[j])
        invariant
            i < j <= v@.len(),
            forall|k: int| i <= k < j ==> !spec_is_space(#[trigger] v@[k]),
        decreases v@.len() - j,
    {
        j = j + 1;
    }
    let mut tok: Vec<char> = Vec::new();
    let mut k: usize = i;
    while k < j
        invariant
            i <= k <= j <= v@.len(),
            tok@ == v@.subrange(i as int, k as int),
        decreases j - k,
    {
        tok.push(v[k]);
        proof {
            assert(tok@ =~= v@.subrange(i as int, k + 1));
        }
        k = k + 1;
    }
    let mut rest = tokenize_from(v, j);
    let ghost restg = token_views(rest@);
    let ghost rest0 = rest@;
    let mut r: Vec<Vec<char>> = Vec::new();
    let ghost tokg = tok@;
    r.push(tok);
    r.append(&mut rest);
    proof {
        assert(r@ =~= seq![r@[0]] + rest0);
    }
    proof {
        let s = v@.skip(i as int);
        lemma_token_len(s, j - i);
        assert(s.take((j - i) as int) =~= v@.subrange(i as int, j as int));
        assert(s.skip((j - i) as int) =~= v@.skip(j as int));
        assert forall|q: int| 0 <= q < r@.len() implies token_views(r@)[q] == (seq![tokg]
            + restg)[q] by {
            if q == 0 {
                assert(token_views(r@)[0] == r@[0]@);
            } else {
                assert(token_views(r@)[q] == r@[q]@);
                assert(r@[q] == rest0[q - 1]);
                assert(restg[q - 1] == rest0[q - 1]@);
            }
        }
        assert(token_views(r@) =~= seq![tokg] + restg);
        assert(spec_tokenize(s) == seq![s.take((j - i) as int)] + spec_tokenize(
            s.skip((j - i) as int),
        ));
    }
    r
}

/// Splits `v` into its whitespace-separated tokens.
pub fn tokenize(v: &Vec<char>) -> (r: Vec<Vec<char>>)
    ensures
        token_views(r@) == spec_tokenize(v@),
{
    let r = tokenize_from(v, 0);
    proof {
        assert(v@.skip(0) =~= v@);
    }
    r
}

/// The opcode of a binary operator.  The logical operators have no opcode in
/// the instruction format and print as nothing.
pub open spec fn binop_text(op: BinOp) -> Seq<char> {
    match op {
        BinOp::Add => "add"@,
        BinOp::Sub => "sub"@,
        BinOp::Mul => "mul"@,
        BinOp::Div => "div"@,
        BinOp::Rem => "rem"@,
        BinOp::Eq => "eq"@,
        BinOp::Ne => "ne"@,
        BinOp::Ge => "ge"@,
        BinOp::Le => "le"@,
        BinOp::Gt => "gt"@,
        BinOp::Lt => "lt"@,
        BinOp::Land => Seq::empty(),
        BinOp::Lor => Seq::empty(),
        BinOp::Lxor => Seq::empty(),
    }
}

/// Has this binary operator an opcode in the instruction format?
pub open spec fn printable_binop(op: BinOp) -> bool {
    !(op == BinOp::Land || op == BinOp::Lor || op == BinOp::Lxor)
}

/// Prints the opcode of a binary operator.
pub fn binops_print(op: BinOp) -> (r: &'static str)
    requires
        printable_binop(op),
    ensures
        r@ == binop_text(op),
{
    match op {
        BinOp::Add => "add",
        BinOp::Sub => "sub",
        BinOp::Mul => "mul",
        BinOp::Div => "div",
        BinOp::Rem => "rem",
        BinOp::Eq => "eq",
        BinOp::Ne => "ne",
        BinOp::Ge => "ge",
        BinOp::Le => "le",
        BinOp::Gt => "gt",
        _ => "lt",
    }
}

/// The opcode of a unary operator.  Logical not is given the word `not`,
/// which the line parser accepts in turn, so that every unary instruction
/// has a textual form.
pub open spec fn unaop_text(op: UnaOp) -> Seq<char> {
    match op {
        UnaOp::Neg => "neg"@,
        UnaOp::Lnot => "not"@,
    }
}

/// Prints the opcode of a unary operator.
pub fn unaops_print(op: UnaOp) -> (r: &'static str)
    ensures
        r@ == unaop_text(op),
{
    match op {
        UnaOp::Neg => "neg",
        UnaOp::Lnot => "not",
    }
}

/// The opcode of a branch operator.
pub open spec fn brop_text(op: BrOp) -> Seq<char> {
    match op {
        BrOp::Br => "br"@,
        BrOp::BrFalse => "brfl"@,
    }
}

/// Prints the opcode of a branch operator.
pub fn brops_print(op: BrOp) -> (r: &'static str)
    ensures
        r@ == brop_text(op),
{
    match op {
        BrOp::Br => "br",
        BrOp::BrFalse => "brfl",
    }
}

/// The name of a machine built-in.
pub open spec fn builtinop_text(op: BuiltinOp) -> Seq<char> {
    match op {
        BuiltinOp::Println => "println"@,
        BuiltinOp::Nth => "nth"@,
    }
}

/// Prints the name of a machine built-in.
pub fn builtinops_print(op: BuiltinOp) -> (r: &'static str)
    ensures
        r@ == builtinop_text(op),
{
    match op {
        BuiltinOp::Println => "println",
        BuiltinOp::Nth => "nth",
    }
}

/// A label that survives the textual round trip: non-empty, no whitespace.
pub open spec fn wf_label(l: Seq<char>) -> bool {
    l.len() >= 1 && forall|i: int| 0 <= i < l.len() ==> !spec_is_space(#[trigger] l[i])
}

/// An instruction the printer can express: constants are integers, the
/// binary operator has an opcode, labels are well formed, and a closure
/// bundle holds at least one label.
pub open spec fn wf_instr(i: SECDInstrV) -> bool {
    match i {
        SECDInstrV::Const(v) => v is IntVal,
        SECDInstrV::Closure(l) => wf_label(l),
        SECDInstrV::Closures(ls) => ls.len() >= 1 && forall|k: int|
            0 <= k < ls.len() ==> wf_label(#[trigger] ls[k]),
        SECDInstrV::Binary(op) => printable_binop(op),
        SECDInstrV::Branch(_, l) => wf_label(l),
        SECDInstrV::Label(l) => wf_label(l),
        _ => true,
    }
}

/// The labels of a bundle, each preceded by one blank.
pub open spec fn print_labels(ls: Seq<Seq<char>>) -> Seq<char>
    decreases ls.len(),
{
    if ls.len() == 0 {
        Seq::empty()
    } else {
        seq![' '] + ls.first() + print_labels(ls.drop_first())
    }
}

/// Appending one label extends the printed bundle on the right.
proof fn lemma_print_labels_push(ls: Seq<Seq<char>>, l: Seq<char>)
    ensures
        print_labels(ls.push(l)) == print_labels(ls) + seq![' '] + l,
    decreases ls.len(),
{
    if ls.len() == 0 {
        assert(ls.push(l).drop_first() =~= Seq::<Seq<char>>::empty());
        assert(ls.push(l).first() == l);
        assert(print_labels(Seq::<Seq<char>>::empty()) == Seq::<char>::empty());
        assert(print_labels(ls.push(l)) == seq![' '] + l + Seq::<char>::empty());
        assert(print_labels(ls) == Seq::<char>::empty());
        assert(seq![' '] + l + Seq::<char>::empty() =~= Seq::<char>::empty() + seq![' '] + l);
    } else {
        lemma_print_labels_push(ls.drop_first(), l);
        assert(ls.push(l).drop_first() =~= ls.drop_first().push(l));
        assert(ls.push(l).first() == ls.first());
        assert(print_labels(ls.push(l)) == seq![' '] + ls.first() + print_labels(
            ls.drop_first().push(l),
        ));
        assert(print_labels(ls.push(l)) == seq![' '] + ls.first() + (print_labels(ls.drop_first())
            + seq![' '] + l));
        assert(seq![' '] + ls.first() + (print_labels(ls.drop_first()) + seq![' '] + l) =~= (seq![
            ' ',
        ] + ls.first() + print_labels(ls.drop_first())) + seq![' '] + l);
    }
}

/// The text of one instruction, without its line break.
pub open spec fn spec_print_instr(i: SECDInstrV) -> Seq<char> {
    match i {
        SECDInstrV::Halt => "halt"@,
        SECDInstrV::Pop(n) => "pop "@ + dec_of(n as nat),
        SECDInstrV::Apply => "apply"@,
        SECDInstrV::Const(v) => match v {
            SECDValV::IntVal(x) => "const "@ + dec_of_int(x as int),
            _ => "const"@,
        },
        SECDInstrV::Access(n) => "access "@ + dec_of(n as nat),
        SECDInstrV::Focus(n) => "focus "@ + dec_of(n as nat),
        SECDInstrV::Return => "return"@,
        SECDInstrV::Closure(l) => "closure "@ + l,
        SECDInstrV::Closures(ls) => "closures"@ + print_labels(ls),
        SECDInstrV::Builtin(op) => "builtin "@ + builtinop_text(op),
        SECDInstrV::Binary(op) => binop_text(op),
        SECDInstrV::Unary(op) => unaop_text(op),
        SECDInstrV::Branch(op, l) => brop_text(op) + seq![' '] + l,
        SECDInstrV::Label(l) => l + seq![':'],
        SECDInstrV::PushEnv => "pushenv"@,
    }
}

/// Appends the text of `s` to `out`.
fn push_str_chars(out: &mut Vec<char>, s: &str)
    ensures
        final(out)@ == old(out)@ + s@,
{
    let mut cs = string_to_chars(s);
    out.append(&mut cs);
}

/// Prints one instruction, as `spec_print_instr` says.
pub fn print_instr(i: &SECDInstr) -> (r: Vec<char>)
    requires
        wf_instr(i@),
    ensures
        r@ == spec_print_instr(i@),
{
    let mut out: Vec<char> = Vec::new();
    match i {
        SECDInstr::Halt => {
            push_str_chars(&mut out, "halt");
        },
        SECDInstr::Pop(n) => {
            push_str_chars(&mut out, "pop ");
            let mut d = u64_to_dec(*n as u64);
            out.append(&mut d);
        },
        SECDInstr::Apply => {
            push_str_chars(&mut out, "apply");
        },
        SECDInstr::Const(v) => {
            push_str_chars(&mut out, "const ");
            match v {
                SECDVal::IntVal(x) => {
                    let mut d = i64_to_dec(*x);
                    out.append(&mut d);
                },
                _ => {
                    proof {
                        assert(false);
                    }
                },
            }
        },
        SECDInstr::Access(n) => {
            push_str_chars(&mut out, "access ");
            let mut d = u64_to_dec(*n as u64);
            out.append(&mut d);
        },
        SECDInstr::Focus(n) => {
            push_str_chars(&mut out, "focus ");
            let mut d = u64_to_dec(*n as u64);
            out.append(&mut d);
        },
        SECDInstr::Return => {
            push_str_chars(&mut out, "return");
        },
        SECDInstr::Closure(l) => {
            push_str_chars(&mut out, "closure ");
            let mut cs = string_to_chars(l.as_str());
            out.append(&mut cs);
        },
        SECDInstr::Closures(ls) => {
            push_str_chars(&mut out, "closures");
            let mut k: usize = 0;
            while k < ls.len()
                invariant
                    0 <= k <= ls@.len(),
                    out@ == "closures"@ + print_labels(label_views(ls@).take(k as int)),
                decreases ls@.len() - k,
            {
                out.push(' ');
                let mut cs = string_to_chars(ls[k].as_str());
                out.append(&mut cs);
                proof {
                    assert(label_views(ls@).take(k + 1) =~= label_views(ls@).take(
                        k as int,
                    ).push(ls@[k as int]@));
                    lemma_print_labels_push(label_views(ls@).take(k as int), ls@[k as int]@);
                }
                k = k + 1;
            }
            proof {
                assert(label_views(ls@).take(ls@.len() as int) =~= label_views(ls@));
            }
        },
        SECDInstr::Builtin(op) => {
            push_str_chars(&mut out, "builtin ");
            let name = builtinops_print(*op);
            push_str_chars(&mut out, name);
        },
        SECDInstr::Binary(op) => {
            let name = binops_print(*op);
            push_str_chars(&mut out, name);
        },
        SECDInstr::Unary(op) => {
            let name = unaops_print(*op);
            push_str_chars(&mut out, name);
        },
        SECDInstr::Branch(op, l) => {
            let name = brops_print(*op);
            push_str_chars(&mut out, name);
            out.push(' ');
            let mut cs = string_to_chars(l.as_str());
            out.append(&mut cs);
        },
        SECDInstr::Label(l) => {
            let mut cs = string_to_chars(l.as_str());
            out.append(&mut cs);
            out.push(':');
        },
        SECDInstr::PushEnv => {
            push_str_chars(&mut out, "pushenv");
        },
    }
    proof {
        assert(out@ =~= spec_print_instr(i@));
    }
    out
}

/// The value of a digit string as a `usize`, if it fits.
pub open spec fn spec_parse_usize(s: Seq<char>) -> Option<usize> {
    match spec_parse_u64(s) {
        Some(v) => if v <= usize::MAX as u64 {
            Some(v as usize)
        } else {
            None
        },
        None => None,
    }
}

/// Parses a digit string as a `usize`.
pub fn parse_usize(s: &Vec<char>) -> (r: Option<usize>)
    ensures
        r == spec_parse_usize(s@),
{
    match parse_u64(s) {
        Some(v) => if v <= usize::MAX as u64 {
            Some(v as usize)
        } else {
            None
        },
        None => None,
    }
}

/// The value of an optionally `-`-signed digit string, if it fits in `i64`.
pub open spec fn spec_parse_i64(s: Seq<char>) -> Option<i64> {
    if s.len() >= 1 && s[0] == '-' {
        match spec_parse_u64(s.drop_first()) {
            Some(m) => if m <= 9223372036854775808u64 {
                Some((-(m as int)) as i64)
            } else {
                None
            },
            None => None,
        }
    } else {
        match spec_parse_u64(s) {
            Some(m) => if m <= i64::MAX as u64 {
                Some(m as i64)
            } else {
                None
            },
            None => None,
        }
    }
}

/// Parses an optionally `-`-signed digit string as an `i64`.
pub fn parse_i64(s: &Vec<char>) -> (r: Option<i64>)
    ensures
        r == spec_parse_i64(s@),
{
    if s.len() >= 1 && s[0] == '-' {
        let mut mag: Vec<char> = Vec::new();
        let mut i: usize = 1;
        while i < s.len()
            invariant
                1 <= i <= s@.len(),
                mag@ == s@.drop_first().take(i - 1),
            decreases s@.len() - i,
        {
            mag.push(s[i]);
            proof {
                assert(mag@ =~= s@.drop_first().take(i as int));
            }
            i = i + 1;
        }
        proof {
            assert(s@.drop_first().take(s@.len() - 1) =~= s@.drop_first());
        }
        match parse_u64(&mag) {
            Some(m) => {
                if m <= 9223372036854775807u64 {
                    Some(-(m as i64))
                } else if m == 9223372036854775808u64 {
                    Some(i64::MIN)
                } else {
                    None
                }
            },
            None => None,
        }
    } else {
        match parse_u64(s) {
            Some(m) => if m <= i64::MAX as u64 {
                Some(m as i64)
            } else {
                None
            },
            None => None,
        }
    }
}

/// One line of instruction text, as an instruction: the first token selects
/// the opcode; a token ending in `:` defines a label.
pub open spec fn spec_parse_line(s: Seq<char>) -> Option<SECDInstrV> {
    let toks = spec_tokenize(s);
    if toks.len() == 0 {
        None
    } else {
        let op = toks[0];
        let args = toks.skip(1);
        if op.len() >= 1 && op.last() == ':' {
            if args.len() == 0 {
                Some(SECDInstrV::Label(op.drop_last()))
            } else {
                None
            }
        } else if op == "add"@ {
            Some(SECDInstrV::Binary(BinOp::Add))
        } else if op == "sub"@ {
            Some(SECDInstrV::Binary(BinOp::Sub))
        } else if op == "mul"@ {
            Some(SECDInstrV::Binary(BinOp::Mul))
        } else if op == "div"@ {
            Some(SECDInstrV::Binary(BinOp::Div))
        } else if op == "rem"@ {
            Some(SECDInstrV::Binary(BinOp::Rem))
        } else if op == "eq"@ {
            Some(SECDInstrV::Binary(BinOp::Eq))
        } else if op == "ne"@ {
            Some(SECDInstrV::Binary(BinOp::Ne))
        } else if op == "ge"@ {
            Some(SECDInstrV::Binary(BinOp::Ge))
        } else if op == "le"@ {
            Some(SECDInstrV::Binary(BinOp::Le))
        } else if op == "gt"@ {
            Some(SECDInstrV::Binary(BinOp::Gt))
        } else if op == "lt"@ {
            Some(SECDInstrV::Binary(BinOp::Lt))
        } else if op == "neg"@ {
            Some(SECDInstrV::Unary(UnaOp::Neg))
        } else if op == "not"@ {
            Some(SECDInstrV::Unary(UnaOp::Lnot))
        } else if op == "br"@ {
            if args.len() == 1 {
                Some(SECDInstrV::Branch(BrOp::Br, args[0]))
            } else {
                None
            }
        } else if op == "brfl"@ {
            if args.len() == 1 {
                Some(SECDInstrV::Branch(BrOp::BrFalse, args[0]))
            } else {
                None
            }
        } else if op == "access"@ {
            if args.len() == 1 {
                match spec_parse_usize(args[0]) {
                    Some(n) => Some(SECDInstrV::Access(n)),
                    None => None,
                }
            } else {
                None
            }
        } else if op == "focus"@ {
            if args.len() == 1 {
                match spec_parse_usize(args[0]) {
                    Some(n) => Some(SECDInstrV::Focus(n)),
                    None => None,
                }
            } else {
                None
            }
        } else if op == "pop"@ {
            if args.len() == 1 {
                match spec_parse_usize(args[0]) {
                    Some(n) => Some(SECDInstrV::Pop(n)),
                    None => None,
                }
            } else {
                None
            }
        } else if op == "closure"@ {
            if args.len() == 1 {
                Some(SECDInstrV::Closure(args[0]))
            } else {
                None
            }
        } else if op == "closures"@ {
            if args.len() >= 1 {
                Some(SECDInstrV::Closures(args))
            } else {
                None
            }
        } else if op == "const"@ {
            if args.len() == 1 {
                match spec_parse_i64(args[0]) {
                    Some(v) => Some(SECDInstrV::Const(SECDValV::IntVal(v))),
                    None => None,
                }
            } else {
                None
            }
        } else if op == "builtin"@ {
            if args.len() == 1 {
                if args[0] == "println"@ {
                    Some(SECDInstrV::Builtin(BuiltinOp::Println))
                } else if args[0] == "nth"@ {
                    Some(SECDInstrV::Builtin(BuiltinOp::Nth))
                } else {
                    None
                }
            } else {
                None
            }
        } else if op == "return"@ {
            Some(SECDInstrV::Return)
        } else if op == "halt"@ {
            Some(SECDInstrV::Halt)
        } else if op == "apply"@ {
            Some(SECDInstrV::Apply)
        } else if op == "pushenv"@ {
            Some(SECDInstrV::PushEnv)
        } else {
            None
        }
    }
}

/// Decides whether the characters of `t` spell `s`.
fn tok_is(t: &Vec<char>, s: &str) -> (r: bool)
    ensures
        r == (t@ == s@),
{
    let sv = string_to_chars(s);
    if t.len() != sv.len() {
        proof {
            assert(t@ != s@);
        }
        return false;
    }
    let mut i: usize = 0;
    while i < t.len()
        invariant
            0 <= i <= t@.len(),
            t@.len() == sv@.len() == s@.len(),
            sv@ == s@,
            forall|j: int| 0 <= j < i ==> t@[j] == s@[j],
        decreases t@.len() - i,
    {
        if t[i] != sv[i] {
            proof {
                assert(t@[i as int] != s@[i as int]);
            }
            return false;
        }
        i = i + 1;
    }
    proof {
        assert(t@ =~= s@);
    }
    true
}

/// Parses one line of instruction text.
pub fn parse_instr_line(line: &Vec<char>) -> (r: Result<SECDInstr, String>)
    ensures
        match spec_parse_line(line@) {
            Some(iv) => r matches Ok(i) && i@ == iv,
            None => r is Err,
        },
{
    let toks = tokenize(line);
    let ghost tv = token_views(toks@);
    if toks.len() == 0 {
        return Err(String::from_str("empty instruction line"));
    }
    proof {
        assert(tv[0] == toks@[0]@);
    }
    let op = &toks[0];
    let n_args = toks.len() - 1;
    if op.len() >= 1 && op[op.len() - 1] == ':' {
        if n_args == 0 {
            let mut name = op.clone();
            let ghost opv = op@;
            let _ = name.pop();
            proof {
                assert(name@ =~= opv.drop_last());
            }
            return Ok(SECDInstr::Label(chars_to_string(&name)));
        }
        return Err(String::from_str("label line takes no operand"));
    }
    proof {
        assert(forall|j: int| 1 <= j < toks@.len() ==> tv.skip(1)[j - 1] == #[trigger] tv[j]);
        assert(forall|j: int| 0 <= j < toks@.len() ==> #[trigger] tv[j] == toks@[j]@);
    }
    if tok_is(op, "add") {
        return Ok(SECDInstr::Binary(BinOp::Add));
    }
    if tok_is(op, "sub") {
        return Ok(SECDInstr::Binary(BinOp::Sub));
    }
    if tok_is(op, "mul") {
        return Ok(SECDInstr::Binary(BinOp::Mul));
    }
    if tok_is(op, "div") {
        return Ok(SECDInstr::Binary(BinOp::Div));
    }
    if tok_is(op, "rem") {
        return Ok(SECDInstr::Binary(BinOp::Rem));
    }
    if tok_is(op, "eq") {
        return Ok(SECDInstr::Binary(BinOp::Eq));
    }
    if tok_is(op, "ne") {
        return Ok(SECDInstr::Binary(BinOp::Ne));
    }
    if tok_is(op, "ge") {
        return Ok(SECDInstr::Binary(BinOp::Ge));
    }
    if tok_is(op, "le") {
        return Ok(SECDInstr::Binary(BinOp::Le));
    }
    if tok_is(op, "gt") {
        return Ok(SECDInstr::Binary(BinOp::Gt));
    }
    if tok_is(op, "lt") {
        return Ok(SECDInstr::Binary(BinOp::Lt));
    }
    if tok_is(op, "neg") {
        return Ok(SECDInstr::Unary(UnaOp::Neg));
    }
    if tok_is(op, "not") {
        return Ok(SECDInstr::Unary(UnaOp::Lnot));
    }
    if tok_is(op, "br") {
        if n_args == 1 {
            return Ok(SECDInstr::Branch(BrOp::Br, chars_to_string(&toks[1])));
        }
        return Err(String::from_str("br takes one label"));
    }
    if tok_is(op, "brfl") {
        if n_args == 1 {
            return Ok(SECDInstr::Branch(BrOp::BrFalse, chars_to_string(&toks[1])));
        }
        return Err(String::from_str("brfl takes one label"));
    }
    if tok_is(op, "access") {
        if n_args == 1 {
            match parse_usize(&toks[1]) {
                Some(n) => {
                    return Ok(SECDInstr::Access(n));
                },
                None => {
                    return Err(String::from_str("access takes one integer"));
                },
            }
        }
        return Err(String::from_str("access takes one integer"));
    }
    if tok_is(op, "focus") {
        if n_args == 1 {
            match parse_usize(&toks[1]) {
                Some(n) => {
                    return Ok(SECDInstr::Focus(n));
                },
                None => {
                    return Err(String::from_str("focus takes one integer"));
                },
            }
        }
        return Err(String::from_str("focus takes one integer"));
    }
    if tok_is(op, "pop") {
        if n_args == 1 {
            match parse_usize(&toks[1]) {
                Some(n) => {
                    return Ok(SECDInstr::Pop(n));
                },
                None => {
                    return Err(String::from_str("pop takes one integer"));
                },
            }
        }
        return Err(String::from_str("pop takes one integer"));
    }
    if tok_is(op, "closure") {
        if n_args == 1 {
            return Ok(SECDInstr::Closure(chars_to_string(&toks[1])));
        }
        return Err(String::from_str("closure takes one label"));
    }
    if tok_is(op, "closures") {
        if n_args >= 1 {
            let mut labels: Vec<String> = Vec::new();
            let mut i: usize = 1;
            while i < toks.len()
                invariant
                    1 <= i <= toks@.len(),
                    labels@.len() == i - 1,
                    tv == token_views(toks@),
                    forall|j: int| 0 <= j < i - 1 ==> (#[trigger] labels@[j])@ == tv[j + 1],
                decreases toks@.len() - i,
            {
                labels.push(chars_to_string(&toks[i]));
                proof {
                    assert(tv[i as int] == toks@[i as int]@);
                }
                i = i + 1;
            }
            proof {
                assert forall|j: int| 0 <= j < labels@.len() implies label_views(labels@)[j]
                    == tv.skip(1)[j] by {
                    assert(label_views(labels@)[j] == labels@[j]@);
                }
                assert(label_views(labels@) =~= tv.skip(1));
            }
            return Ok(SECDInstr::Closures(labels));
        }
        return Err(String::from_str("closures takes at least one label"));
    }
    if tok_is(op, "const") {
        if n_args == 1 {
            match parse_i64(&toks[1]) {
                Some(v) => {
                    return Ok(SECDInstr::Const(SECDVal::IntVal(v)));
                },
                None => {
                    return Err(String::from_str("const takes one integer"));
                },
            }
        }
        return Err(String::from_str("const takes one integer"));
    }
    if tok_is(op, "builtin") {
        if n_args == 1 {
            if tok_is(&toks[1], "println") {
                return Ok(SECDInstr::Builtin(BuiltinOp::Println));
            }
            if tok_is(&toks[1], "nth") {
                return Ok(SECDInstr::Builtin(BuiltinOp::Nth));
            }
            return Err(String::from_str("unknown builtin"));
        }
        return Err(String::from_str("builtin takes one name"));
    }
    if tok_is(op, "return") {
        return Ok(SECDInstr::Return);
    }
    if tok_is(op, "halt") {
        return Ok(SECDInstr::Halt);
    }
    if tok_is(op, "apply") {
        return Ok(SECDInstr::Apply);
    }
    if tok_is(op, "pushenv") {
        return Ok(SECDInstr::PushEnv);
    }
    Err(String::from_str("unknown opcode"))
}

/// All lines parsed, in order; `None` if any line is malformed.
pub open spec fn spec_parse_lines(ls: Seq<Seq<char>>) -> Option<Seq<SECDInstrV>>
    decreases ls.len(),
{
    if ls.len() == 0 {
        Some(Seq::empty())
    } else {
        match (spec_parse_lines(ls.drop_last()), spec_parse_line(ls.last())) {
            (Some(is), Some(i)) => Some(is.push(i)),
            _ => None,
        }
    }
}

/// Parses instruction text, one instruction per line.
pub fn secd_parse(lines: &Vec<String>) -> (r: Result<Vec<SECDInstr>, String>)
    ensures
        match spec_parse_lines(crate::utils::string_views(lines@)) {
            Some(ivs) => r matches Ok(is) && instr_models(is@) == ivs,
            None => r is Err,
        },
{
    let ghost lv = crate::utils::string_views(lines@);
    let mut out: Vec<SECDInstr> = Vec::new();
    let mut i: usize = 0;
    while i < lines.len()
        invariant
            0 <= i <= lines@.len(),
            lv == crate::utils::string_views(lines@),
            spec_parse_lines(lv.take(i as int)) == Some(instr_models(out@)),
        decreases lines@.len() - i,
    {
        proof {
            assert(lv.take(i + 1).drop_last() =~= lv.take(i as int));
            assert(lv.take(i + 1).last() == lines@[i as int]@);
        }
        let cs = string_to_chars(lines[i].as_str());
        match parse_instr_line(&cs) {
            Ok(instr) => {
                let ghost ig = instr;
                out.push(instr);
                proof {
                    assert(out@.drop_last() =~= out@.take(out@.len() - 1));
                    assert(instr_models(out@) =~= instr_models(out@.drop_last()).push(ig.model()));
                }
            },
            Err(e) => {
                proof {
                    assert(spec_parse_lines(lv.take(i + 1)) is None);
                    lemma_parse_lines_prefix_none(lv, i + 1);
                }
                return Err(e);
            },
        }
        i = i + 1;
    }
    proof {
        assert(lv.take(lines@.len() as int) =~= lv);
    }
    Ok(out)
}

/// If a prefix of the lines fails to parse, the whole text does.
proof fn lemma_parse_lines_prefix_none(ls: Seq<Seq<char>>, n: int)
    requires
        0 <= n <= ls.len(),
        spec_parse_lines(ls.take(n)) is None,
    ensures
        spec_parse_lines(ls) is None,
    decreases ls.len() - n,
{
    if n == ls.len() {
        assert(ls.take(n) =~= ls);
    } else {
        assert(ls.take(n + 1).drop_last() =~= ls.take(n));
        lemma_parse_lines_prefix_none(ls, n + 1);
    }
}

/// Lowers a surface binary operator to its machine counterpart.
pub fn translate_binop(op: crate::ast::BinOp) -> (r: BinOp)
    ensures
        r == spec_translate_binop(op),
{
    match op {
        crate::ast::BinOp::Add => BinOp::Add,
        crate::ast::BinOp::Sub => BinOp::Sub,
        crate::ast::BinOp::Mul => BinOp::Mul,
        crate::ast::BinOp::Div => BinOp::Div,
        crate::ast::BinOp::Rem => BinOp::Rem,
        crate::ast::BinOp::Gt => BinOp::Gt,
        crate::ast::BinOp::Lt => BinOp::Lt,
        crate::ast::BinOp::Ge => BinOp::Ge,
        crate::ast::BinOp::Le => BinOp::Le,
        crate::ast::BinOp::Eq => BinOp::Eq,
        crate::ast::BinOp::Ne => BinOp::Ne,
        crate::ast::BinOp::Land => BinOp::Land,
        crate::ast::BinOp::Lor => BinOp::Lor,
        crate::ast::BinOp::Lxor => BinOp::Lxor,
    }
}

/// The machine counterpart of each surface binary operator.
pub open spec fn spec_translate_binop(op: crate::ast::BinOp) -> BinOp {
    match op {
        crate::ast::BinOp::Add => BinOp::Add,
        crate::ast::BinOp::Sub => BinOp::Sub,
        crate::ast::BinOp::Mul => BinOp::Mul,
        crate::ast::BinOp::Div => BinOp::Div,
        crate::ast::BinOp::Rem => BinOp::Rem,
        crate::ast::BinOp::Gt => BinOp::Gt,
        crate::ast::BinOp::Lt => BinOp::Lt,
        crate::ast::BinOp::Ge => BinOp::Ge,
        crate::ast::BinOp::Le => BinOp::Le,
        crate::ast::BinOp::Eq => BinOp::Eq,
        crate::ast::BinOp::Ne => BinOp::Ne,
        crate::ast::BinOp::Land => BinOp::Land,
        crate::ast::BinOp::Lor => BinOp::Lor,
        crate::ast::BinOp::Lxor => BinOp::Lxor,
    }
}

/// The machine counterpart of each surface unary operator.
pub open spec fn spec_translate_unaop(op: crate::ast::UnaOp) -> UnaOp {
    match op {
        crate::ast::UnaOp::Neg => UnaOp::Neg,
        crate::ast::UnaOp::Lnot => UnaOp::Lnot,
    }
}

/// Lowers a surface unary operator to its machine counterpart.
pub fn translate_unaop(op: crate::ast::UnaOp) -> (r: UnaOp)
    ensures
        r == spec_translate_unaop(op),
{
    match op {
        crate::ast::UnaOp::Neg => UnaOp::Neg,
        crate::ast::UnaOp::Lnot => UnaOp::Lnot,
    }
}

/// Lowers a surface built-in to its machine counterpart.  `true` and
/// `false` have no machine built-in: the code generator lowers them to
/// integer constants before this point.
pub fn translate_builtinop(op: crate::ast::BuiltinOp) -> (r: BuiltinOp)
    requires
        op == crate::ast::BuiltinOp::Println || op == crate::ast::BuiltinOp::Nth,
    ensures
        op == crate::ast::BuiltinOp::Println ==> r == BuiltinOp::Println,
        op == crate::ast::BuiltinOp::Nth ==> r == BuiltinOp::Nth,
{
    match op {
        crate::ast::BuiltinOp::Println => BuiltinOp::Println,
        _ => BuiltinOp::Nth,
    }
}

/// No opcode word contains whitespace.
proof fn lemma_opcode_words_nonspace()
    ensures
        forall|i: int| 0 <= i < "add"@.len() ==> !spec_is_space(#[trigger] "add"@[i]),
        forall|i: int| 0 <= i < "sub"@.len() ==> !spec_is_space(#[trigger] "sub"@[i]),
        forall|i: int| 0 <= i < "mul"@.len() ==> !spec_is_space(#[trigger] "mul"@[i]),
        forall|i: int| 0 <= i < "div"@.len() ==> !spec_is_space(#[trigger] "div"@[i]),
        forall|i: int| 0 <= i < "rem"@.len() ==> !spec_is_space(#[trigger] "rem"@[i]),
        forall|i: int| 0 <= i < "eq"@.len() ==> !spec_is_space(#[trigger] "eq"@[i]),
        forall|i: int| 0 <= i < "ne"@.len() ==> !spec_is_space(#[trigger] "ne"@[i]),
        forall|i: int| 0 <= i < "ge"@.len() ==> !spec_is_space(#[trigger] "ge"@[i]),
        forall|i: int| 0 <= i < "le"@.len() ==> !spec_is_space(#[trigger] "le"@[i]),
        forall|i: int| 0 <= i < "gt"@.len() ==> !spec_is_space(#[trigger] "gt"@[i]),
        forall|i: int| 0 <= i < "lt"@.len() ==> !spec_is_space(#[trigger] "lt"@[i]),
        forall|i: int| 0 <= i < "neg"@.len() ==> !spec_is_space(#[trigger] "neg"@[i]),
        forall|i: int| 0 <= i < "not"@.len() ==> !spec_is_space(#[trigger] "not"@[i]),
        forall|i: int| 0 <= i < "br"@.len() ==> !spec_is_space(#[trigger] "br"@[i]),
        forall|i: int| 0 <= i < "brfl"@.len() ==> !spec_is_space(#[trigger] "brfl"@[i]),
        forall|i: int| 0 <= i < "access"@.len() ==> !spec_is_space(#[trigger] "access"@[i]),
        forall|i: int| 0 <= i < "focus"@.len() ==> !spec_is_space(#[trigger] "focus"@[i]),
        forall|i: int| 0 <= i < "pop"@.len() ==> !spec_is_space(#[trigger] "pop"@[i]),
        forall|i: int| 0 <= i < "closure"@.len() ==> !spec_is_space(#[trigger] "closure"@[i]),
        forall|i: int| 0 <= i < "closures"@.len() ==> !spec_is_space(#[trigger] "closures"@[i]),
        forall|i: int| 0 <= i < "const"@.len() ==> !spec_is_space(#[trigger] "const"@[i]),
        forall|i: int| 0 <= i < "builtin"@.len() ==> !spec_is_space(#[trigger] "builtin"@[i]),
        forall|i: int| 0 <= i < "println"@.len() ==> !spec_is_space(#[trigger] "println"@[i]),
        forall|i: int| 0 <= i < "nth"@.len() ==> !spec_is_space(#[trigger] "nth"@[i]),
        forall|i: int| 0 <= i < "return"@.len() ==> !spec_is_space(#[trigger] "return"@[i]),
        forall|i: int| 0 <= i < "halt"@.len() ==> !spec_is_space(#[trigger] "halt"@[i]),
        forall|i: int| 0 <= i < "apply"@.len() ==> !spec_is_space(#[trigger] "apply"@[i]),
        forall|i: int| 0 <= i < "pushenv"@.len() ==> !spec_is_space(#[trigger] "pushenv"@[i]),
{
    reveal_strlit("add");
    reveal_strlit("sub");
    reveal_strlit("mul");
    reveal_strlit("div");
    reveal_strlit("rem");
    reveal_strlit("eq");
    reveal_strlit("ne");
    reveal_strlit("ge");
    reveal_strlit("le");
    reveal_strlit("gt");
    reveal_strlit("lt");
    reveal_strlit("neg");
    reveal_strlit("not");
    reveal_strlit("br");
    reveal_strlit("brfl");
    reveal_strlit("access");
    reveal_strlit("focus");
    reveal_strlit("pop");
    reveal_strlit("closure");
    reveal_strlit("closures");
    reveal_strlit("const");
    reveal_strlit("builtin");
    reveal_strlit("println");
    reveal_strlit("nth");
    reveal_strlit("return");
    reveal_strlit("halt");
    reveal_strlit("apply");
    reveal_strlit("pushenv");
    assert forall|i: int| 0 <= i < "add"@.len() implies !spec_is_space(#[trigger] "add"@[i]) by {
        if i == 0 {
            assert("add"@[0] == 'a');
        }
        else if i == 1 {
            assert("add"@[1] == 'd');
        }
        else if i == 2 {
            assert("add"@[2] == 'd');
        }
    }
    assert forall|i: int| 0 <= i < "sub"@.len() implies !spec_is_space(#[trigger] "sub"@[i]) by {
        if i == 0 {
            assert("sub"@[0] == 's');
        }
        else if i == 1 {
            assert("sub"@[1] == 'u');
        }
        else if i == 2 {
            assert("sub"@[2] == 'b');
        }
    }
    assert forall|i: int| 0 <= i < "mul"@.len() implies !spec_is_space(#[trigger] "mul"@[i]) by {
        if i == 0 {
            assert("mul"@[0] == 'm');
        }
        else if i == 1 {
            assert("mul"@[1] == 'u');
        }
        else if i == 2 {
            assert("mul"@[2] == 'l');
        }
    }
    assert forall|i: int| 0 <= i < "div"@.len() implies !spec_is_space(#[trigger] "div"@[i]) by {
        if i == 0 {
            assert("div"@[0] == 'd');
        }
        else if i == 1 {
            assert("div"@[1] == 'i');
        }
        else if i == 2 {
            assert("div"@[2] == 'v');
        }
    }
    assert forall|i: int| 0 <= i < "rem"@.len() implies !spec_is_space(#[trigger] "rem"@[i]) by {
        if i == 0 {
            assert("rem"@[0] == 'r');
        }
        else if i == 1 {
            assert("rem"@[1] == 'e');
        }
        else if i == 2 {
            assert("rem"@[2] == 'm');
        }
    }
    assert forall|i: int| 0 <= i < "eq"@.len() implies !spec_is_space(#[trigger] "eq"@[i]) by {
        if i == 0 {
            assert("eq"@[0] == 'e');
        }
        else if i == 1 {
            assert("eq"@[1] == 'q');
        }
    }
    assert forall|i: int| 0 <= i < "ne"@.len() implies !spec_is_space(#[trigger] "ne"@[i]) by {
        if i == 0 {
            assert("ne"@[0] == 'n');
        }
        else if i == 1 {
            assert("ne"@[1] == 'e');
        }
    }
    assert forall|i: int| 0 <= i < "ge"@.len() implies !spec_is_space(#[trigger] "ge"@[i]) by {
        if i == 0 {
            assert("ge"@[0] == 'g');
        }
        else if i == 1 {
            assert("ge"@[1] == 'e');
        }
    }
    assert forall|i: int| 0 <= i < "le"@.len() implies !spec_is_space(#[trigger] "le"@[i]) by {
        if i == 0 {
            assert("le"@[0] == 'l');
        }
        else if i == 1 {
            assert("le"@[1] == 'e');
        }
    }
    assert forall|i: int| 0 <= i < "gt"@.len() implies !spec_is_space(#[trigger] "gt"@[i]) by {
        if i == 0 {
            assert("gt"@[0] == 'g');
        }
        else if i == 1 {
            assert("gt"@[1] == 't');
        }
    }
    assert forall|i: int| 0 <= i < "lt"@.len() implies !spec_is_space(#[trigger] "lt"@[i]) by {
        if i == 0 {
            assert("lt"@[0] == 'l');
        }
        else if i == 1 {
            assert("lt"@[1] == 't');
        }
    }
    assert forall|i: int| 0 <= i < "neg"@.len() implies !spec_is_space(#[trigger] "neg"@[i]) by {
        if i == 0 {
            assert("neg"@[0] == 'n');
        }
        else if i == 1 {
            assert("neg"@[1] == 'e');
        }
        else if i == 2 {
            assert("neg"@[2] == 'g');
        }
    }
    assert forall|i: int| 0 <= i < "not"@.len() implies !spec_is_space(#[trigger] "not"@[i]) by {
        if i == 0 {
            assert("not"@[0] == 'n');
        }
        else if i == 1 {
            assert("not"@[1] == 'o');
        }
        else if i == 2 {
            assert("not"@[2] == 't');
        }
    }
    assert forall|i: int| 0 <= i < "br"@.len() implies !spec_is_space(#[trigger] "br"@[i]) by {
        if i == 0 {
            assert("br"@[0] == 'b');
        }
        else if i == 1 {
            assert("br"@[1] == 'r');
        }
    }
    assert forall|i: int| 0 <= i < "brfl"@.len() implies !spec_is_space(#[trigger] "brfl"@[i]) by {
        if i == 0 {
            assert("brfl"@[0] == 'b');
        }
        else if i == 1 {
            assert("brfl"@[1] == 'r');
        }
        else if i == 2 {
            assert("brfl"@[2] == 'f');
        }
        else if i == 3 {
            assert("brfl"@[3] == 'l');
        }
    }
    assert forall|i: int| 0 <= i < "access"@.len() implies !spec_is_space(#[trigger] "access"@[i]) by {
        if i == 0 {
            assert("access"@[0] == 'a');
        }
        else if i == 1 {
            assert("access"@[1] == 'c');
        }
        else if i == 2 {
            assert("access"@[2] == 'c');
        }
        else if i == 3 {
            assert("access"@[3] == 'e');
        }
        else if i == 4 {
            assert("access"@[4] == 's');
        }
        else if i == 5 {
            assert("access"@[5] == 's');
        }
    }
    assert forall|i: int| 0 <= i < "focus"@.len() implies !spec_is_space(#[trigger] "focus"@[i]) by {
        if i == 0 {
            assert("focus"@[0] == 'f');
        }
        else if i == 1 {
            assert("focus"@[1] == 'o');
        }
        else if i == 2 {
            assert("focus"@[2] == 'c');
        }
        else if i == 3 {
            assert("focus"@[3] == 'u');
        }
        else if i == 4 {
            assert("focus"@[4] == 's');
        }
    }
    assert forall|i: int| 0 <= i < "pop"@.len() implies !spec_is_space(#[trigger] "pop"@[i]) by {
        if i == 0 {
            assert("pop"@[0] == 'p');
        }
        else if i == 1 {
            assert("pop"@[1] == 'o');
        }
        else if i == 2 {
            assert("pop"@[2] == 'p');
        }
    }
    assert forall|i: int| 0 <= i < "closure"@.len() implies !spec_is_space(#[trigger] "closure"@[i]) by {
        if i == 0 {
            assert("closure"@[0] == 'c');
        }
        else if i == 1 {
            assert("closure"@[1] == 'l');
        }
        else if i == 2 {
            assert("closure"@[2] == 'o');
        }
        else if i == 3 {
            assert("closure"@[3] == 's');
        }
        else if i == 4 {
            assert("closure"@[4] == 'u');
        }
        else if i == 5 {
            assert("closure"@[5] == 'r');
        }
        else if i == 6 {
            assert("closure"@[6] == 'e');
        }
    }
    assert forall|i: int| 0 <= i < "closures"@.len() implies !spec_is_space(#[trigger] "closures"@[i]) by {
        if i == 0 {
            assert("closures"@[0] == 'c');
        }
        else if i == 1 {
            assert("closures"@[1] == 'l');
        }
        else if i == 2 {
            assert("closures"@[2] == 'o');
        }
        else if i == 3 {
            assert("closures"@[3] == 's');
        }
        else if i == 4 {
            assert("closures"@[4] == 'u');
        }
        else if i == 5 {
            assert("closures"@[5] == 'r');
        }
        else if i == 6 {
            assert("closures"@[6] == 'e');
        }
        else if i == 7 {
            assert("closures"@[7] == 's');
        }
    }
    assert forall|i: int| 0 <= i < "const"@.len() implies !spec_is_space(#[trigger] "const"@[i]) by {
        if i == 0 {
            assert("const"@[0] == 'c');
        }
        else if i == 1 {
            assert("const"@[1] == 'o');
        }
        else if i == 2 {
            assert("const"@[2] == 'n');
        }
        else if i == 3 {
            assert("const"@[3] == 's');
        }
        else if i == 4 {
            assert("const"@[4] == 't');
        }
    }
    assert forall|i: int| 0 <= i < "builtin"@.len() implies !spec_is_space(#[trigger] "builtin"@[i]) by {
        if i == 0 {
            assert("builtin"@[0] == 'b');
        }
        else if i == 1 {
            assert("builtin"@[1] == 'u');
        }
        else if i == 2 {
            assert("builtin"@[2] == 'i');
        }
        else if i == 3 {
            assert("builtin"@[3] == 'l');
        }
        else if i == 4 {
            assert("builtin"@[4] == 't');
        }
        else if i == 5 {
            assert("builtin"@[5] == 'i');
        }
        else if i == 6 {
            assert("builtin"@[6] == 'n');
        }
    }
    assert forall|i: int| 0 <= i < "println"@.len() implies !spec_is_space(#[trigger] "println"@[i]) by {
        if i == 0 {
            assert("println"@[0] == 'p');
        }
        else if i == 1 {
            assert("println"@[1] == 'r');
        }
        else if i == 2 {
            assert("println"@[2] == 'i');
        }
        else if i == 3 {
            assert("println"@[3] == 'n');
        }
        else if i == 4 {
            assert("println"@[4] == 't');
        }
        else if i == 5 {
            assert("println"@[5] == 'l');
        }
        else if i == 6 {
            assert("println"@[6] == 'n');
        }
    }
    assert forall|i: int| 0 <= i < "nth"@.len() implies !spec_is_space(#[trigger] "nth"@[i]) by {
        if i == 0 {
            assert("nth"@[0] == 'n');
        }
        else if i == 1 {
            assert("nth"@[1] == 't');
        }
        else if i == 2 {
            assert("nth"@[2] == 'h');
        }
    }
    assert forall|i: int| 0 <= i < "return"@.len() implies !spec_is_space(#[trigger] "return"@[i]) by {
        if i == 0 {
            assert("return"@[0] == 'r');
        }
        else if i == 1 {
            assert("return"@[1] == 'e');
        }
        else if i == 2 {
            assert("return"@[2] == 't');
        }
        else if i == 3 {
            assert("return"@[3] == 'u');
        }
        else if i == 4 {
            assert("return"@[4] == 'r');
        }
        else if i == 5 {
            assert("return"@[5] == 'n');
        }
    }
    assert forall|i: int| 0 <= i < "halt"@.len() implies !spec_is_space(#[trigger] "halt"@[i]) by {
        if i == 0 {
            assert("halt"@[0] == 'h');
        }
        else if i == 1 {
            assert("halt"@[1] == 'a');
        }
        else if i == 2 {
            assert("halt"@[2] == 'l');
        }
        else if i == 3 {
            assert("halt"@[3] == 't');
        }
    }
    assert forall|i: int| 0 <= i < "apply"@.len() implies !spec_is_space(#[trigger] "apply"@[i]) by {
        if i == 0 {
            assert("apply"@[0] == 'a');
        }
        else if i == 1 {
            assert("apply"@[1] == 'p');
        }
        else if i == 2 {
            assert("apply"@[2] == 'p');
        }
        else if i == 3 {
            assert("apply"@[3] == 'l');
        }
        else if i == 4 {
            assert("apply"@[4] == 'y');
        }
    }
    assert forall|i: int| 0 <= i < "pushenv"@.len() implies !spec_is_space(#[trigger] "pushenv"@[i]) by {
        if i == 0 {
            assert("pushenv"@[0] == 'p');
        }
        else if i == 1 {
            assert("pushenv"@[1] == 'u');
        }
        else if i == 2 {
            assert("pushenv"@[2] == 's');
        }
        else if i == 3 {
            assert("pushenv"@[3] == 'h');
        }
        else if i == 4 {
            assert("pushenv"@[4] == 'e');
        }
        else if i == 5 {
            assert("pushenv"@[5] == 'n');
        }
        else if i == 6 {
            assert("pushenv"@[6] == 'v');
        }
    }
}

/// Digit strings contain no whitespace.
proof fn lemma_digits_nonspace(s: Seq<char>)
    requires
        all_digits(s),
    ensures
        forall|i: int| 0 <= i < s.len() ==> !spec_is_space(#[trigger] s[i]),
{
    assert forall|i: int| 0 <= i < s.len() implies !spec_is_space(#[trigger] s[i]) by {
        assert(spec_is_digit(s[i]));
    }
}

/// A signed numeral contains no whitespace.
proof fn lemma_int_dec_nonspace(v: int)
    ensures
        dec_of_int(v).len() >= 1,
        forall|i: int| 0 <= i < dec_of_int(v).len() ==> !spec_is_space(#[trigger] dec_of_int(v)[i]),
{
    if v >= 0 {
        lemma_dec_of_digits(v as nat);
        lemma_digits_nonspace(dec_of(v as nat));
    } else {
        lemma_dec_of_digits((-v) as nat);
        lemma_digits_nonspace(dec_of((-v) as nat));
        assert forall|i: int| 0 <= i < dec_of_int(v).len() implies !spec_is_space(
            #[trigger] dec_of_int(v)[i],
        ) by {
            if i == 0 {
                assert(dec_of_int(v)[0] == '-');
            } else {
                assert(dec_of_int(v)[i] == dec_of((-v) as nat)[i - 1]);
                assert(!spec_is_space(dec_of((-v) as nat)[i - 1]));
            }
        }
    }
}

/// A non-blank word followed by nothing or by whitespace is one token.
proof fn lemma_tokenize_word(w: Seq<char>, s: Seq<char>)
    requires
        w.len() >= 1,
        forall|i: int| 0 <= i < w.len() ==> !spec_is_space(#[trigger] w[i]),
        s.len() == 0 || spec_is_space(s[0]),
    ensures
        spec_tokenize(w + s) == seq![w] + spec_tokenize(s),
{
    let t = w + s;
    assert(forall|k: int| 0 <= k < w.len() ==> t[k] == w[k]);
    lemma_token_len(t, w.len() as int);
    assert(!spec_is_space(t[0]));
    assert(t.take(w.len() as int) =~= w);
    assert(t.skip(w.len() as int) =~= s);
}

/// A single non-blank word is one token.
proof fn lemma_tokenize_single(w: Seq<char>)
    requires
        w.len() >= 1,
        forall|i: int| 0 <= i < w.len() ==> !spec_is_space(#[trigger] w[i]),
    ensures
        spec_tokenize(w) == seq![w],
{
    lemma_tokenize_word(w, Seq::empty());
    assert(w + Seq::<char>::empty() =~= w);
    assert(seq![w] + spec_tokenize(Seq::<char>::empty()) =~= seq![w]);
}

/// An opcode word and one operand are exactly two tokens.
proof fn lemma_tokenize_pair(w: Seq<char>, arg: Seq<char>)
    requires
        w.len() >= 1,
        arg.len() >= 1,
        forall|i: int| 0 <= i < w.len() ==> !spec_is_space(#[trigger] w[i]),
        forall|i: int| 0 <= i < arg.len() ==> !spec_is_space(#[trigger] arg[i]),
    ensures
        spec_tokenize(w + seq![' '] + arg) == seq![w, arg],
{
    assert(w + seq![' '] + arg =~= w + (seq![' '] + arg));
    lemma_tokenize_word(w, seq![' '] + arg);
    assert((seq![' '] + arg).drop_first() =~= arg);
    lemma_tokenize_single(arg);
    assert(seq![w] + seq![arg] =~= seq![w, arg]);
}

/// A printed bundle of labels tokenizes back into the labels.
proof fn lemma_tokenize_labels(ls: Seq<Seq<char>>)
    requires
        forall|k: int| 0 <= k < ls.len() ==> wf_label(#[trigger] ls[k]),
    ensures
        spec_tokenize(print_labels(ls)) == ls,
    decreases ls.len(),
{
    if ls.len() == 0 {
        assert(spec_tokenize(print_labels(ls)) =~= ls);
    } else {
        lemma_tokenize_labels(ls.drop_first());
        let p = print_labels(ls);
        assert(p == seq![' '] + ls.first() + print_labels(ls.drop_first()));
        assert(p[0] == ' ');
        assert(p.drop_first() =~= ls.first() + print_labels(ls.drop_first()));
        if ls.drop_first().len() == 0 {
            assert(print_labels(ls.drop_first()) == Seq::<char>::empty());
        } else {
            assert(print_labels(ls.drop_first())[0] == ' ');
        }
        assert(wf_label(ls.first()));
        lemma_tokenize_word(ls.first(), print_labels(ls.drop_first()));
        assert(seq![ls.first()] + ls.drop_first() =~= ls);
    }
}

/// Parsing a printed unsigned operand gives the operand back.
proof fn lemma_parse_usize_dec(n: usize)
    ensures
        spec_parse_usize(dec_of(n as nat)) == Some(n),
{
    crate::num::lemma_parse_dec_of(n as u64);
}

/// Parsing a printed signed operand gives the operand back.
proof fn lemma_parse_int_dec(v: i64)
    ensures
        spec_parse_i64(dec_of_int(v as int)) == Some(v),
{
    if v >= 0 {
        crate::num::lemma_parse_dec_of(v as u64);
        lemma_dec_of_digits(v as nat);
        assert(!spec_is_digit('-'));
        assert(spec_is_digit(dec_of(v as nat)[0]));
        assert(dec_of_int(v as int)[0] != '-');
    } else {
        let m = (-(v as int)) as nat;
        crate::num::lemma_parse_dec_of(m as u64);
        assert(dec_of_int(v as int) == seq!['-'] + dec_of(m));
        assert(dec_of_int(v as int)[0] == '-');
        assert(dec_of_int(v as int).drop_first() =~= dec_of(m));
    }
}

/// Parsing a printed instruction gives the instruction back (the textual
/// round trip of the instruction format).
pub proof fn lemma_instr_round_trip(iv: SECDInstrV)
    requires
        wf_instr(iv),
    ensures
        spec_parse_line(spec_print_instr(iv)) == Some(iv),
{
    reveal_strlit("add");
    reveal_strlit("sub");
    reveal_strlit("mul");
    reveal_strlit("div");
    reveal_strlit("rem");
    reveal_strlit("eq");
    reveal_strlit("ne");
    reveal_strlit("ge");
    reveal_strlit("le");
    reveal_strlit("gt");
    reveal_strlit("lt");
    reveal_strlit("neg");
    reveal_strlit("not");
    reveal_strlit("br");
    reveal_strlit("brfl");
    reveal_strlit("access");
    reveal_strlit("focus");
    reveal_strlit("pop");
    reveal_strlit("closure");
    reveal_strlit("closures");
    reveal_strlit("const");
    reveal_strlit("builtin");
    reveal_strlit("println");
    reveal_strlit("nth");
    reveal_strlit("return");
    reveal_strlit("halt");
    reveal_strlit("apply");
    reveal_strlit("pushenv");
    reveal_strlit("pop ");
    reveal_strlit("const ");
    reveal_strlit("access ");
    reveal_strlit("focus ");
    reveal_strlit("closure ");
    reveal_strlit("builtin ");
    lemma_opcode_words_nonspace();
    match iv {
        SECDInstrV::Halt => {
            lemma_tokenize_single("halt"@);
        },
        SECDInstrV::Apply => {
            lemma_tokenize_single("apply"@);
        },
        SECDInstrV::Return => {
            lemma_tokenize_single("return"@);
        },
        SECDInstrV::PushEnv => {
            lemma_tokenize_single("pushenv"@);
        },
        SECDInstrV::Pop(n) => {
            lemma_dec_of_digits(n as nat);
            lemma_digits_nonspace(dec_of(n as nat));
            lemma_tokenize_pair("pop"@, dec_of(n as nat));
            assert("pop "@ + dec_of(n as nat) =~= "pop"@ + seq![' '] + dec_of(n as nat));
            lemma_parse_usize_dec(n);
            assert(spec_tokenize(spec_print_instr(iv)).skip(1) =~= seq![dec_of(n as nat)]);
        },
        SECDInstrV::Access(n) => {
            lemma_dec_of_digits(n as nat);
            lemma_digits_nonspace(dec_of(n as nat));
            lemma_tokenize_pair("access"@, dec_of(n as nat));
            assert("access "@ + dec_of(n as nat) =~= "access"@ + seq![' '] + dec_of(n as nat));
            lemma_parse_usize_dec(n);
            assert(spec_tokenize(spec_print_instr(iv)).skip(1) =~= seq![dec_of(n as nat)]);
        },
        SECDInstrV::Focus(n) => {
            lemma_dec_of_digits(n as nat);
            lemma_digits_nonspace(dec_of(n as nat));
            lemma_tokenize_pair("focus"@, dec_of(n as nat));
            assert("focus "@ + dec_of(n as nat) =~= "focus"@ + seq![' '] + dec_of(n as nat));
            lemma_parse_usize_dec(n);
            assert(spec_tokenize(spec_print_instr(iv)).skip(1) =~= seq![dec_of(n as nat)]);
        },
        SECDInstrV::Const(v) => {
            match v {
                SECDValV::IntVal(x) => {
                    lemma_int_dec_nonspace(x as int);
                    lemma_tokenize_pair("const"@, dec_of_int(x as int));
                    assert("const "@ + dec_of_int(x as int) =~= "const"@ + seq![' '] + dec_of_int(
                        x as int,
                    ));
                    lemma_parse_int_dec(x);
                    assert(spec_tokenize(spec_print_instr(iv)).skip(1) =~= seq![
                        dec_of_int(x as int),
                    ]);
                },
                _ => {
                    assert(false);
                },
            }
        },
        SECDInstrV::Closure(l) => {
            lemma_tokenize_pair("closure"@, l);
            assert("closure "@ + l =~= "closure"@ + seq![' '] + l);
            assert(spec_tokenize(spec_print_instr(iv)).skip(1) =~= seq![l]);
        },
        SECDInstrV::Closures(ls) => {
            lemma_tokenize_labels(ls);
            assert(print_labels(ls)[0] == ' ');
            lemma_tokenize_word("closures"@, print_labels(ls));
            assert(spec_tokenize(spec_print_instr(iv)) == seq!["closures"@] + ls);
            assert(spec_tokenize(spec_print_instr(iv)).skip(1) =~= ls);
        },
        SECDInstrV::Builtin(op) => {
            match op {
                BuiltinOp::Println => {
                    lemma_tokenize_pair("builtin"@, "println"@);
                    assert("builtin "@ + "println"@ =~= "builtin"@ + seq![' '] + "println"@);
                    assert(spec_tokenize(spec_print_instr(iv)).skip(1) =~= seq!["println"@]);
                },
                BuiltinOp::Nth => {
                    lemma_tokenize_pair("builtin"@, "nth"@);
                    assert("builtin "@ + "nth"@ =~= "builtin"@ + seq![' '] + "nth"@);
                    assert(spec_tokenize(spec_print_instr(iv)).skip(1) =~= seq!["nth"@]);
                },
            }
        },
        SECDInstrV::Binary(op) => {
            match op {
                BinOp::Add => {
                    lemma_tokenize_single("add"@);
                },
                BinOp::Sub => {
                    lemma_tokenize_single("sub"@);
                },
                BinOp::Mul => {
                    lemma_tokenize_single("mul"@);
                },
                BinOp::Div => {
                    lemma_tokenize_single("div"@);
                },
                BinOp::Rem => {
                    lemma_tokenize_single("rem"@);
                },
                BinOp::Eq => {
                    lemma_tokenize_single("eq"@);
                },
                BinOp::Ne => {
                    lemma_tokenize_single("ne"@);
                },
                BinOp::Ge => {
                    lemma_tokenize_single("ge"@);
                },
                BinOp::Le => {
                    lemma_tokenize_single("le"@);
                },
                BinOp::Gt => {
                    lemma_tokenize_single("gt"@);
                },
                BinOp::Lt => {
                    lemma_tokenize_single("lt"@);
                },
                _ => {
                    assert(false);
                },
            }
        },
        SECDInstrV::Unary(op) => {
            match op {
                UnaOp::Neg => {
                    lemma_tokenize_single("neg"@);
                },
                UnaOp::Lnot => {
                    lemma_tokenize_single("not"@);
                },
            }
        },
        SECDInstrV::Branch(op, l) => {
            match op {
                BrOp::Br => {
                    lemma_tokenize_pair("br"@, l);
                    assert(brop_text(op) + seq![' '] + l =~= "br"@ + seq![' '] + l);
                },
                BrOp::BrFalse => {
                    lemma_tokenize_pair("brfl"@, l);
                    assert(brop_text(op) + seq![' '] + l =~= "brfl"@ + seq![' '] + l);
                },
            }
            assert(spec_tokenize(spec_print_instr(iv)).skip(1) =~= seq![l]);
        },
        SECDInstrV::Label(l) => {
            let w = l + seq![':'];
            assert forall|i: int| 0 <= i < w.len() implies !spec_is_space(#[trigger] w[i]) by {
                if i < l.len() {
                    assert(w[i] == l[i]);
                } else {
                    assert(w[i] == ':');
                }
            }
            lemma_tokenize_single(w);
            assert(w.last() == ':');
            assert(w.drop_last() =~= l);
        },
    }
}

/// The texts of a sequence of instructions, one line each.
pub open spec fn print_instr_lines(ivs: Seq<SECDInstrV>) -> Seq<Seq<char>> {
    ivs.map_values(|i: SECDInstrV| spec_print_instr(i))
}

/// Instruction text is round-trippable: parsing the printed lines of any
/// printable instruction sequence gives the sequence back.
pub proof fn lemma_instrs_round_trip(ivs: Seq<SECDInstrV>)
    requires
        forall|k: int| 0 <= k < ivs.len() ==> wf_instr(#[trigger] ivs[k]),
    ensures
        spec_parse_lines(print_instr_lines(ivs)) == Some(ivs),
    decreases ivs.len(),
{
    if ivs.len() == 0 {
        assert(spec_parse_lines(print_instr_lines(ivs)) =~= Some(Seq::<SECDInstrV>::empty()));
        assert(ivs =~= Seq::<SECDInstrV>::empty());
    } else {
        lemma_instrs_round_trip(ivs.drop_last());
        lemma_instr_round_trip(ivs.last());
        assert(print_instr_lines(ivs).drop_last() =~= print_instr_lines(ivs.drop_last()));
        assert(print_instr_lines(ivs).last() == spec_print_instr(ivs.last()));
        assert(ivs.drop_last().push(ivs.last()) =~= ivs);
    }
}

/// The length of the first line of `s` (up to a line feed or the end).
pub open spec fn line_len(s: Seq<char>) -> nat
    decreases s,
{
    if s.len() == 0 || s[0] == '\n' {
        0
    } else {
        1 + line_len(s.drop_first())
    }
}

/// The first line is as long as its run of non-line-feed characters.
proof fn lemma_line_len(s: Seq<char>, n: int)
    requires
        0 <= n <= s.len(),
        forall|k: int| 0 <= k < n ==> s[k] != '\n',
        n == s.len() || s[n] == '\n',
    ensures
        line_len(s) == n,
    decreases n,
{
    if n > 0 {
        lemma_line_len(s.drop_first(), n - 1);
    }
}

/// The first line is at most the whole text.
proof fn lemma_line_len_bound(s: Seq<char>)
    ensures
        line_len(s) <= s.len(),
    decreases s,
{
    if s.len() > 0 && s[0] != '\n' {
        lemma_line_len_bound(s.drop_first());
    }
}

/// The lines of `s`, split at line feeds.
pub open spec fn spec_split_lines(s: Seq<char>) -> Seq<Seq<char>>
    decreases s.len(),
    via spec_split_lines_decreases
{
    if s.len() == 0 {
        Seq::empty()
    } else {
        let n = line_len(s) as int;
        if n == s.len() {
            seq![s]
        } else {
            seq![s.take(n)] + spec_split_lines(s.skip(n + 1))
        }
    }
}

#[via_fn]
proof fn spec_split_lines_decreases(s: Seq<char>) {
    lemma_line_len_bound(s);
}

/// The number of leading whitespace characters of `s`.
pub open spec fn leading_ws(s: Seq<char>) -> nat
    decreases s,
{
    if s.len() == 0 || !spec_is_space(s[0]) {
        0
    } else {
        1 + leading_ws(s.drop_first())
    }
}

/// `s` without its trailing whitespace.
pub open spec fn trim_end(s: Seq<char>) -> Seq<char>
    decreases s,
{
    if s.len() == 0 || !spec_is_space(s.last()) {
        s
    } else {
        trim_end(s.drop_last())
    }
}

/// `s` without its leading and trailing whitespace.
pub open spec fn spec_trim(s: Seq<char>) -> Seq<char> {
    trim_end(s.skip(leading_ws(s) as int))
}

/// The leading whitespace is as long as its run of whitespace characters.
proof fn lemma_leading_ws(s: Seq<char>, n: int)
    requires
        0 <= n <= s.len(),
        forall|k: int| 0 <= k < n ==> spec_is_space(#[trigger] s[k]),
        n == s.len() || !spec_is_space(s[n]),
    ensures
        leading_ws(s) == n,
    decreases n,
{
    if n > 0 {
        lemma_leading_ws(s.drop_first(), n - 1);
    }
}

/// Trimming the end keeps the prefix before the trailing whitespace.
proof fn lemma_trim_end(s: Seq<char>, n: int)
    requires
        0 <= n <= s.len(),
        forall|k: int| n <= k < s.len() ==> spec_is_space(#[trigger] s[k]),
        n == 0 || !spec_is_space(s[n - 1]),
    ensures
        trim_end(s) == s.take(n),
    decreases s.len(),
{
    if s.len() == n {
        assert(s.take(n) =~= s);
    } else {
        assert(spec_is_space(s.last()));
        lemma_trim_end(s.drop_last(), n);
        assert(s.drop_last().take(n) =~= s.take(n));
    }
}

/// Trims whitespace from both ends of `v`, from position `from` up to `to`.
fn trim_chars(v: &Vec<char>, from: usize, to: usize) -> (r: Vec<char>)
    requires
        from <= to <= v@.len(),
    ensures
        r@ == spec_trim(v@.subrange(from as int, to as int)),
{
    let ghost s = v@.subrange(from as int, to as int);
    let mut a: usize = from;
    while a < to && is_space(v[a])
        invariant
            from <= a <= to <= v@.len(),
            forall|k: int| from <= k < a ==> spec_is_space(#[trigger] v@[k]),
        decreases to - a,
    {
        a = a + 1;
    }
    proof {
        lemma_leading_ws(s, a - from);
    }
    let mut b: usize = to;
    while b > a && is_space(v[b - 1])
        invariant
            from <= a <= b <= to <= v@.len(),
            forall|k: int| b <= k < to ==> spec_is_space(#[trigger] v@[k]),
        decreases b,
    {
        b = b - 1;
    }
    let mut r: Vec<char> = Vec::new();
    let mut k: usize = a;
    while k < b
        invariant
            a <= k <= b <= v@.len(),
            r@ == v@.subrange(a as int, k as int),
        decreases b - k,
    {
        r.push(v[k]);
        proof {
            assert(r@ =~= v@.subrange(a as int, k + 1));
        }
        k = k + 1;
    }
    proof {
        let t = s.skip((a - from) as int);
        assert(t =~= v@.subrange(a as int, to as int));
        lemma_trim_end(t, b - a);
        assert(t.take((b - a) as int) =~= v@.subrange(a as int, b as int));
        assert(r@ =~= v@.subrange(a as int, b as int));
    }
    r
}

/// Is a trimmed line kept: non-blank and not a `#` comment?
pub open spec fn keep_line(t: Seq<char>) -> bool {
    t.len() > 0 && t[0] != '#'
}

/// Trims each line and drops blank lines and `#` comments.
pub open spec fn spec_clean(ls: Seq<Seq<char>>) -> Seq<Seq<char>>
    decreases ls.len(),
{
    if ls.len() == 0 {
        Seq::empty()
    } else {
        let t = spec_trim(ls.first());
        let rest = spec_clean(ls.drop_first());
        if keep_line(t) {
            seq![t] + rest
        } else {
            rest
        }
    }
}

/// The cleaned instruction lines of a whole text.
pub open spec fn spec_clean_lines(s: Seq<char>) -> Seq<Seq<char>> {
    spec_clean(spec_split_lines(s))
}

/// Splits `v` into cleaned lines, from position `i` on.
fn clean_lines_from(v: &Vec<char>, i: usize) -> (r: Vec<String>)
    requires
        i <= v@.len(),
    ensures
        crate::utils::string_views(r@) == spec_clean(spec_split_lines(v@.skip(i as int))),
    decreases v@.len() - i,
{
    let ghost s = v@.skip(i as int);
    if i == v.len() {
        let r: Vec<String> = Vec::new();
        proof {
            assert(s =~= Seq::<char>::empty());
            assert(crate::utils::string_views(r@) =~= spec_clean(spec_split_lines(s)));
        }
        return r;
    }
    // find the end of the line
    let mut j: usize = i;
    while j < v.len() && v[j] != '\n'
        invariant
            i <= j <= v@.len(),
            forall|k: int| i <= k < j ==> v@[k] != '\n',
        decreases v@.len() - j,
    {
        j = j + 1;
    }
    proof {
        lemma_line_len(s, j - i);
    }
    let line = trim_chars(v, i, j);
    let rest = if j == v.len() {
        let r: Vec<String> = Vec::new();
        proof {
            assert(spec_split_lines(s) =~= seq![s]);
        }
        r
    } else {
        clean_lines_from(v, j + 1)
    };
    proof {
        if j < v@.len() {
            assert(s.skip((j - i) + 1) =~= v@.skip(j + 1));
            assert(spec_split_lines(s) == seq![s.take((j - i) as int)] + spec_split_lines(
                s.skip((j - i) + 1),
            ));
        }
        assert(s.take((j - i) as int) =~= v@.subrange(i as int, j as int));
        if j == v@.len() {
            assert(spec_split_lines(s).drop_first() =~= Seq::<Seq<char>>::empty());
            assert(spec_clean(spec_split_lines(s).drop_first()) =~= Seq::<Seq<char>>::empty());
        } else {
            assert(spec_split_lines(s).drop_first() =~= spec_split_lines(s.skip((j - i) + 1)));
        }
        assert(spec_split_lines(s).first() == s.take((j - i) as int));
    }
    let keep = line.len() > 0 && line[0] != '#';
    let ghost lineg = line@;
    let ghost restg = crate::utils::string_views(rest@);
    if keep {
        let mut r: Vec<String> = Vec::new();
        r.push(chars_to_string(&line));
        let mut rest2 = rest;
        r.append(&mut rest2);
        proof {
            assert forall|q: int| 0 <= q < r@.len() implies crate::utils::string_views(r@)[q] == (
            seq![lineg] + restg)[q] by {
                assert(crate::utils::string_views(r@)[q] == r@[q]@);
                if q > 0 {
                    assert(restg[q - 1] == rest@[q - 1]@);
                }
            }
            assert(crate::utils::string_views(r@) =~= seq![lineg] + restg);
        }
        r
    } else {
        rest
    }
}

/// Parses a whole instruction text: lines are trimmed, blank lines and `#`
/// comments are ignored, and each remaining line is one instruction.
pub fn secd_parse_text(src: &str) -> (r: Result<Vec<SECDInstr>, String>)
    ensures
        match spec_parse_lines(spec_clean_lines(src@)) {
            Some(ivs) => r matches Ok(is) && instr_models(is@) == ivs,
            None => r is Err,
        },
{
    let cs = string_to_chars(src);
    let lines = clean_lines_from(&cs, 0);
    proof {
        assert(cs@.skip(0) =~= src@);
    }
    secd_parse(&lines)
}

/// Decides whether a label survives the textual round trip.
fn is_wf_label(l: &String) -> (r: bool)
    ensures
        r == wf_label(l@),
{
    let cs = string_to_chars(l.as_str());
    if cs.len() == 0 {
        return false;
    }
    let mut i: usize = 0;
    while i < cs.len()
        invariant
            0 <= i <= cs@.len(),
            cs@ == l@,
            l@.len() >= 1,
            forall|j: int| 0 <= j < i ==> !spec_is_space(#[trigger] l@[j]),
        decreases cs@.len() - i,
    {
        if is_space(cs[i]) {
            return false;
        }
        i = i + 1;
    }
    true
}

/// Decides whether the printer can express an instruction.
pub fn is_wf_instr(i: &SECDInstr) -> (r: bool)
    ensures
        r == wf_instr(i@),
{
    match i {
        SECDInstr::Const(v) => match v {
            SECDVal::IntVal(_) => true,
            _ => false,
        },
        SECDInstr::Closure(l) => is_wf_label(l),
        SECDInstr::Closures(ls) => {
            if ls.len() == 0 {
                return false;
            }
            let ghost lv = label_views(ls@);
            let mut k: usize = 0;
            while k < ls.len()
                invariant
                    0 <= k <= ls@.len(),
                    lv == label_views(ls@),
                    lv.len() == ls@.len(),
                    lv.len() >= 1,
                    i@ == SECDInstrV::Closures(lv),
                    forall|j: int| 0 <= j < k ==> wf_label(#[trigger] lv[j]),
                decreases ls@.len() - k,
            {
                proof {
                    assert(lv[k as int] == ls@[k as int]@);
                }
                if !is_wf_label(&ls[k]) {
                    proof {
                        assert(!wf_label(lv[k as int]));
                        assert(i@ == SECDInstrV::Closures(lv));
                    }
                    return false;
                }
                k = k + 1;
            }
            true
        },
        SECDInstr::Binary(op) => match op {
            BinOp::Land => false,
            BinOp::Lor => false,
            BinOp::Lxor => false,
            _ => true,
        },
        SECDInstr::Branch(_, l) => is_wf_label(l),
        SECDInstr::Label(l) => is_wf_label(l),
        _ => true,
    }
}

/// The text of a whole program: each instruction's line followed by a line
/// feed.
pub open spec fn spec_program_text(ivs: Seq<SECDInstrV>) -> Seq<char>
    decreases ivs.len(),
{
    if ivs.len() == 0 {
        Seq::empty()
    } else {
        spec_print_instr(ivs.first()) + seq!['\n'] + spec_program_text(ivs.drop_first())
    }
}

/// Prints a whole program, one instruction per line; fails when an
/// instruction cannot be expressed in the format.
pub fn instrs_to_text(instrs: &Vec<SECDInstr>) -> (r: Option<String>)
    ensures
        match r {
            Some(s) => (forall|k: int|
                0 <= k < instrs@.len() ==> wf_instr(#[trigger] instr_models(instrs@)[k])) && s@
                == spec_program_text(instr_models(instrs@)),
            None => !(forall|k: int|
                0 <= k < instrs@.len() ==> wf_instr(#[trigger] instr_models(instrs@)[k])),
        },
{
    let ghost im = instr_models(instrs@);
    proof {
        crate::secd::langdef::lemma_instr_models(instrs@);
    }
    let mut out: Vec<char> = Vec::new();
    let mut i: usize = 0;
    proof {
        assert(im.skip(0) =~= im);
    }
    while i < instrs.len()
        invariant
            0 <= i <= instrs@.len(),
            im == instr_models(instrs@),
            im.len() == instrs@.len(),
            forall|q: int| 0 <= q < instrs@.len() ==> #[trigger] im[q] == instrs@[q].model(),
            forall|q: int| 0 <= q < i ==> wf_instr(#[trigger] im[q]),
            spec_program_text(im) == out@ + spec_program_text(im.skip(i as int)),
        decreases instrs@.len() - i,
    {
        proof {
            assert(im.skip(i as int).first() == im[i as int]);
            assert(im.skip(i as int).drop_first() =~= im.skip(i + 1));
        }
        if !is_wf_instr(&instrs[i]) {
            return None;
        }
        let mut line = print_instr(&instrs[i]);
        out.append(&mut line);
        out.push('\n');
        proof {
            assert(out@ + spec_program_text(im.skip(i + 1)) =~= old_out_plus(
                out@,
                im,
                i as int,
            ));
        }
        i = i + 1;
    }
    proof {
        assert(im.skip(instrs@.len() as int) =~= Seq::<SECDInstrV>::empty());
        assert(out@ + Seq::<char>::empty() =~= out@);
    }
    Some(crate::utils::chars_to_string(&out))
}

/// The text accumulated before step `i` plus the rest of the program.
spec fn old_out_plus(outnow: Seq<char>, im: Seq<SECDInstrV>, i: int) -> Seq<char> {
    outnow.take(outnow.len() - spec_print_instr(im[i]).len() - 1) + spec_program_text(im.skip(i))
}

/// The shape a printed line must have to survive cleaning: non-blank ends,
/// no line feed anywhere, and not a comment.
pub open spec fn clean_line_shape(t: Seq<char>) -> bool {
    t.len() >= 1 && !spec_is_space(t[0]) && !spec_is_space(t.last()) && t[0] != '#' && (forall|
        i: int,
    |
        0 <= i < t.len() ==> #[trigger] t[i] != '\n')
}

/// A single non-blank word has the clean shape.
proof fn lemma_word_line_shape(w: Seq<char>)
    requires
        w.len() >= 1,
        forall|i: int| 0 <= i < w.len() ==> !spec_is_space(#[trigger] w[i]),
        w[0] != '#',
    ensures
        clean_line_shape(w),
{
}

/// A word, one blank, and a non-blank operand have the clean shape.
proof fn lemma_pair_line_shape(w: Seq<char>, x: Seq<char>)
    requires
        w.len() >= 1,
        x.len() >= 1,
        forall|i: int| 0 <= i < w.len() ==> !spec_is_space(#[trigger] w[i]),
        forall|i: int| 0 <= i < x.len() ==> !spec_is_space(#[trigger] x[i]),
        w[0] != '#',
    ensures
        clean_line_shape(w + seq![' '] + x),
{
    let t = w + seq![' '] + x;
    assert(t[0] == w[0]);
    assert(t.last() == x.last());
    assert forall|i: int| 0 <= i < t.len() implies #[trigger] t[i] != '\n' by {
        if i < w.len() {
            assert(t[i] == w[i]);
        } else if i == w.len() {
            assert(t[i] == ' ');
        } else {
            assert(t[i] == x[i - w.len() - 1]);
        }
    }
}

/// Every character of a printed label bundle is a blank or a label
/// character, and the bundle ends in a label character.
proof fn lemma_print_labels_chars(ls: Seq<Seq<char>>)
    requires
        forall|k: int| 0 <= k < ls.len() ==> wf_label(#[trigger] ls[k]),
    ensures
        forall|i: int|
            0 <= i < print_labels(ls).len() ==> #[trigger] print_labels(ls)[i] == ' '
                || !spec_is_space(print_labels(ls)[i]),
        ls.len() >= 1 ==> print_labels(ls).len() >= 2 && !spec_is_space(print_labels(ls).last()),
    decreases ls.len(),
{
    if ls.len() > 0 {
        lemma_print_labels_chars(ls.drop_first());
        let p = print_labels(ls);
        let rest = print_labels(ls.drop_first());
        assert(p == seq![' '] + ls.first() + rest);
        assert forall|i: int| 0 <= i < p.len() implies #[trigger] p[i] == ' ' || !spec_is_space(
            p[i],
        ) by {
            if i == 0 {
                assert(p[i] == ' ');
            } else if i < 1 + ls.first().len() {
                assert(p[i] == ls.first()[i - 1]);
            } else {
                assert(p[i] == rest[i - 1 - ls.first().len()]);
            }
        }
        if ls.drop_first().len() == 0 {
            assert(rest =~= Seq::<char>::empty());
            assert(p.last() == ls.first().last());
        } else {
            assert(p.last() == rest.last());
        }
    }
}

/// A printed instruction line survives cleaning untouched, provided a label
/// line does not begin with the comment mark.
#[verifier::rlimit(100)]
#[verifier::spinoff_prover]
proof fn lemma_print_instr_shape(iv: SECDInstrV)
    requires
        wf_instr(iv),
        iv matches SECDInstrV::Label(l) ==> l[0] != '#',
    ensures
        clean_line_shape(spec_print_instr(iv)),
{
    lemma_opcode_words_nonspace();
    reveal_strlit("halt");
    reveal_strlit("pop");
    reveal_strlit("pop ");
    reveal_strlit("apply");
    reveal_strlit("const");
    reveal_strlit("const ");
    reveal_strlit("access");
    reveal_strlit("access ");
    reveal_strlit("focus");
    reveal_strlit("focus ");
    reveal_strlit("return");
    reveal_strlit("closure");
    reveal_strlit("closure ");
    reveal_strlit("closures");
    reveal_strlit("builtin");
    reveal_strlit("builtin ");
    reveal_strlit("println");
    reveal_strlit("nth");
    reveal_strlit("add");
    reveal_strlit("sub");
    reveal_strlit("mul");
    reveal_strlit("div");
    reveal_strlit("rem");
    reveal_strlit("eq");
    reveal_strlit("ne");
    reveal_strlit("ge");
    reveal_strlit("le");
    reveal_strlit("gt");
    reveal_strlit("lt");
    reveal_strlit("neg");
    reveal_strlit("not");
    reveal_strlit("br");
    reveal_strlit("brfl");
    reveal_strlit("pushenv");
    match iv {
        SECDInstrV::Halt => {
            lemma_word_line_shape("halt"@);
        },
        SECDInstrV::Apply => {
            lemma_word_line_shape("apply"@);
        },
        SECDInstrV::Return => {
            lemma_word_line_shape("return"@);
        },
        SECDInstrV::PushEnv => {
            lemma_word_line_shape("pushenv"@);
        },
        SECDInstrV::Pop(n) => {
            lemma_dec_of_digits(n as nat);
            crate::num::lemma_dec_of_no_char(n as nat, '\n');
            lemma_digits_nonspace(dec_of(n as nat));
            lemma_pair_line_shape("pop"@, dec_of(n as nat));
            assert("pop "@ + dec_of(n as nat) =~= "pop"@ + seq![' '] + dec_of(n as nat));
        },
        SECDInstrV::Access(n) => {
            lemma_dec_of_digits(n as nat);
            lemma_digits_nonspace(dec_of(n as nat));
            lemma_pair_line_shape("access"@, dec_of(n as nat));
            assert("access "@ + dec_of(n as nat) =~= "access"@ + seq![' '] + dec_of(n as nat));
        },
        SECDInstrV::Focus(n) => {
            lemma_dec_of_digits(n as nat);
            lemma_digits_nonspace(dec_of(n as nat));
            lemma_pair_line_shape("focus"@, dec_of(n as nat));
            assert("focus "@ + dec_of(n as nat) =~= "focus"@ + seq![' '] + dec_of(n as nat));
        },
        SECDInstrV::Const(v) => {
            match v {
                SECDValV::IntVal(x) => {
                    lemma_int_dec_nonspace(x as int);
                    lemma_pair_line_shape("const"@, dec_of_int(x as int));
                    assert("const "@ + dec_of_int(x as int) =~= "const"@ + seq![' '] + dec_of_int(
                        x as int,
                    ));
                },
                _ => {
                    assert(false);
                },
            }
        },
        SECDInstrV::Closure(l) => {
            lemma_pair_line_shape("closure"@, l);
            assert("closure "@ + l =~= "closure"@ + seq![' '] + l);
        },
        SECDInstrV::Closures(ls) => {
            lemma_print_labels_chars(ls);
            let t = "closures"@ + print_labels(ls);
            assert(t[0] == 'c');
            assert(t.last() == print_labels(ls).last());
            assert forall|i: int| 0 <= i < t.len() implies #[trigger] t[i] != '\n' by {
                if i < "closures"@.len() {
                    assert(t[i] == "closures"@[i]);
                } else {
                    assert(t[i] == print_labels(ls)[i - "closures"@.len()]);
                    assert(t[i] == ' ' || !spec_is_space(t[i]));
                }
            }
        },
        SECDInstrV::Builtin(op) => {
            match op {
                BuiltinOp::Println => {
                    lemma_pair_line_shape("builtin"@, "println"@);
                    assert("builtin "@ + "println"@ =~= "builtin"@ + seq![' '] + "println"@);
                },
                BuiltinOp::Nth => {
                    lemma_pair_line_shape("builtin"@, "nth"@);
                    assert("builtin "@ + "nth"@ =~= "builtin"@ + seq![' '] + "nth"@);
                },
            }
        },
        SECDInstrV::Binary(op) => {
            match op {
                BinOp::Add => lemma_word_line_shape("add"@),
                BinOp::Sub => lemma_word_line_shape("sub"@),
                BinOp::Mul => lemma_word_line_shape("mul"@),
                BinOp::Div => lemma_word_line_shape("div"@),
                BinOp::Rem => lemma_word_line_shape("rem"@),
                BinOp::Eq => lemma_word_line_shape("eq"@),
                BinOp::Ne => lemma_word_line_shape("ne"@),
                BinOp::Ge => lemma_word_line_shape("ge"@),
                BinOp::Le => lemma_word_line_shape("le"@),
                BinOp::Gt => lemma_word_line_shape("gt"@),
                BinOp::Lt => lemma_word_line_shape("lt"@),
                _ => {
                    assert(false);
                },
            }
        },
        SECDInstrV::Unary(op) => {
            match op {
                UnaOp::Neg => lemma_word_line_shape("neg"@),
                UnaOp::Lnot => lemma_word_line_shape("not"@),
            }
        },
        SECDInstrV::Branch(op, l) => {
            match op {
                BrOp::Br => {
                    lemma_pair_line_shape("br"@, l);
                },
                BrOp::BrFalse => {
                    lemma_pair_line_shape("brfl"@, l);
                },
            }
        },
        SECDInstrV::Label(l) => {
            let t = l + seq![':'];
            assert(t[0] == l[0]);
            assert(t.last() == ':');
            assert forall|i: int| 0 <= i < t.len() implies #[trigger] t[i] != '\n' by {
                if i < l.len() {
                    assert(t[i] == l[i]);
                } else {
                    assert(t[i] == ':');
                }
            }
        },
    }
}

/// A line of clean shape passes cleaning untouched, and splitting peels it
/// off the front of the text.
proof fn lemma_clean_one_line(t: Seq<char>, r: Seq<char>)
    requires
        clean_line_shape(t),
    ensures
        spec_split_lines(t + seq!['\n'] + r) == seq![t] + spec_split_lines(r),
        spec_trim(t) == t,
        keep_line(t),
{
    let text = t + seq!['\n'] + r;
    assert(forall|i: int| 0 <= i < t.len() ==> #[trigger] text[i] == t[i]);
    assert(text[t.len() as int] == '\n');
    lemma_line_len(text, t.len() as int);
    assert(text.take(t.len() as int) =~= t);
    assert(text.skip(t.len() as int + 1) =~= r);
    assert(spec_split_lines(text) == seq![t] + spec_split_lines(r));
    assert(leading_ws(t) == 0);
    assert(t.skip(0) =~= t);
    assert(trim_end(t) == t);
}

/// Cleaning the printed text of a program gives back exactly its printed
/// lines, one per instruction, provided no label line opens with the
/// comment mark (the code generator's labels begin with letters).
pub proof fn lemma_program_text_clean(ivs: Seq<SECDInstrV>)
    requires
        forall|k: int| 0 <= k < ivs.len() ==> wf_instr(#[trigger] ivs[k]),
        forall|k: int|
            0 <= k < ivs.len() ==> ((#[trigger] ivs[k]) matches SECDInstrV::Label(l) ==> l[0]
                != '#'),
    ensures
        spec_clean_lines(spec_program_text(ivs)) == print_instr_lines(ivs),
    decreases ivs.len(),
{
    if ivs.len() == 0 {
        assert(spec_program_text(ivs) =~= Seq::<char>::empty());
        assert(spec_split_lines(Seq::<char>::empty()) =~= Seq::<Seq<char>>::empty());
        assert(spec_clean_lines(spec_program_text(ivs)) =~= print_instr_lines(ivs));
    } else {
        assert(forall|k: int| 0 <= k < ivs.drop_first().len() ==> ivs.drop_first()[k]
            == #[trigger] ivs[k + 1]);
        lemma_program_text_clean(ivs.drop_first());
        let t = spec_print_instr(ivs.first());
        let rest = spec_program_text(ivs.drop_first());
        lemma_print_instr_shape(ivs.first());
        lemma_clean_one_line(t, rest);
        assert(spec_program_text(ivs) == t + seq!['\n'] + rest);
        let lines = seq![t] + spec_split_lines(rest);
        assert(lines.first() == t);
        assert(lines.drop_first() =~= spec_split_lines(rest));
        assert(spec_clean(lines) == seq![t] + spec_clean(spec_split_lines(rest)));
        assert(print_instr_lines(ivs) =~= seq![t] + print_instr_lines(ivs.drop_first()));
        assert(spec_clean_lines(spec_program_text(ivs)) =~= print_instr_lines(ivs));
    }
}

/// The textual round trip, whole programs at a time: parsing the cleaned
/// printed text of any printable instruction sequence gives the sequence
/// back.
pub proof fn lemma_program_text_round_trip(ivs: Seq<SECDInstrV>)
    requires
        forall|k: int| 0 <= k < ivs.len() ==> wf_instr(#[trigger] ivs[k]),
        forall|k: int|
            0 <= k < ivs.len() ==> ((#[trigger] ivs[k]) matches SECDInstrV::Label(l) ==> l[0]
                != '#'),
    ensures
        spec_parse_lines(spec_clean_lines(spec_program_text(ivs))) == Some(ivs),
{
    lemma_program_text_clean(ivs);
    lemma_instrs_round_trip(ivs);
}

} // verus!
