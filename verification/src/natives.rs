//! The primitive function library: the built-in operations the root
//! environment binds. Each primitive takes the already evaluated argument
//! values and returns a value or an error payload. Arithmetic wraps at the
//! fixed integer width; division by zero is an error rather than a fault.
use vstd::prelude::*;

use crate::types::MalExpression;
use crate::types::ValView;
use crate::types::val_view;
use crate::types::seq_view;
use crate::types::seq_view_props;
use crate::env::Env;
use crate::env::Interp;
use crate::env::interp_wf;
use crate::types::NativeFn;

verus! {

/// The evaluator's result: a value, or an error payload that is itself a
/// value (thrown data round-trips; internal failures carry a string).
pub type EvalRet = Result<MalExpression, MalExpression>;

/// Whether every element is an integer value.
pub open spec fn ints_only(s: Seq<ValView>) -> bool {
    forall|i: int| 0 <= i < s.len() ==> (#[trigger] s[i]) matches ValView::Int(_)
}

/// The integer inside an integer value.
pub open spec fn get_int(v: ValView) -> i32 {
    match v {
        ValView::Int(i) => i,
        _ => 0,
    }
}

/// Fold the arguments with wrapping addition.
pub open spec fn fold_add(s: Seq<ValView>, acc: i32) -> i32
    decreases s.len(),
{
    if s.len() == 0 {
        acc
    } else {
        fold_add(s.skip(1), vstd::wrapping::i32_specs::wrapping_add(acc, get_int(s[0])))
    }
}

/// Fold the arguments with wrapping multiplication.
pub open spec fn fold_mul(s: Seq<ValView>, acc: i32) -> i32
    decreases s.len(),
{
    if s.len() == 0 {
        acc
    } else {
        fold_mul(s.skip(1), vstd::wrapping::i32_specs::wrapping_mul(acc, get_int(s[0])))
    }
}

/// Truncating division, as the machine's signed division behaves.
pub open spec fn trunc_div(a: int, b: int) -> int {
    if (a < 0) == (b < 0) {
        abs_of(a) / abs_of(b)
    } else {
        -(abs_of(a) / abs_of(b))
    }
}

pub open spec fn abs_of(a: int) -> int {
    if a < 0 {
        -a
    } else {
        a
    }
}

/// A short message as an error payload.
fn err_str(msg: &str) -> (r: MalExpression)
    ensures
        val_view(r) == ValView::Str(msg@),
{
    MalExpression::String(msg.to_owned())
}

/// Sum of all arguments, wrapping; every argument must be an integer.
pub fn plus(args: &Vec<MalExpression>) -> (r: EvalRet)
    ensures
        match r {
            Ok(v) => ints_only(seq_view(args@)) && val_view(v) == ValView::Int(
                fold_add(seq_view(args@), 0),
            ),
            Err(p) => !ints_only(seq_view(args@)) && val_view(p) == ValView::Str(
                "function called with non-int"@,
            ),
        },
{
    fold_int(args, true)
}

/// Product of all arguments, wrapping; every argument must be an integer.
pub fn times(args: &Vec<MalExpression>) -> (r: EvalRet)
    ensures
        match r {
            Ok(v) => ints_only(seq_view(args@)) && val_view(v) == ValView::Int(
                fold_mul(seq_view(args@), 1),
            ),
            Err(p) => !ints_only(seq_view(args@)) && val_view(p) == ValView::Str(
                "function called with non-int"@,
            ),
        },
{
    fold_int(args, false)
}

/// Fold all arguments with wrapping addition or multiplication.
#[verifier::loop_isolation(false)]
fn fold_int(args: &Vec<MalExpression>, adding: bool) -> (r: EvalRet)
    ensures
        match r {
            Ok(v) => ints_only(seq_view(args@)) && val_view(v) == ValView::Int(
                if adding {
                    fold_add(seq_view(args@), 0)
                } else {
                    fold_mul(seq_view(args@), 1)
                },
            ),
            Err(p) => !ints_only(seq_view(args@)) && val_view(p) == ValView::Str(
                "function called with non-int"@,
            ),
        },
{
    let ghost vs = seq_view(args@);
    proof {
        seq_view_props(args@);
        assert(vs.skip(0) =~= vs);
    }
    let mut acc: i32 = if adding {
        0
    } else {
        1
    };
    let n = args.len();
    let mut i: usize = 0;
    while i < n
        invariant
            0 <= i <= n,
            n == args@.len(),
            forall|j: int| 0 <= j < i ==> (#[trigger] vs[j]) matches ValView::Int(_),
            adding ==> fold_add(vs, 0) == fold_add(vs.skip(i as int), acc),
            !adding ==> fold_mul(vs, 1) == fold_mul(vs.skip(i as int), acc),
        decreases n - i,
    {
        proof {
            assert(vs[i as int] == val_view(args@[i as int]));
            assert(vs.skip(i as int)[0] == vs[i as int]);
            assert(vs.skip(i as int).skip(1) =~= vs.skip(i as int + 1));
        }
        match &args[i] {
            MalExpression::Int(x) => {
                if adding {
                    acc = acc.wrapping_add(*x);
                } else {
                    acc = acc.wrapping_mul(*x);
                }
            },
            _ => {
                proof {
                    crate::types::lemma_view_cases(args@[i as int]);
                }
                return Err(err_str("function called with non-int"));
            },
        }
        i = i + 1;
    }
    proof {
        assert(vs.skip(i as int).len() == 0);
    }
    Ok(MalExpression::Int(acc))
}

/// The first two arguments as integers, or the binary-operator error.
#[verifier::inline]
pub open spec fn two_ints(s: Seq<ValView>) -> bool {
    s.len() >= 2 && (s[0] matches ValView::Int(_)) && (s[1] matches ValView::Int(_))
}

/// Wrapping difference of the first two arguments.
pub fn minus(args: &Vec<MalExpression>) -> (r: EvalRet)
    ensures
        match r {
            Ok(v) => two_ints(seq_view(args@)) && val_view(v) == ValView::Int(
                vstd::wrapping::i32_specs::wrapping_sub(
                    get_int(seq_view(args@)[0]),
                    get_int(seq_view(args@)[1]),
                ),
            ),
            Err(p) => !two_ints(seq_view(args@)) && val_view(p) == ValView::Str(
                "invalid arguments to binary int function"@,
            ),
        },
{
    proof {
        seq_view_props(args@);
    }
    if args.len() >= 2 {
        proof {
            crate::types::lemma_view_cases(args@[0]);
            crate::types::lemma_view_cases(args@[1]);
        }
        match (&args[0], &args[1]) {
            (MalExpression::Int(a), MalExpression::Int(b)) => {
                return Ok(MalExpression::Int(a.wrapping_sub(*b)));
            },
            _ => {
                return Err(err_str("invalid arguments to binary int function"));
            },
        }
    }
    Err(err_str("invalid arguments to binary int function"))
}

/// Truncating quotient of the first two arguments; dividing by zero is an
/// error.
pub fn int_divide(args: &Vec<MalExpression>) -> (r: EvalRet)
    ensures
        match r {
            Ok(v) => two_ints(seq_view(args@)) && get_int(seq_view(args@)[1]) != 0 && val_view(v)
                == ValView::Int(
                vstd::wrapping::i32_specs::signed_crop(
                    trunc_div(
                        get_int(seq_view(args@)[0]) as int,
                        get_int(seq_view(args@)[1]) as int,
                    ),
                ),
            ),
            Err(p) => if two_ints(seq_view(args@)) && get_int(seq_view(args@)[1]) == 0 {
                val_view(p) == ValView::Str("division by zero"@)
            } else {
                !two_ints(seq_view(args@)) && val_view(p) == ValView::Str(
                    "invalid arguments to binary int function"@,
                )
            },
        },
{
    proof {
        seq_view_props(args@);
    }
    if args.len() >= 2 {
        proof {
            crate::types::lemma_view_cases(args@[0]);
            crate::types::lemma_view_cases(args@[1]);
        }
        match (&args[0], &args[1]) {
            (MalExpression::Int(a), MalExpression::Int(b)) => {
                if *b == 0 {
                    return Err(err_str("division by zero"));
                }
                return Ok(MalExpression::Int(div_trunc_exec(*a, *b)));
            },
            _ => {
                return Err(err_str("invalid arguments to binary int function"));
            },
        }
    }
    Err(err_str("invalid arguments to binary int function"))
}

/// Machine signed division: truncating, with the one overflowing quotient
/// wrapped.
fn div_trunc_exec(a: i32, b: i32) -> (r: i32)
    requires
        b != 0,
    ensures
        r as int == vstd::wrapping::i32_specs::signed_crop(trunc_div(a as int, b as int)),
{
    let ua: u32 = if a < 0 {
        (-(a as i64)) as u32
    } else {
        a as u32
    };
    let ub: u32 = if b < 0 {
        (-(b as i64)) as u32
    } else {
        b as u32
    };
    let uq: u32 = ua / ub;
    let ghost q = trunc_div(a as int, b as int);
    proof {
        assert(ua as int == abs_of(a as int));
        assert(ub as int == abs_of(b as int));
    }
    if (a < 0) == (b < 0) {
        if uq <= 2147483647u32 {
            proof {
                assert(vstd::wrapping::i32_specs::signed_crop(q) == q as i32) by {
                    assert(q == uq as int);
                    assert(0 <= q <= 2147483647);
                    assert(q % 0x1_0000_0000 == q);
                }
            }
            uq as i32
        } else {
            // The only case is the minimum value divided by minus one, whose
            // true quotient wraps back to the minimum value.
            proof {
                assert(uq == 2147483648u32);
                assert(q == 2147483648int);
                assert(vstd::wrapping::i32_specs::signed_crop(q) == -2147483648) by {
                    assert(q % 0x1_0000_0000 == 2147483648int);
                }
            }
            -2147483648i32
        }
    } else {
        proof {
            assert(q == -(uq as int));
            assert(uq <= 2147483648u32);
            assert(vstd::wrapping::i32_specs::signed_crop(q) == q as i32) by {
                assert(-2147483648 <= q <= 0);
                if q == 0 {
                    assert(q % 0x1_0000_0000 == 0);
                } else {
                    assert(q % 0x1_0000_0000 == q + 0x1_0000_0000);
                }
            }
        }
        if uq == 0 {
            0i32
        } else {
            ((-(uq as i64)) as i32)
        }
    }
}

/// Integer comparison primitives.
pub fn less_than(args: &Vec<MalExpression>) -> (r: EvalRet)
    ensures
        cmp_post(r, seq_view(args@), CmpOp::Lt),
{
    cmp_ints(args, CmpOp::Lt)
}

pub fn less_than_equals(args: &Vec<MalExpression>) -> (r: EvalRet)
    ensures
        cmp_post(r, seq_view(args@), CmpOp::Le),
{
    cmp_ints(args, CmpOp::Le)
}

pub fn more_than(args: &Vec<MalExpression>) -> (r: EvalRet)
    ensures
        cmp_post(r, seq_view(args@), CmpOp::Gt),
{
    cmp_ints(args, CmpOp::Gt)
}

pub fn more_than_equals(args: &Vec<MalExpression>) -> (r: EvalRet)
    ensures
        cmp_post(r, seq_view(args@), CmpOp::Ge),
{
    cmp_ints(args, CmpOp::Ge)
}

/// The four integer orderings.
#[derive(Clone, Copy, Debug, PartialEq, Eq, Structural)]
pub enum CmpOp {
    Lt,
    Le,
    Gt,
    Ge,
}

/// What an integer comparison returns.
pub open spec fn cmp_spec(op: CmpOp, a: int, b: int) -> bool {
    match op {
        CmpOp::Lt => a < b,
        CmpOp::Le => a <= b,
        CmpOp::Gt => a > b,
        CmpOp::Ge => a >= b,
    }
}

/// The comparison primitives' contract: a boolean over the first two
/// integer arguments, or the binary-operator error.
pub open spec fn cmp_post(r: EvalRet, s: Seq<ValView>, op: CmpOp) -> bool {
    match r {
        Ok(v) => two_ints(s) && val_view(v) == ValView::Boolean(
            cmp_spec(op, get_int(s[0]) as int, get_int(s[1]) as int),
        ),
        Err(p) => !two_ints(s) && val_view(p) == ValView::Str(
            "invalid arguments to binary int function"@,
        ),
    }
}

/// Compare the first two arguments as integers.
fn cmp_ints(args: &Vec<MalExpression>, op: CmpOp) -> (r: EvalRet)
    ensures
        cmp_post(r, seq_view(args@), op),
{
    proof {
        seq_view_props(args@);
    }
    if args.len() >= 2 {
        proof {
            crate::types::lemma_view_cases(args@[0]);
            crate::types::lemma_view_cases(args@[1]);
        }
        match (&args[0], &args[1]) {
            (MalExpression::Int(a), MalExpression::Int(b)) => {
                let res = match op {
                    CmpOp::Lt => *a < *b,
                    CmpOp::Le => *a <= *b,
                    CmpOp::Gt => *a > *b,
                    CmpOp::Ge => *a >= *b,
                };
                return Ok(MalExpression::Boolean(res));
            },
            _ => {
                return Err(err_str("invalid arguments to binary int function"));
            },
        }
    }
    Err(err_str("invalid arguments to binary int function"))
}

/// The arguments as one list value.
pub fn list(args: Vec<MalExpression>) -> (r: EvalRet)
    ensures
        r matches Ok(v) && val_view(v) == ValView::List(seq_view(args@)),
{
    Ok(MalExpression::List(args))
}

/// Whether the first argument is a list.
pub fn list_q(args: &Vec<MalExpression>) -> (r: EvalRet)
    ensures
        match r {
            Ok(v) => args@.len() > 0 && val_view(v) == ValView::Boolean(
                seq_view(args@)[0] matches ValView::List(_),
            ),
            Err(p) => args@.len() == 0 && val_view(p) == ValView::Str(
                "list? requires an argument"@,
            ),
        },
{
    proof {
        seq_view_props(args@);
    }
    if args.len() == 0 {
        return Err(err_str("list? requires an argument"));
    }
    proof {
        crate::types::lemma_view_cases(args@[0]);
    }
    match &args[0] {
        MalExpression::List(_) => Ok(MalExpression::Boolean(true)),
        _ => Ok(MalExpression::Boolean(false)),
    }
}

/// Whether the first argument is an empty list or vector; other values are
/// not empty.
pub fn empty_q(args: &Vec<MalExpression>) -> (r: EvalRet)
    ensures
        match r {
            Ok(v) => args@.len() > 0 && val_view(v) == ValView::Boolean(
                match seq_view(args@)[0] {
                    ValView::List(l) => l.len() == 0,
                    ValView::Vector(l) => l.len() == 0,
                    _ => false,
                },
            ),
            Err(p) => args@.len() == 0 && val_view(p) == ValView::Str(
                "empty? requires a list or vector argument"@,
            ),
        },
{
    proof {
        seq_view_props(args@);
    }
    if args.len() == 0 {
        return Err(err_str("empty? requires a list or vector argument"));
    }
    proof {
        crate::types::lemma_view_cases(args@[0]);
        match &args[0] {
            MalExpression::List(l) => {
                seq_view_props(l@);
            },
            MalExpression::Vector(l) => {
                seq_view_props(l@);
            },
            _ => {},
        }
    }
    match &args[0] {
        MalExpression::List(l) => Ok(MalExpression::Boolean(l.len() == 0)),
        MalExpression::Vector(l) => Ok(MalExpression::Boolean(l.len() == 0)),
        _ => Ok(MalExpression::Boolean(false)),
    }
}

/// The length of a list or vector; `nil` counts as zero.
pub fn count(args: &Vec<MalExpression>) -> (r: EvalRet)
    ensures
        match r {
            Ok(v) => args@.len() > 0 && (seq_view(args@)[0] matches ValView::List(_)
                || seq_view(args@)[0] matches ValView::Vector(_) || seq_view(args@)[0]
                matches ValView::Nil) && val_view(v) == (match seq_view(args@)[0] {
                ValView::List(l) => ValView::Int(l.len() as i32),
                ValView::Vector(l) => ValView::Int(l.len() as i32),
                ValView::Nil => ValView::Int(0),
                _ => ValView::Nil,
            }),
            Err(p) => !(args@.len() > 0 && (seq_view(args@)[0] matches ValView::List(_)
                || seq_view(args@)[0] matches ValView::Vector(_) || seq_view(args@)[0]
                matches ValView::Nil)) && val_view(p) == ValView::Str(
                "count requires a list, vector, or nil argument"@,
            ),
        },
{
    proof {
        seq_view_props(args@);
    }
    if args.len() == 0 {
        return Err(err_str("count requires a list, vector, or nil argument"));
    }
    proof {
        crate::types::lemma_view_cases(args@[0]);
        match &args[0] {
            MalExpression::List(l) => {
                seq_view_props(l@);
            },
            MalExpression::Vector(l) => {
                seq_view_props(l@);
            },
            _ => {},
        }
    }
    match &args[0] {
        MalExpression::List(l) => Ok(
            MalExpression::Int(#[verifier::truncate] (l.len() as i32)),
        ),
        MalExpression::Vector(l) => Ok(
            MalExpression::Int(#[verifier::truncate] (l.len() as i32)),
        ),
        MalExpression::Nil() => Ok(MalExpression::Int(0)),
        _ => Err(err_str("count requires a list, vector, or nil argument")),
    }
}

/// Structural equality of the first two arguments.
pub fn equal(args: &Vec<MalExpression>) -> (r: EvalRet)
    ensures
        match r {
            Ok(v) => args@.len() >= 2 && val_view(v) == ValView::Boolean(
                crate::types::val_eq(seq_view(args@)[0], seq_view(args@)[1]),
            ),
            Err(p) => args@.len() < 2 && val_view(p) == ValView::Str("= requires two arguments"@),
        },
{
    proof {
        seq_view_props(args@);
    }
    if args.len() >= 2 {
        Ok(MalExpression::Boolean(args[0].equals(&args[1])))
    } else {
        Err(err_str("= requires two arguments"))
    }
}

/// A new list with the first argument prepended to the second (a list or
/// vector).
#[verifier::loop_isolation(false)]
pub fn cons(args: &Vec<MalExpression>) -> (r: EvalRet)
    ensures
        match r {
            Ok(v) => args@.len() >= 2 && (match seq_view(args@)[1] {
                ValView::List(l) => val_view(v) == ValView::List(
                    seq![seq_view(args@)[0]] + l,
                ),
                ValView::Vector(l) => val_view(v) == ValView::List(
                    seq![seq_view(args@)[0]] + l,
                ),
                _ => false,
            }),
            Err(p) => !(args@.len() >= 2 && (seq_view(args@)[1] matches ValView::List(_)
                || seq_view(args@)[1] matches ValView::Vector(_))) && val_view(p) == ValView::Str(
                "cons requires two arguments: second must be a list or vector"@,
            ),
        },
{
    proof {
        seq_view_props(args@);
    }
    if args.len() >= 2 {
        proof {
            crate::types::lemma_view_cases(args@[1]);
        }
        match &args[1] {
            MalExpression::List(l) | MalExpression::Vector(l) => {
                let mut out: Vec<MalExpression> = Vec::new();
                out.push(args[0].clone());
                let n = l.len();
                proof {
                    seq_view_props(l@);
                    seq_view_props(out@);
                }
                for i in 0..n
                    invariant
                        n == l@.len(),
                        out@.len() == i + 1,
                        val_view(out@[0]) == seq_view(args@)[0],
                        forall|j: int| 0 <= j < i ==> val_view(#[trigger] out@[j + 1])
                            == seq_view(l@)[j],
                    decreases n - i,
                {
                    out.push(l[i].clone());
                    proof {
                        seq_view_props(l@);
                    }
                }
                proof {
                    seq_view_props(out@);
                    seq_view_props(l@);
                    assert forall|j: int| 0 <= j < out@.len() implies #[trigger] seq_view(
                        out@,
                    )[j] == (seq![seq_view(args@)[0]] + seq_view(l@))[j] by {
                        assert(seq_view(out@)[j] == val_view(out@[j]));
                        if j > 0 {
                            assert(val_view(out@[(j - 1) + 1]) == seq_view(l@)[j - 1]);
                        }
                    }
                    assert(seq_view(out@) =~= seq![seq_view(args@)[0]] + seq_view(l@));
                }
                Ok(MalExpression::List(out))
            },
            _ => Err(err_str("cons requires two arguments: second must be a list or vector")),
        }
    } else {
        Err(err_str("cons requires two arguments: second must be a list or vector"))
    }
}

/// All the elements a sequence value holds, or nothing for other values.
pub open spec fn seq_of_val(v: ValView) -> Option<Seq<ValView>> {
    match v {
        ValView::List(l) => Some(l),
        ValView::Vector(l) => Some(l),
        _ => None,
    }
}

/// The concatenation of the arguments' elements; every argument must be a
/// list or vector.
pub open spec fn concat_spec(s: Seq<ValView>) -> Seq<ValView>
    decreases s.len(),
{
    if s.len() == 0 {
        Seq::empty()
    } else {
        match seq_of_val(s[0]) {
            Some(l) => l + concat_spec(s.skip(1)),
            None => concat_spec(s.skip(1)),
        }
    }
}

/// Whether every argument is a list or vector.
pub open spec fn all_seqs(s: Seq<ValView>) -> bool {
    forall|i: int| 0 <= i < s.len() ==> (#[trigger] seq_of_val(s[i])) is Some
}

/// One list holding the elements of all the arguments in order.
#[verifier::loop_isolation(false)]
pub fn concat(args: &Vec<MalExpression>) -> (r: EvalRet)
    ensures
        match r {
            Ok(v) => all_seqs(seq_view(args@)) && val_view(v) == ValView::List(
                concat_spec(seq_view(args@)),
            ),
            Err(p) => !all_seqs(seq_view(args@)) && val_view(p) matches ValView::Str(_),
        },
{
    let ghost vs = seq_view(args@);
    proof {
        seq_view_props(args@);
        assert(vs.skip(0) =~= vs);
    }
    let mut out: Vec<MalExpression> = Vec::new();
    let n = args.len();
    let mut i: usize = 0;
    proof {
        assert(seq_view(out@) =~= Seq::<ValView>::empty());
    }
    while i < n
        invariant
            0 <= i <= n,
            n == args@.len(),
            forall|j: int| 0 <= j < i ==> (#[trigger] seq_of_val(vs[j])) is Some,
            concat_spec(vs) == seq_view(out@) + concat_spec(vs.skip(i as int)),
        decreases n - i,
    {
        proof {
            assert(vs[i as int] == val_view(args@[i as int]));
            assert(vs.skip(i as int)[0] == vs[i as int]);
            assert(vs.skip(i as int).skip(1) =~= vs.skip(i as int + 1));
            crate::types::lemma_view_cases(args@[i as int]);
        }
        match &args[i] {
            MalExpression::List(l) | MalExpression::Vector(l) => {
                let m = l.len();
                proof {
                    seq_view_props(l@);
                    seq_view_props(out@);
                }
                let ghost obase = out@;
                for k in 0..m
                    invariant
                        m == l@.len(),
                        out@.len() == obase.len() + k,
                        forall|j: int| 0 <= j < obase.len() ==> #[trigger] out@[j] == obase[j],
                        forall|j: int| 0 <= j < k ==> val_view(
                            #[trigger] out@[obase.len() + j],
                        ) == seq_view(l@)[j],
                    decreases m - k,
                {
                    out.push(l[k].clone());
                    proof {
                        seq_view_props(l@);
                    }
                }
                proof {
                    seq_view_props(out@);
                    seq_view_props(obase);
                    seq_view_props(l@);
                    assert forall|j: int| 0 <= j < out@.len() implies #[trigger] seq_view(
                        out@,
                    )[j] == (seq_view(obase) + seq_view(l@))[j] by {
                        assert(seq_view(out@)[j] == val_view(out@[j]));
                        if j < obase.len() {
                            assert(out@[j] == obase[j]);
                            assert(seq_view(obase)[j] == val_view(obase[j]));
                        } else {
                            assert(val_view(out@[obase.len() + (j - obase.len())]) == seq_view(
                                l@,
                            )[j - obase.len()]);
                        }
                    }
                    assert(seq_view(out@) =~= seq_view(obase) + seq_view(l@));
                    assert(seq_view(out@) + concat_spec(vs.skip(i as int + 1)) =~= seq_view(obase)
                        + (seq_view(l@) + concat_spec(vs.skip(i as int + 1))));
                }
            },
            _ => {
                let mut msg = String::from_str("concat: ");
                let rendered = crate::printer::pr_str(&args[i], true);
                msg.append(rendered.as_str());
                msg.append(" not a list or vector");
                return Err(MalExpression::String(msg));
            },
        }
        i = i + 1;
    }
    proof {
        assert(concat_spec(vs.skip(i as int)) =~= Seq::<ValView>::empty());
        assert(seq_view(out@) =~= seq_view(out@) + concat_spec(vs.skip(i as int)));
    }
    Ok(MalExpression::List(out))
}

/// The element of a list or vector at the given integer index.
pub fn nth(args: &Vec<MalExpression>) -> (r: EvalRet)
    ensures
        match r {
            Ok(v) => {
                &&& args@.len() >= 2
                &&& seq_of_val(seq_view(args@)[0]) matches Some(l)
                &&& seq_view(args@)[1] matches ValView::Int(i)
                &&& 0 <= i < l.len()
                &&& val_view(v) == l[i as int]
            },
            Err(p) => !({
                &&& args@.len() >= 2
                &&& seq_of_val(seq_view(args@)[0]) matches Some(l)
                &&& seq_view(args@)[1] matches ValView::Int(i)
                &&& 0 <= i < l.len()
            }) && val_view(p) == (if args@.len() >= 2 && (seq_of_val(seq_view(args@)[0]) is Some)
                && (seq_view(args@)[1] matches ValView::Int(_)) {
                ValView::Str("nth called with out of range index"@)
            } else {
                ValView::Str(
                    "nth requires two arguments: list/vector and integer index into list/vector"@,
                )
            }),
        },
{
    proof {
        seq_view_props(args@);
    }
    if args.len() >= 2 {
        proof {
            crate::types::lemma_view_cases(args@[0]);
            crate::types::lemma_view_cases(args@[1]);
        }
        match (&args[0], &args[1]) {
            (MalExpression::List(l), MalExpression::Int(i))
            | (MalExpression::Vector(l), MalExpression::Int(i)) => {
                proof {
                    seq_view_props(l@);
                }
                if *i >= 0 && (*i as usize) < l.len() {
                    Ok(l[*i as usize].clone())
                } else {
                    Err(err_str("nth called with out of range index"))
                }
            },
            _ => Err(
                err_str(
                    "nth requires two arguments: list/vector and integer index into list/vector",
                ),
            ),
        }
    } else {
        Err(err_str("nth requires two arguments: list/vector and integer index into list/vector"))
    }
}

/// The first element of a list or vector, `nil` when empty or for `nil`.
pub fn first(args: &Vec<MalExpression>) -> (r: EvalRet)
    ensures
        match r {
            Ok(v) => args@.len() > 0 && (match seq_of_val(seq_view(args@)[0]) {
                Some(l) => val_view(v) == if l.len() > 0 {
                    l[0]
                } else {
                    ValView::Nil
                },
                None => seq_view(args@)[0] == ValView::Nil && val_view(v) == ValView::Nil,
            }),
            Err(p) => !(args@.len() > 0 && (seq_of_val(seq_view(args@)[0]) is Some || seq_view(
                args@,
            )[0] == ValView::Nil)) && val_view(p) matches ValView::Str(_),
        },
{
    proof {
        seq_view_props(args@);
    }
    if args.len() == 0 {
        return Err(err_str("first requires an argument"));
    }
    proof {
        crate::types::lemma_view_cases(args@[0]);
    }
    match &args[0] {
        MalExpression::List(l) | MalExpression::Vector(l) => {
            proof {
                seq_view_props(l@);
            }
            if l.len() > 0 {
                Ok(l[0].clone())
            } else {
                Ok(MalExpression::Nil())
            }
        },
        MalExpression::Nil() => Ok(MalExpression::Nil()),
        _ => Err(err_str("first requires an argument")),
    }
}

/// All but the first element of a list or vector, as a list; empty for
/// `nil` or an empty sequence.
pub fn rest(args: &Vec<MalExpression>) -> (r: EvalRet)
    ensures
        match r {
            Ok(v) => args@.len() > 0 && (match seq_of_val(seq_view(args@)[0]) {
                Some(l) => val_view(v) == ValView::List(
                    if l.len() > 0 {
                        l.skip(1)
                    } else {
                        Seq::empty()
                    },
                ),
                None => seq_view(args@)[0] == ValView::Nil && val_view(v) == ValView::List(
                    Seq::empty(),
                ),
            }),
            Err(p) => !(args@.len() > 0 && (seq_of_val(seq_view(args@)[0]) is Some || seq_view(
                args@,
            )[0] == ValView::Nil)) && val_view(p) matches ValView::Str(_),
        },
{
    proof {
        seq_view_props(args@);
    }
    if args.len() == 0 {
        return Err(err_str("rest requires an argument"));
    }
    proof {
        crate::types::lemma_view_cases(args@[0]);
    }
    match &args[0] {
        MalExpression::List(l) | MalExpression::Vector(l) => {
            proof {
                seq_view_props(l@);
            }
            if l.len() > 0 {
                let tail = crate::types::vec_suffix(l, 1);
                proof {
                    crate::types::lemma_seq_view_skip(l@, 1);
                }
                Ok(MalExpression::List(tail))
            } else {
                let empty_vec: Vec<MalExpression> = Vec::new();
                proof {
                    assert(seq_view(empty_vec@) =~= Seq::<ValView>::empty());
                }
                Ok(MalExpression::List(empty_vec))
            }
        },
        MalExpression::Nil() => {
            let empty_vec: Vec<MalExpression> = Vec::new();
            proof {
                assert(seq_view(empty_vec@) =~= Seq::<ValView>::empty());
            }
            Ok(MalExpression::List(empty_vec))
        },
        _ => Err(err_str("invalid argument to rest: must be a non-empty list/vector")),
    }
}

/// Raise the first argument as an error payload; it round-trips unchanged
/// through `catch*`.
pub fn throw(args: &Vec<MalExpression>) -> (r: EvalRet)
    ensures
        match r {
            Ok(_) => false,
            Err(p) => if args@.len() > 0 {
                val_view(p) == seq_view(args@)[0]
            } else {
                val_view(p) == ValView::Str("throw requires an argument"@)
            },
        },
{
    proof {
        seq_view_props(args@);
    }
    if args.len() > 0 {
        Err(args[0].clone())
    } else {
        Err(err_str("throw requires an argument"))
    }
}

/// Type predicates on the first argument.
pub fn symbol_q(args: &Vec<MalExpression>) -> (r: EvalRet)
    ensures
        match r {
            Ok(v) => args@.len() > 0 && val_view(v) == ValView::Boolean(
                seq_view(args@)[0] matches ValView::Symbol(_),
            ),
            Err(p) => args@.len() == 0 && val_view(p) matches ValView::Str(_),
        },
{
    proof {
        seq_view_props(args@);
        if args@.len() > 0 {
            crate::types::lemma_view_cases(args@[0]);
        }
    }
    if args.len() == 0 {
        return Err(err_str("symbol_q requires an argument"));
    }
    match &args[0] {
        MalExpression::Symbol(_) => Ok(MalExpression::Boolean(true)),
        _ => Ok(MalExpression::Boolean(false)),
    }
}

pub fn nil_q(args: &Vec<MalExpression>) -> (r: EvalRet)
    ensures
        match r {
            Ok(v) => args@.len() > 0 && val_view(v) == ValView::Boolean(
                seq_view(args@)[0] matches ValView::Nil,
            ),
            Err(p) => args@.len() == 0 && val_view(p) matches ValView::Str(_),
        },
{
    proof {
        seq_view_props(args@);
        if args@.len() > 0 {
            crate::types::lemma_view_cases(args@[0]);
        }
    }
    if args.len() == 0 {
        return Err(err_str("nil_q requires an argument"));
    }
    match &args[0] {
        MalExpression::Nil() => Ok(MalExpression::Boolean(true)),
        _ => Ok(MalExpression::Boolean(false)),
    }
}

pub fn true_q(args: &Vec<MalExpression>) -> (r: EvalRet)
    ensures
        match r {
            Ok(v) => args@.len() > 0 && val_view(v) == ValView::Boolean(
                seq_view(args@)[0] == ValView::Boolean(true),
            ),
            Err(p) => args@.len() == 0 && val_view(p) matches ValView::Str(_),
        },
{
    proof {
        seq_view_props(args@);
        if args@.len() > 0 {
            crate::types::lemma_view_cases(args@[0]);
        }
    }
    if args.len() == 0 {
        return Err(err_str("true_q requires an argument"));
    }
    match &args[0] {
        MalExpression::Boolean(b) => Ok(MalExpression::Boolean(*b)),
        _ => Ok(MalExpression::Boolean(false)),
    }
}

pub fn false_q(args: &Vec<MalExpression>) -> (r: EvalRet)
    ensures
        match r {
            Ok(v) => args@.len() > 0 && val_view(v) == ValView::Boolean(
                seq_view(args@)[0] == ValView::Boolean(false),
            ),
            Err(p) => args@.len() == 0 && val_view(p) matches ValView::Str(_),
        },
{
    proof {
        seq_view_props(args@);
        if args@.len() > 0 {
            crate::types::lemma_view_cases(args@[0]);
        }
    }
    if args.len() == 0 {
        return Err(err_str("false_q requires an argument"));
    }
    match &args[0] {
        MalExpression::Boolean(b) => Ok(MalExpression::Boolean(!*b)),
        _ => Ok(MalExpression::Boolean(false)),
    }
}

pub fn atom_q(args: &Vec<MalExpression>) -> (r: EvalRet)
    ensures
        match r {
            Ok(v) => args@.len() > 0 && val_view(v) == ValView::Boolean(
                seq_view(args@)[0] matches ValView::Atom(_),
            ),
            Err(p) => args@.len() == 0 && val_view(p) matches ValView::Str(_),
        },
{
    proof {
        seq_view_props(args@);
        if args@.len() > 0 {
            crate::types::lemma_view_cases(args@[0]);
        }
    }
    if args.len() == 0 {
        return Err(err_str("atom? requires an argument"));
    }
    match &args[0] {
        MalExpression::Atom(_) => Ok(MalExpression::Boolean(true)),
        _ => Ok(MalExpression::Boolean(false)),
    }
}

/// The arguments rendered readably, joined with spaces, as a string value.
pub fn pr_dash_str(args: &Vec<MalExpression>) -> (r: EvalRet)
    ensures
        r matches Ok(v) && val_view(v) == ValView::Str(
            crate::printer::join_with(seq_view(args@), true, " "@),
        ),
{
    let mut s = String::new();
    crate::printer::join_into(&mut s, args, true, " ");
    Ok(MalExpression::String(s))
}

/// The arguments rendered plainly, concatenated, as a string value.
pub fn str_fn(args: &Vec<MalExpression>) -> (r: EvalRet)
    ensures
        r matches Ok(v) && val_view(v) == ValView::Str(
            crate::printer::join_with(seq_view(args@), false, ""@),
        ),
{
    let mut s = String::new();
    crate::printer::join_into(&mut s, args, false, "");
    Ok(MalExpression::String(s))
}

/// Parse the first argument, a string, as one form.
pub fn read_dash_string(args: &Vec<MalExpression>) -> (r: EvalRet)
    ensures
        match r {
            Ok(v) => {
                &&& args@.len() > 0
                &&& seq_view(args@)[0] matches ValView::Str(src)
                &&& crate::reader::spec_read_str(src) == Ok::<_, Seq<char>>(val_view(v))
                &&& crate::types::wf_val(val_view(v), 0, 0)
            },
            Err(p) => if args@.len() > 0 && (seq_view(args@)[0] matches ValView::Str(src)) {
                match seq_view(args@)[0] {
                    ValView::Str(src2) => crate::reader::spec_read_str(src2) matches Err(m)
                        && val_view(p) == ValView::Str(m),
                    _ => false,
                }
            } else {
                val_view(p) == ValView::Str("read-string requires a string argument"@)
            },
        },
{
    proof {
        seq_view_props(args@);
        if args@.len() > 0 {
            crate::types::lemma_view_cases(args@[0]);
        }
    }
    if args.len() == 0 {
        return Err(err_str("read-string requires a string argument"));
    }
    match &args[0] {
        MalExpression::String(src) => match crate::reader::read_str(src.as_str()) {
            Ok(v) => Ok(v),
            Err(m) => Err(MalExpression::String(m)),
        },
        _ => Err(err_str("read-string requires a string argument")),
    }
}


/// Make an atom holding the first argument; the new cell is appended to the
/// interpreter's atom arena.
pub fn atom(interp: &mut Interp, args: &Vec<MalExpression>) -> (r: EvalRet)
    requires
        interp_wf(*old(interp)),
        forall|j: int|
            0 <= j < args@.len() ==> crate::types::wf_val(
                val_view(#[trigger] args@[j]),
                old(interp).nenvs(),
                old(interp).natoms(),
            ),
    ensures
        interp_wf(*final(interp)),
        final(interp).envs@ == old(interp).envs@,
        final(interp).out@ == old(interp).out@,
        match r {
            Ok(v) => {
                &&& args@.len() > 0
                &&& val_view(v) == ValView::Atom(old(interp).natoms())
                &&& final(interp).atoms@.len() == old(interp).atoms@.len() + 1
                &&& forall|j: int|
                    0 <= j < old(interp).atoms@.len() ==> final(interp).atoms@[j] == old(
                        interp,
                    ).atoms@[j]
                &&& val_view(final(interp).atoms@.last()) == seq_view(args@)[0]
            },
            Err(p) => args@.len() == 0 && final(interp).atoms@ == old(interp).atoms@
                && val_view(p) matches ValView::Str(_),
        },
{
    proof {
        seq_view_props(args@);
    }
    if args.len() == 0 {
        return Err(err_str("atom requires an argument"));
    }
    let cell = args[0].clone();
    let idx = interp.push_atom(cell);
    Ok(MalExpression::Atom(idx))
}

/// The value an atom currently holds.
pub fn deref(interp: &Interp, args: &Vec<MalExpression>) -> (r: EvalRet)
    requires
        interp_wf(*interp),
        forall|j: int|
            0 <= j < args@.len() ==> crate::types::wf_val(
                val_view(#[trigger] args@[j]),
                interp.nenvs(),
                interp.natoms(),
            ),
    ensures
        match r {
            Ok(v) => {
                &&& args@.len() > 0
                &&& seq_view(args@)[0] matches ValView::Atom(_)
                &&& (match seq_view(args@)[0] {
                    ValView::Atom(a) => a < interp.natoms() && val_view(v) == val_view(
                        interp.atoms@[a as int],
                    ),
                    _ => false,
                })
            },
            Err(p) => !(args@.len() > 0 && seq_view(args@)[0] matches ValView::Atom(_))
                && val_view(p) matches ValView::Str(_),
        },
{
    proof {
        seq_view_props(args@);
        if args@.len() > 0 {
            crate::types::lemma_view_cases(args@[0]);
        }
    }
    if args.len() == 0 {
        return Err(err_str("deref requires an argument"));
    }
    match &args[0] {
        MalExpression::Atom(a) => Ok(interp.atom_get(*a)),
        _ => Err(err_str("deref requires an atom argument")),
    }
}

/// Replace an atom's contents with the second argument and return it.
pub fn reset(interp: &mut Interp, args: &Vec<MalExpression>) -> (r: EvalRet)
    requires
        interp_wf(*old(interp)),
        forall|j: int|
            0 <= j < args@.len() ==> crate::types::wf_val(
                val_view(#[trigger] args@[j]),
                old(interp).nenvs(),
                old(interp).natoms(),
            ),
    ensures
        interp_wf(*final(interp)),
        final(interp).envs@ == old(interp).envs@,
        final(interp).out@ == old(interp).out@,
        final(interp).atoms@.len() == old(interp).atoms@.len(),
        match r {
            Ok(v) => {
                &&& args@.len() >= 2
                &&& match seq_view(args@)[0] {
                    ValView::Atom(a2) => {
                        &&& a2 < old(interp).natoms()
                        &&& val_view(final(interp).atoms@[a2 as int]) == seq_view(args@)[1]
                        &&& forall|j: int|
                            0 <= j < old(interp).atoms@.len() && j != a2 ==> #[trigger] final(interp).atoms@[j] == old(interp).atoms@[j]
                    },
                    _ => false,
                }
                &&& val_view(v) == seq_view(args@)[1]
            },
            Err(p) => !(args@.len() >= 2 && seq_view(args@)[0] matches ValView::Atom(_))
                && final(interp).atoms@ == old(interp).atoms@ && val_view(p)
                matches ValView::Str(_),
        },
{
    proof {
        seq_view_props(args@);
        if args@.len() > 0 {
            crate::types::lemma_view_cases(args@[0]);
        }
    }
    if args.len() >= 2 {
        match &args[0] {
            MalExpression::Atom(a) => {
                let ai = *a;
                let val = args[1].clone();
                interp.atom_set(ai, val);
                return Ok(args[1].clone());
            },
            _ => {
                return Err(err_str("reset! requires two arguments: atom, new atom contents"));
            },
        }
    }
    Err(err_str("reset! requires two arguments: atom, new atom contents"))
}

/// Render the arguments and record the line: readably with spaces for
/// `prn`, plainly for `println`; both yield `nil`.
pub fn print_line(interp: &mut Interp, args: &Vec<MalExpression>, readable: bool) -> (r: EvalRet)
    requires
        interp_wf(*old(interp)),
    ensures
        interp_wf(*final(interp)),
        final(interp).envs@ == old(interp).envs@,
        final(interp).atoms@ == old(interp).atoms@,
        final(interp).out@.len() == old(interp).out@.len() + 1,
        final(interp).out@.last()@ == crate::printer::join_with(seq_view(args@), readable, " "@),
        r matches Ok(v) && val_view(v) == ValView::Nil,
{
    let mut s = String::new();
    crate::printer::join_into(&mut s, args, readable, " ");
    interp.push_out(s);
    Ok(MalExpression::Nil())
}

/// The root environment, with every primitive bound, and an otherwise empty
/// interpreter state.

/// Bind the arithmetic and comparison primitives into one environment node.
#[verifier::rlimit(60)]
fn bind_arithmetic(env: &mut Env)
    ensures
        final(env).outer == old(env).outer,
        forall|k: Seq<char>|
            #[trigger] final(env).spec_lookup(k) == (
                if k == "+"@ {
                    Some(ValView::RustFunction(NativeFn::Plus))
                } else                 if k == "-"@ {
                    Some(ValView::RustFunction(NativeFn::Minus))
                } else                 if k == "*"@ {
                    Some(ValView::RustFunction(NativeFn::Times))
                } else                 if k == "/"@ {
                    Some(ValView::RustFunction(NativeFn::IntDivide))
                } else                 if k == "<"@ {
                    Some(ValView::RustFunction(NativeFn::LessThan))
                } else                 if k == "<="@ {
                    Some(ValView::RustFunction(NativeFn::LessThanEquals))
                } else                 if k == ">"@ {
                    Some(ValView::RustFunction(NativeFn::MoreThan))
                } else                 if k == ">="@ {
                    Some(ValView::RustFunction(NativeFn::MoreThanEquals))
                } else {
                    old(env).spec_lookup(k)
                }),
        old(env).data@.len() <= final(env).data@.len(),
        forall|j: int|
            0 <= j < old(env).data@.len() ==> final(env).data@[j] == #[trigger] old(
                env,
            ).data@[j],
        forall|j: int|
            old(env).data@.len() <= j < final(env).data@.len() ==> val_view(
                #[trigger] final(env).data@[j].1,
            ) matches ValView::RustFunction(_),
{
    proof {
        // Pin each name's characters, so distinct names are provably distinct.
        reveal_strlit("+");
        reveal_strlit("-");
        reveal_strlit("*");
        reveal_strlit("/");
        reveal_strlit("<");
        reveal_strlit("<=");
        reveal_strlit(">");
        reveal_strlit(">=");
        assert("+"@ =~= seq!['+']);
        assert("-"@ =~= seq!['-']);
        assert("*"@ =~= seq!['*']);
        assert("/"@ =~= seq!['/']);
        assert("<"@ =~= seq!['<']);
        assert("<="@ =~= seq!['<', '=']);
        assert(">"@ =~= seq!['>']);
        assert(">="@ =~= seq!['>', '=']);
        assert("+"@.len() == 1);
        assert("+"@[0] == '+');
        assert("-"@.len() == 1);
        assert("-"@[0] == '-');
        assert("*"@.len() == 1);
        assert("*"@[0] == '*');
        assert("/"@.len() == 1);
        assert("/"@[0] == '/');
        assert("<"@.len() == 1);
        assert("<"@[0] == '<');
        assert("<="@.len() == 2);
        assert("<="@[0] == '<');
        assert("<="@[1] == '=');
        assert(">"@.len() == 1);
        assert(">"@[0] == '>');
        assert(">="@.len() == 2);
        assert(">="@[0] == '>');
        assert(">="@[1] == '=');
    }
    env.set("+", MalExpression::RustFunction(NativeFn::Plus));
    let ghost e1 = *env;
    env.set("-", MalExpression::RustFunction(NativeFn::Minus));
    let ghost e2 = *env;
    env.set("*", MalExpression::RustFunction(NativeFn::Times));
    let ghost e3 = *env;
    env.set("/", MalExpression::RustFunction(NativeFn::IntDivide));
    let ghost e4 = *env;
    env.set("<", MalExpression::RustFunction(NativeFn::LessThan));
    let ghost e5 = *env;
    env.set("<=", MalExpression::RustFunction(NativeFn::LessThanEquals));
    let ghost e6 = *env;
    env.set(">", MalExpression::RustFunction(NativeFn::MoreThan));
    let ghost e7 = *env;
    env.set(">=", MalExpression::RustFunction(NativeFn::MoreThanEquals));
    let ghost e8 = *env;
    proof {
        assert(*env == e8);
        assert forall|k: Seq<char>|
            #[trigger] env.spec_lookup(k) == (
            if k == "+"@ {
                Some(ValView::RustFunction(NativeFn::Plus))
            } else             if k == "-"@ {
                Some(ValView::RustFunction(NativeFn::Minus))
            } else             if k == "*"@ {
                Some(ValView::RustFunction(NativeFn::Times))
            } else             if k == "/"@ {
                Some(ValView::RustFunction(NativeFn::IntDivide))
            } else             if k == "<"@ {
                Some(ValView::RustFunction(NativeFn::LessThan))
            } else             if k == "<="@ {
                Some(ValView::RustFunction(NativeFn::LessThanEquals))
            } else             if k == ">"@ {
                Some(ValView::RustFunction(NativeFn::MoreThan))
            } else             if k == ">="@ {
                Some(ValView::RustFunction(NativeFn::MoreThanEquals))
            } else {
                old(env).spec_lookup(k)
            }) by {
            assert(e8.spec_lookup(k) == (if k == ">="@ {
                Some(ValView::RustFunction(NativeFn::MoreThanEquals))
            } else {
                e7.spec_lookup(k)
            }));
            assert(e7.spec_lookup(k) == (if k == ">"@ {
                Some(ValView::RustFunction(NativeFn::MoreThan))
            } else {
                e6.spec_lookup(k)
            }));
            assert(e6.spec_lookup(k) == (if k == "<="@ {
                Some(ValView::RustFunction(NativeFn::LessThanEquals))
            } else {
                e5.spec_lookup(k)
            }));
            assert(e5.spec_lookup(k) == (if k == "<"@ {
                Some(ValView::RustFunction(NativeFn::LessThan))
            } else {
                e4.spec_lookup(k)
            }));
            assert(e4.spec_lookup(k) == (if k == "/"@ {
                Some(ValView::RustFunction(NativeFn::IntDivide))
            } else {
                e3.spec_lookup(k)
            }));
            assert(e3.spec_lookup(k) == (if k == "*"@ {
                Some(ValView::RustFunction(NativeFn::Times))
            } else {
                e2.spec_lookup(k)
            }));
            assert(e2.spec_lookup(k) == (if k == "-"@ {
                Some(ValView::RustFunction(NativeFn::Minus))
            } else {
                e1.spec_lookup(k)
            }));
            assert(e1.spec_lookup(k) == (if k == "+"@ {
                Some(ValView::RustFunction(NativeFn::Plus))
            } else {
                old(env).spec_lookup(k)
            }));
        }
    }
}

/// Bind the list and equality primitives into one environment node.
#[verifier::rlimit(60)]
fn bind_sequences(env: &mut Env)
    ensures
        final(env).outer == old(env).outer,
        forall|k: Seq<char>|
            #[trigger] final(env).spec_lookup(k) == (
                if k == "list"@ {
                    Some(ValView::RustFunction(NativeFn::ListFn))
                } else                 if k == "list?"@ {
                    Some(ValView::RustFunction(NativeFn::ListQ))
                } else                 if k == "empty?"@ {
                    Some(ValView::RustFunction(NativeFn::EmptyQ))
                } else                 if k == "count"@ {
                    Some(ValView::RustFunction(NativeFn::Count))
                } else                 if k == "="@ {
                    Some(ValView::RustFunction(NativeFn::Equal))
                } else                 if k == "cons"@ {
                    Some(ValView::RustFunction(NativeFn::ConsFn))
                } else                 if k == "concat"@ {
                    Some(ValView::RustFunction(NativeFn::ConcatFn))
                } else                 if k == "nth"@ {
                    Some(ValView::RustFunction(NativeFn::Nth))
                } else                 if k == "first"@ {
                    Some(ValView::RustFunction(NativeFn::FirstFn))
                } else                 if k == "rest"@ {
                    Some(ValView::RustFunction(NativeFn::RestFn))
                } else {
                    old(env).spec_lookup(k)
                }),
        old(env).data@.len() <= final(env).data@.len(),
        forall|j: int|
            0 <= j < old(env).data@.len() ==> final(env).data@[j] == #[trigger] old(
                env,
            ).data@[j],
        forall|j: int|
            old(env).data@.len() <= j < final(env).data@.len() ==> val_view(
                #[trigger] final(env).data@[j].1,
            ) matches ValView::RustFunction(_),
{
    proof {
        // Pin each name's characters, so distinct names are provably distinct.
        reveal_strlit("list");
        reveal_strlit("list?");
        reveal_strlit("empty?");
        reveal_strlit("count");
        reveal_strlit("=");
        reveal_strlit("cons");
        reveal_strlit("concat");
        reveal_strlit("nth");
        reveal_strlit("first");
        reveal_strlit("rest");
        assert("list"@ =~= seq!['l', 'i', 's', 't']);
        assert("list?"@ =~= seq!['l', 'i', 's', 't', '?']);
        assert("empty?"@ =~= seq!['e', 'm', 'p', 't', 'y', '?']);
        assert("count"@ =~= seq!['c', 'o', 'u', 'n', 't']);
        assert("="@ =~= seq!['=']);
        assert("cons"@ =~= seq!['c', 'o', 'n', 's']);
        assert("concat"@ =~= seq!['c', 'o', 'n', 'c', 'a', 't']);
        assert("nth"@ =~= seq!['n', 't', 'h']);
        assert("first"@ =~= seq!['f', 'i', 'r', 's', 't']);
        assert("rest"@ =~= seq!['r', 'e', 's', 't']);
        assert("list"@.len() == 4);
        assert("list"@[0] == 'l');
        assert("list"@[1] == 'i');
        assert("list"@[2] == 's');
        assert("list"@[3] == 't');
        assert("list?"@.len() == 5);
        assert("list?"@[0] == 'l');
        assert("list?"@[1] == 'i');
        assert("list?"@[2] == 's');
        assert("list?"@[3] == 't');
        assert("list?"@[4] == '?');
        assert("empty?"@.len() == 6);
        assert("empty?"@[0] == 'e');
        assert("empty?"@[1] == 'm');
        assert("empty?"@[2] == 'p');
        assert("empty?"@[3] == 't');
        assert("empty?"@[4] == 'y');
        assert("empty?"@[5] == '?');
        assert("count"@.len() == 5);
        assert("count"@[0] == 'c');
        assert("count"@[1] == 'o');
        assert("count"@[2] == 'u');
        assert("count"@[3] == 'n');
        assert("count"@[4] == 't');
        assert("="@.len() == 1);
        assert("="@[0] == '=');
        assert("cons"@.len() == 4);
        assert("cons"@[0] == 'c');
        assert("cons"@[1] == 'o');
        assert("cons"@[2] == 'n');
        assert("cons"@[3] == 's');
        assert("concat"@.len() == 6);
        assert("concat"@[0] == 'c');
        assert("concat"@[1] == 'o');
        assert("concat"@[2] == 'n');
        assert("concat"@[3] == 'c');
        assert("concat"@[4] == 'a');
        assert("concat"@[5] == 't');
        assert("nth"@.len() == 3);
        assert("nth"@[0] == 'n');
        assert("nth"@[1] == 't');
        assert("nth"@[2] == 'h');
        assert("first"@.len() == 5);
        assert("first"@[0] == 'f');
        assert("first"@[1] == 'i');
        assert("first"@[2] == 'r');
        assert("first"@[3] == 's');
        assert("first"@[4] == 't');
        assert("rest"@.len() == 4);
        assert("rest"@[0] == 'r');
        assert("rest"@[1] == 'e');
        assert("rest"@[2] == 's');
        assert("rest"@[3] == 't');
    }
    env.set("list", MalExpression::RustFunction(NativeFn::ListFn));
    let ghost e1 = *env;
    env.set("list?", MalExpression::RustFunction(NativeFn::ListQ));
    let ghost e2 = *env;
    env.set("empty?", MalExpression::RustFunction(NativeFn::EmptyQ));
    let ghost e3 = *env;
    env.set("count", MalExpression::RustFunction(NativeFn::Count));
    let ghost e4 = *env;
    env.set("=", MalExpression::RustFunction(NativeFn::Equal));
    let ghost e5 = *env;
    env.set("cons", MalExpression::RustFunction(NativeFn::ConsFn));
    let ghost e6 = *env;
    env.set("concat", MalExpression::RustFunction(NativeFn::ConcatFn));
    let ghost e7 = *env;
    env.set("nth", MalExpression::RustFunction(NativeFn::Nth));
    let ghost e8 = *env;
    env.set("first", MalExpression::RustFunction(NativeFn::FirstFn));
    let ghost e9 = *env;
    env.set("rest", MalExpression::RustFunction(NativeFn::RestFn));
    let ghost e10 = *env;
    proof {
        assert(*env == e10);
        assert forall|k: Seq<char>|
            #[trigger] env.spec_lookup(k) == (
            if k == "list"@ {
                Some(ValView::RustFunction(NativeFn::ListFn))
            } else             if k == "list?"@ {
                Some(ValView::RustFunction(NativeFn::ListQ))
            } else             if k == "empty?"@ {
                Some(ValView::RustFunction(NativeFn::EmptyQ))
            } else             if k == "count"@ {
                Some(ValView::RustFunction(NativeFn::Count))
            } else             if k == "="@ {
                Some(ValView::RustFunction(NativeFn::Equal))
            } else             if k == "cons"@ {
                Some(ValView::RustFunction(NativeFn::ConsFn))
            } else             if k == "concat"@ {
                Some(ValView::RustFunction(NativeFn::ConcatFn))
            } else             if k == "nth"@ {
                Some(ValView::RustFunction(NativeFn::Nth))
            } else             if k == "first"@ {
                Some(ValView::RustFunction(NativeFn::FirstFn))
            } else             if k == "rest"@ {
                Some(ValView::RustFunction(NativeFn::RestFn))
            } else {
                old(env).spec_lookup(k)
            }) by {
            assert(e10.spec_lookup(k) == (if k == "rest"@ {
                Some(ValView::RustFunction(NativeFn::RestFn))
            } else {
                e9.spec_lookup(k)
            }));
            assert(e9.spec_lookup(k) == (if k == "first"@ {
                Some(ValView::RustFunction(NativeFn::FirstFn))
            } else {
                e8.spec_lookup(k)
            }));
            assert(e8.spec_lookup(k) == (if k == "nth"@ {
                Some(ValView::RustFunction(NativeFn::Nth))
            } else {
                e7.spec_lookup(k)
            }));
            assert(e7.spec_lookup(k) == (if k == "concat"@ {
                Some(ValView::RustFunction(NativeFn::ConcatFn))
            } else {
                e6.spec_lookup(k)
            }));
            assert(e6.spec_lookup(k) == (if k == "cons"@ {
                Some(ValView::RustFunction(NativeFn::ConsFn))
            } else {
                e5.spec_lookup(k)
            }));
            assert(e5.spec_lookup(k) == (if k == "="@ {
                Some(ValView::RustFunction(NativeFn::Equal))
            } else {
                e4.spec_lookup(k)
            }));
            assert(e4.spec_lookup(k) == (if k == "count"@ {
                Some(ValView::RustFunction(NativeFn::Count))
            } else {
                e3.spec_lookup(k)
            }));
            assert(e3.spec_lookup(k) == (if k == "empty?"@ {
                Some(ValView::RustFunction(NativeFn::EmptyQ))
            } else {
                e2.spec_lookup(k)
            }));
            assert(e2.spec_lookup(k) == (if k == "list?"@ {
                Some(ValView::RustFunction(NativeFn::ListQ))
            } else {
                e1.spec_lookup(k)
            }));
            assert(e1.spec_lookup(k) == (if k == "list"@ {
                Some(ValView::RustFunction(NativeFn::ListFn))
            } else {
                old(env).spec_lookup(k)
            }));
        }
    }
}

/// Bind the rendering, reading and error primitives into one environment node.
#[verifier::rlimit(60)]
fn bind_strings(env: &mut Env)
    ensures
        final(env).outer == old(env).outer,
        forall|k: Seq<char>|
            #[trigger] final(env).spec_lookup(k) == (
                if k == "pr-str"@ {
                    Some(ValView::RustFunction(NativeFn::PrStrFn))
                } else                 if k == "str"@ {
                    Some(ValView::RustFunction(NativeFn::StrFn))
                } else                 if k == "prn"@ {
                    Some(ValView::RustFunction(NativeFn::Prn))
                } else                 if k == "println"@ {
                    Some(ValView::RustFunction(NativeFn::PrintlnFn))
                } else                 if k == "read-string"@ {
                    Some(ValView::RustFunction(NativeFn::ReadStringFn))
                } else                 if k == "throw"@ {
                    Some(ValView::RustFunction(NativeFn::Throw))
                } else {
                    old(env).spec_lookup(k)
                }),
        old(env).data@.len() <= final(env).data@.len(),
        forall|j: int|
            0 <= j < old(env).data@.len() ==> final(env).data@[j] == #[trigger] old(
                env,
            ).data@[j],
        forall|j: int|
            old(env).data@.len() <= j < final(env).data@.len() ==> val_view(
                #[trigger] final(env).data@[j].1,
            ) matches ValView::RustFunction(_),
{
    proof {
        // Pin each name's characters, so distinct names are provably distinct.
        reveal_strlit("pr-str");
        reveal_strlit("str");
        reveal_strlit("prn");
        reveal_strlit("println");
        reveal_strlit("read-string");
        reveal_strlit("throw");
        assert("pr-str"@ =~= seq!['p', 'r', '-', 's', 't', 'r']);
        assert("str"@ =~= seq!['s', 't', 'r']);
        assert("prn"@ =~= seq!['p', 'r', 'n']);
        assert("println"@ =~= seq!['p', 'r', 'i', 'n', 't', 'l', 'n']);
        assert("read-string"@ =~= seq!['r', 'e', 'a', 'd', '-', 's', 't', 'r', 'i', 'n', 'g']);
        assert("throw"@ =~= seq!['t', 'h', 'r', 'o', 'w']);
        assert("pr-str"@.len() == 6);
        assert("pr-str"@[0] == 'p');
        assert("pr-str"@[1] == 'r');
        assert("pr-str"@[2] == '-');
        assert("pr-str"@[3] == 's');
        assert("pr-str"@[4] == 't');
        assert("pr-str"@[5] == 'r');
        assert("str"@.len() == 3);
        assert("str"@[0] == 's');
        assert("str"@[1] == 't');
        assert("str"@[2] == 'r');
        assert("prn"@.len() == 3);
        assert("prn"@[0] == 'p');
        assert("prn"@[1] == 'r');
        assert("prn"@[2] == 'n');
        assert("println"@.len() == 7);
        assert("println"@[0] == 'p');
        assert("println"@[1] == 'r');
        assert("println"@[2] == 'i');
        assert("println"@[3] == 'n');
        assert("println"@[4] == 't');
        assert("println"@[5] == 'l');
        assert("println"@[6] == 'n');
        assert("read-string"@.len() == 11);
        assert("read-string"@[0] == 'r');
        assert("read-string"@[1] == 'e');
        assert("read-string"@[2] == 'a');
        assert("read-string"@[3] == 'd');
        assert("read-string"@[4] == '-');
        assert("read-string"@[5] == 's');
        assert("read-string"@[6] == 't');
        assert("read-string"@[7] == 'r');
        assert("read-string"@[8] == 'i');
        assert("read-string"@[9] == 'n');
        assert("read-string"@[10] == 'g');
        assert("throw"@.len() == 5);
        assert("throw"@[0] == 't');
        assert("throw"@[1] == 'h');
        assert("throw"@[2] == 'r');
        assert("throw"@[3] == 'o');
        assert("throw"@[4] == 'w');
    }
    env.set("pr-str", MalExpression::RustFunction(NativeFn::PrStrFn));
    let ghost e1 = *env;
    env.set("str", MalExpression::RustFunction(NativeFn::StrFn));
    let ghost e2 = *env;
    env.set("prn", MalExpression::RustFunction(NativeFn::Prn));
    let ghost e3 = *env;
    env.set("println", MalExpression::RustFunction(NativeFn::PrintlnFn));
    let ghost e4 = *env;
    env.set("read-string", MalExpression::RustFunction(NativeFn::ReadStringFn));
    let ghost e5 = *env;
    env.set("throw", MalExpression::RustFunction(NativeFn::Throw));
    let ghost e6 = *env;
    proof {
        assert(*env == e6);
        assert forall|k: Seq<char>|
            #[trigger] env.spec_lookup(k) == (
            if k == "pr-str"@ {
                Some(ValView::RustFunction(NativeFn::PrStrFn))
            } else             if k == "str"@ {
                Some(ValView::RustFunction(NativeFn::StrFn))
            } else             if k == "prn"@ {
                Some(ValView::RustFunction(NativeFn::Prn))
            } else             if k == "println"@ {
                Some(ValView::RustFunction(NativeFn::PrintlnFn))
            } else             if k == "read-string"@ {
                Some(ValView::RustFunction(NativeFn::ReadStringFn))
            } else             if k == "throw"@ {
                Some(ValView::RustFunction(NativeFn::Throw))
            } else {
                old(env).spec_lookup(k)
            }) by {
            assert(e6.spec_lookup(k) == (if k == "throw"@ {
                Some(ValView::RustFunction(NativeFn::Throw))
            } else {
                e5.spec_lookup(k)
            }));
            assert(e5.spec_lookup(k) == (if k == "read-string"@ {
                Some(ValView::RustFunction(NativeFn::ReadStringFn))
            } else {
                e4.spec_lookup(k)
            }));
            assert(e4.spec_lookup(k) == (if k == "println"@ {
                Some(ValView::RustFunction(NativeFn::PrintlnFn))
            } else {
                e3.spec_lookup(k)
            }));
            assert(e3.spec_lookup(k) == (if k == "prn"@ {
                Some(ValView::RustFunction(NativeFn::Prn))
            } else {
                e2.spec_lookup(k)
            }));
            assert(e2.spec_lookup(k) == (if k == "str"@ {
                Some(ValView::RustFunction(NativeFn::StrFn))
            } else {
                e1.spec_lookup(k)
            }));
            assert(e1.spec_lookup(k) == (if k == "pr-str"@ {
                Some(ValView::RustFunction(NativeFn::PrStrFn))
            } else {
                old(env).spec_lookup(k)
            }));
        }
    }
}

/// Bind the atom, predicate and application primitives into one environment node.
#[verifier::rlimit(60)]
fn bind_state(env: &mut Env)
    ensures
        final(env).outer == old(env).outer,
        forall|k: Seq<char>|
            #[trigger] final(env).spec_lookup(k) == (
                if k == "atom"@ {
                    Some(ValView::RustFunction(NativeFn::AtomFn))
                } else                 if k == "atom?"@ {
                    Some(ValView::RustFunction(NativeFn::AtomQ))
                } else                 if k == "deref"@ {
                    Some(ValView::RustFunction(NativeFn::DerefFn))
                } else                 if k == "reset!"@ {
                    Some(ValView::RustFunction(NativeFn::Reset))
                } else                 if k == "swap!"@ {
                    Some(ValView::RustFunction(NativeFn::Swap))
                } else                 if k == "symbol?"@ {
                    Some(ValView::RustFunction(NativeFn::SymbolQ))
                } else                 if k == "nil?"@ {
                    Some(ValView::RustFunction(NativeFn::NilQ))
                } else                 if k == "true?"@ {
                    Some(ValView::RustFunction(NativeFn::TrueQ))
                } else                 if k == "false?"@ {
                    Some(ValView::RustFunction(NativeFn::FalseQ))
                } else                 if k == "apply"@ {
                    Some(ValView::RustFunction(NativeFn::ApplyFn))
                } else                 if k == "map"@ {
                    Some(ValView::RustFunction(NativeFn::MapFn))
                } else {
                    old(env).spec_lookup(k)
                }),
        old(env).data@.len() <= final(env).data@.len(),
        forall|j: int|
            0 <= j < old(env).data@.len() ==> final(env).data@[j] == #[trigger] old(
                env,
            ).data@[j],
        forall|j: int|
            old(env).data@.len() <= j < final(env).data@.len() ==> val_view(
                #[trigger] final(env).data@[j].1,
            ) matches ValView::RustFunction(_),
{
    proof {
        // Pin each name's characters, so distinct names are provably distinct.
        reveal_strlit("atom");
        reveal_strlit("atom?");
        reveal_strlit("deref");
        reveal_strlit("reset!");
        reveal_strlit("swap!");
        reveal_strlit("symbol?");
        reveal_strlit("nil?");
        reveal_strlit("true?");
        reveal_strlit("false?");
        reveal_strlit("apply");
        reveal_strlit("map");
        assert("atom"@ =~= seq!['a', 't', 'o', 'm']);
        assert("atom?"@ =~= seq!['a', 't', 'o', 'm', '?']);
        assert("deref"@ =~= seq!['d', 'e', 'r', 'e', 'f']);
        assert("reset!"@ =~= seq!['r', 'e', 's', 'e', 't', '!']);
        assert("swap!"@ =~= seq!['s', 'w', 'a', 'p', '!']);
        assert("symbol?"@ =~= seq!['s', 'y', 'm', 'b', 'o', 'l', '?']);
        assert("nil?"@ =~= seq!['n', 'i', 'l', '?']);
        assert("true?"@ =~= seq!['t', 'r', 'u', 'e', '?']);
        assert("false?"@ =~= seq!['f', 'a', 'l', 's', 'e', '?']);
        assert("apply"@ =~= seq!['a', 'p', 'p', 'l', 'y']);
        assert("map"@ =~= seq!['m', 'a', 'p']);
        assert("atom"@.len() == 4);
        assert("atom"@[0] == 'a');
        assert("atom"@[1] == 't');
        assert("atom"@[2] == 'o');
        assert("atom"@[3] == 'm');
        assert("atom?"@.len() == 5);
        assert("atom?"@[0] == 'a');
        assert("atom?"@[1] == 't');
        assert("atom?"@[2] == 'o');
        assert("atom?"@[3] == 'm');
        assert("atom?"@[4] == '?');
        assert("deref"@.len() == 5);
        assert("deref"@[0] == 'd');
        assert("deref"@[1] == 'e');
        assert("deref"@[2] == 'r');
        assert("deref"@[3] == 'e');
        assert("deref"@[4] == 'f');
        assert("reset!"@.len() == 6);
        assert("reset!"@[0] == 'r');
        assert("reset!"@[1] == 'e');
        assert("reset!"@[2] == 's');
        assert("reset!"@[3] == 'e');
        assert("reset!"@[4] == 't');
        assert("reset!"@[5] == '!');
        assert("swap!"@.len() == 5);
        assert("swap!"@[0] == 's');
        assert("swap!"@[1] == 'w');
        assert("swap!"@[2] == 'a');
        assert("swap!"@[3] == 'p');
        assert("swap!"@[4] == '!');
        assert("symbol?"@.len() == 7);
        assert("symbol?"@[0] == 's');
        assert("symbol?"@[1] == 'y');
        assert("symbol?"@[2] == 'm');
        assert("symbol?"@[3] == 'b');
        assert("symbol?"@[4] == 'o');
        assert("symbol?"@[5] == 'l');
        assert("symbol?"@[6] == '?');
        assert("nil?"@.len() == 4);
        assert("nil?"@[0] == 'n');
        assert("nil?"@[1] == 'i');
        assert("nil?"@[2] == 'l');
        assert("nil?"@[3] == '?');
        assert("true?"@.len() == 5);
        assert("true?"@[0] == 't');
        assert("true?"@[1] == 'r');
        assert("true?"@[2] == 'u');
        assert("true?"@[3] == 'e');
        assert("true?"@[4] == '?');
        assert("false?"@.len() == 6);
        assert("false?"@[0] == 'f');
        assert("false?"@[1] == 'a');
        assert("false?"@[2] == 'l');
        assert("false?"@[3] == 's');
        assert("false?"@[4] == 'e');
        assert("false?"@[5] == '?');
        assert("apply"@.len() == 5);
        assert("apply"@[0] == 'a');
        assert("apply"@[1] == 'p');
        assert("apply"@[2] == 'p');
        assert("apply"@[3] == 'l');
        assert("apply"@[4] == 'y');
        assert("map"@.len() == 3);
        assert("map"@[0] == 'm');
        assert("map"@[1] == 'a');
        assert("map"@[2] == 'p');
    }
    env.set("atom", MalExpression::RustFunction(NativeFn::AtomFn));
    let ghost e1 = *env;
    env.set("atom?", MalExpression::RustFunction(NativeFn::AtomQ));
    let ghost e2 = *env;
    env.set("deref", MalExpression::RustFunction(NativeFn::DerefFn));
    let ghost e3 = *env;
    env.set("reset!", MalExpression::RustFunction(NativeFn::Reset));
    let ghost e4 = *env;
    env.set("swap!", MalExpression::RustFunction(NativeFn::Swap));
    let ghost e5 = *env;
    env.set("symbol?", MalExpression::RustFunction(NativeFn::SymbolQ));
    let ghost e6 = *env;
    env.set("nil?", MalExpression::RustFunction(NativeFn::NilQ));
    let ghost e7 = *env;
    env.set("true?", MalExpression::RustFunction(NativeFn::TrueQ));
    let ghost e8 = *env;
    env.set("false?", MalExpression::RustFunction(NativeFn::FalseQ));
    let ghost e9 = *env;
    env.set("apply", MalExpression::RustFunction(NativeFn::ApplyFn));
    let ghost e10 = *env;
    env.set("map", MalExpression::RustFunction(NativeFn::MapFn));
    let ghost e11 = *env;
    proof {
        assert(*env == e11);
        assert forall|k: Seq<char>|
            #[trigger] env.spec_lookup(k) == (
            if k == "atom"@ {
                Some(ValView::RustFunction(NativeFn::AtomFn))
            } else             if k == "atom?"@ {
                Some(ValView::RustFunction(NativeFn::AtomQ))
            } else             if k == "deref"@ {
                Some(ValView::RustFunction(NativeFn::DerefFn))
            } else             if k == "reset!"@ {
                Some(ValView::RustFunction(NativeFn::Reset))
            } else             if k == "swap!"@ {
                Some(ValView::RustFunction(NativeFn::Swap))
            } else             if k == "symbol?"@ {
                Some(ValView::RustFunction(NativeFn::SymbolQ))
            } else             if k == "nil?"@ {
                Some(ValView::RustFunction(NativeFn::NilQ))
            } else             if k == "true?"@ {
                Some(ValView::RustFunction(NativeFn::TrueQ))
            } else             if k == "false?"@ {
                Some(ValView::RustFunction(NativeFn::FalseQ))
            } else             if k == "apply"@ {
                Some(ValView::RustFunction(NativeFn::ApplyFn))
            } else             if k == "map"@ {
                Some(ValView::RustFunction(NativeFn::MapFn))
            } else {
                old(env).spec_lookup(k)
            }) by {
            assert(e11.spec_lookup(k) == (if k == "map"@ {
                Some(ValView::RustFunction(NativeFn::MapFn))
            } else {
                e10.spec_lookup(k)
            }));
            assert(e10.spec_lookup(k) == (if k == "apply"@ {
                Some(ValView::RustFunction(NativeFn::ApplyFn))
            } else {
                e9.spec_lookup(k)
            }));
            assert(e9.spec_lookup(k) == (if k == "false?"@ {
                Some(ValView::RustFunction(NativeFn::FalseQ))
            } else {
                e8.spec_lookup(k)
            }));
            assert(e8.spec_lookup(k) == (if k == "true?"@ {
                Some(ValView::RustFunction(NativeFn::TrueQ))
            } else {
                e7.spec_lookup(k)
            }));
            assert(e7.spec_lookup(k) == (if k == "nil?"@ {
                Some(ValView::RustFunction(NativeFn::NilQ))
            } else {
                e6.spec_lookup(k)
            }));
            assert(e6.spec_lookup(k) == (if k == "symbol?"@ {
                Some(ValView::RustFunction(NativeFn::SymbolQ))
            } else {
                e5.spec_lookup(k)
            }));
            assert(e5.spec_lookup(k) == (if k == "swap!"@ {
                Some(ValView::RustFunction(NativeFn::Swap))
            } else {
                e4.spec_lookup(k)
            }));
            assert(e4.spec_lookup(k) == (if k == "reset!"@ {
                Some(ValView::RustFunction(NativeFn::Reset))
            } else {
                e3.spec_lookup(k)
            }));
            assert(e3.spec_lookup(k) == (if k == "deref"@ {
                Some(ValView::RustFunction(NativeFn::DerefFn))
            } else {
                e2.spec_lookup(k)
            }));
            assert(e2.spec_lookup(k) == (if k == "atom?"@ {
                Some(ValView::RustFunction(NativeFn::AtomQ))
            } else {
                e1.spec_lookup(k)
            }));
            assert(e1.spec_lookup(k) == (if k == "atom"@ {
                Some(ValView::RustFunction(NativeFn::AtomFn))
            } else {
                old(env).spec_lookup(k)
            }));
        }
    }
}

/// The root environment, with every primitive bound, and an otherwise empty
/// interpreter state.
#[verifier::rlimit(100)]
pub fn core_ns() -> (r: Interp)
    ensures
        interp_wf(r),
        r.envs@.len() == 1,
        r.envs@[0].outer is None,
        r.atoms@.len() == 0,
        r.out@.len() == 0,
        r.envs@[0].spec_lookup("+"@) == Some(ValView::RustFunction(NativeFn::Plus)),
        r.envs@[0].spec_lookup("-"@) == Some(ValView::RustFunction(NativeFn::Minus)),
        r.envs@[0].spec_lookup("*"@) == Some(ValView::RustFunction(NativeFn::Times)),
        r.envs@[0].spec_lookup("/"@) == Some(ValView::RustFunction(NativeFn::IntDivide)),
        r.envs@[0].spec_lookup("<"@) == Some(ValView::RustFunction(NativeFn::LessThan)),
        r.envs@[0].spec_lookup("<="@) == Some(ValView::RustFunction(NativeFn::LessThanEquals)),
        r.envs@[0].spec_lookup(">"@) == Some(ValView::RustFunction(NativeFn::MoreThan)),
        r.envs@[0].spec_lookup(">="@) == Some(ValView::RustFunction(NativeFn::MoreThanEquals)),
        r.envs@[0].spec_lookup("list"@) == Some(ValView::RustFunction(NativeFn::ListFn)),
        r.envs@[0].spec_lookup("list?"@) == Some(ValView::RustFunction(NativeFn::ListQ)),
        r.envs@[0].spec_lookup("empty?"@) == Some(ValView::RustFunction(NativeFn::EmptyQ)),
        r.envs@[0].spec_lookup("count"@) == Some(ValView::RustFunction(NativeFn::Count)),
        r.envs@[0].spec_lookup("="@) == Some(ValView::RustFunction(NativeFn::Equal)),
        r.envs@[0].spec_lookup("cons"@) == Some(ValView::RustFunction(NativeFn::ConsFn)),
        r.envs@[0].spec_lookup("concat"@) == Some(ValView::RustFunction(NativeFn::ConcatFn)),
        r.envs@[0].spec_lookup("nth"@) == Some(ValView::RustFunction(NativeFn::Nth)),
        r.envs@[0].spec_lookup("first"@) == Some(ValView::RustFunction(NativeFn::FirstFn)),
        r.envs@[0].spec_lookup("rest"@) == Some(ValView::RustFunction(NativeFn::RestFn)),
        r.envs@[0].spec_lookup("pr-str"@) == Some(ValView::RustFunction(NativeFn::PrStrFn)),
        r.envs@[0].spec_lookup("str"@) == Some(ValView::RustFunction(NativeFn::StrFn)),
        r.envs@[0].spec_lookup("prn"@) == Some(ValView::RustFunction(NativeFn::Prn)),
        r.envs@[0].spec_lookup("println"@) == Some(ValView::RustFunction(NativeFn::PrintlnFn)),
        r.envs@[0].spec_lookup("read-string"@) == Some(ValView::RustFunction(NativeFn::ReadStringFn)),
        r.envs@[0].spec_lookup("throw"@) == Some(ValView::RustFunction(NativeFn::Throw)),
        r.envs@[0].spec_lookup("atom"@) == Some(ValView::RustFunction(NativeFn::AtomFn)),
        r.envs@[0].spec_lookup("atom?"@) == Some(ValView::RustFunction(NativeFn::AtomQ)),
        r.envs@[0].spec_lookup("deref"@) == Some(ValView::RustFunction(NativeFn::DerefFn)),
        r.envs@[0].spec_lookup("reset!"@) == Some(ValView::RustFunction(NativeFn::Reset)),
        r.envs@[0].spec_lookup("swap!"@) == Some(ValView::RustFunction(NativeFn::Swap)),
        r.envs@[0].spec_lookup("symbol?"@) == Some(ValView::RustFunction(NativeFn::SymbolQ)),
        r.envs@[0].spec_lookup("nil?"@) == Some(ValView::RustFunction(NativeFn::NilQ)),
        r.envs@[0].spec_lookup("true?"@) == Some(ValView::RustFunction(NativeFn::TrueQ)),
        r.envs@[0].spec_lookup("false?"@) == Some(ValView::RustFunction(NativeFn::FalseQ)),
        r.envs@[0].spec_lookup("apply"@) == Some(ValView::RustFunction(NativeFn::ApplyFn)),
        r.envs@[0].spec_lookup("map"@) == Some(ValView::RustFunction(NativeFn::MapFn)),
        r.envs@[0].spec_lookup("eval"@) == Some(ValView::RustClosure),
        forall|k: Seq<char>|
            !(k == "+"@ || k == "-"@ || k == "*"@ || k == "/"@ || k == "<"@ || k == "<="@ || k == ">"@ || k == ">="@ || k == "list"@ || k == "list?"@ || k == "empty?"@ || k == "count"@ || k == "="@ || k == "cons"@ || k == "concat"@ || k == "nth"@ || k == "first"@ || k == "rest"@ || k == "pr-str"@ || k == "str"@ || k == "prn"@ || k == "println"@ || k == "read-string"@ || k == "throw"@ || k == "atom"@ || k == "atom?"@ || k == "deref"@ || k == "reset!"@ || k == "swap!"@ || k == "symbol?"@ || k == "nil?"@ || k == "true?"@ || k == "false?"@ || k == "apply"@ || k == "map"@ || k == "eval"@) ==> (#[trigger] r.envs@[0].spec_lookup(k)) is None,
{
    proof {
        // Pin each name's characters, so distinct names are provably distinct.
        reveal_strlit("+");
        reveal_strlit("-");
        reveal_strlit("*");
        reveal_strlit("/");
        reveal_strlit("<");
        reveal_strlit("<=");
        reveal_strlit(">");
        reveal_strlit(">=");
        reveal_strlit("list");
        reveal_strlit("list?");
        reveal_strlit("empty?");
        reveal_strlit("count");
        reveal_strlit("=");
        reveal_strlit("cons");
        reveal_strlit("concat");
        reveal_strlit("nth");
        reveal_strlit("first");
        reveal_strlit("rest");
        reveal_strlit("pr-str");
        reveal_strlit("str");
        reveal_strlit("prn");
        reveal_strlit("println");
        reveal_strlit("read-string");
        reveal_strlit("throw");
        reveal_strlit("atom");
        reveal_strlit("atom?");
        reveal_strlit("deref");
        reveal_strlit("reset!");
        reveal_strlit("swap!");
        reveal_strlit("symbol?");
        reveal_strlit("nil?");
        reveal_strlit("true?");
        reveal_strlit("false?");
        reveal_strlit("apply");
        reveal_strlit("map");
        reveal_strlit("eval");
        assert("+"@.len() == 1);
        assert("+"@[0] == '+');
        assert("-"@.len() == 1);
        assert("-"@[0] == '-');
        assert("*"@.len() == 1);
        assert("*"@[0] == '*');
        assert("/"@.len() == 1);
        assert("/"@[0] == '/');
        assert("<"@.len() == 1);
        assert("<"@[0] == '<');
        assert("<="@.len() == 2);
        assert("<="@[0] == '<');
        assert("<="@[1] == '=');
        assert(">"@.len() == 1);
        assert(">"@[0] == '>');
        assert(">="@.len() == 2);
        assert(">="@[0] == '>');
        assert(">="@[1] == '=');
        assert("list"@.len() == 4);
        assert("list"@[0] == 'l');
        assert("list"@[1] == 'i');
        assert("list"@[2] == 's');
        assert("list"@[3] == 't');
        assert("list?"@.len() == 5);
        assert("list?"@[0] == 'l');
        assert("list?"@[1] == 'i');
        assert("list?"@[2] == 's');
        assert("list?"@[3] == 't');
        assert("list?"@[4] == '?');
        assert("empty?"@.len() == 6);
        assert("empty?"@[0] == 'e');
        assert("empty?"@[1] == 'm');
        assert("empty?"@[2] == 'p');
        assert("empty?"@[3] == 't');
        assert("empty?"@[4] == 'y');
        assert("empty?"@[5] == '?');
        assert("count"@.len() == 5);
        assert("count"@[0] == 'c');
        assert("count"@[1] == 'o');
        assert("count"@[2] == 'u');
        assert("count"@[3] == 'n');
        assert("count"@[4] == 't');
        assert("="@.len() == 1);
        assert("="@[0] == '=');
        assert("cons"@.len() == 4);
        assert("cons"@[0] == 'c');
        assert("cons"@[1] == 'o');
        assert("cons"@[2] == 'n');
        assert("cons"@[3] == 's');
        assert("concat"@.len() == 6);
        assert("concat"@[0] == 'c');
        assert("concat"@[1] == 'o');
        assert("concat"@[2] == 'n');
        assert("concat"@[3] == 'c');
        assert("concat"@[4] == 'a');
        assert("concat"@[5] == 't');
        assert("nth"@.len() == 3);
        assert("nth"@[0] == 'n');
        assert("nth"@[1] == 't');
        assert("nth"@[2] == 'h');
        assert("first"@.len() == 5);
        assert("first"@[0] == 'f');
        assert("first"@[1] == 'i');
        assert("first"@[2] == 'r');
        assert("first"@[3] == 's');
        assert("first"@[4] == 't');
        assert("rest"@.len() == 4);
        assert("rest"@[0] == 'r');
        assert("rest"@[1] == 'e');
        assert("rest"@[2] == 's');
        assert("rest"@[3] == 't');
        assert("pr-str"@.len() == 6);
        assert("pr-str"@[0] == 'p');
        assert("pr-str"@[1] == 'r');
        assert("pr-str"@[2] == '-');
        assert("pr-str"@[3] == 's');
        assert("pr-str"@[4] == 't');
        assert("pr-str"@[5] == 'r');
        assert("str"@.len() == 3);
        assert("str"@[0] == 's');
        assert("str"@[1] == 't');
        assert("str"@[2] == 'r');
        assert("prn"@.len() == 3);
        assert("prn"@[0] == 'p');
        assert("prn"@[1] == 'r');
        assert("prn"@[2] == 'n');
        assert("println"@.len() == 7);
        assert("println"@[0] == 'p');
        assert("println"@[1] == 'r');
        assert("println"@[2] == 'i');
        assert("println"@[3] == 'n');
        assert("println"@[4] == 't');
        assert("println"@[5] == 'l');
        assert("println"@[6] == 'n');
        assert("read-string"@.len() == 11);
        assert("read-string"@[0] == 'r');
        assert("read-string"@[1] == 'e');
        assert("read-string"@[2] == 'a');
        assert("read-string"@[3] == 'd');
        assert("read-string"@[4] == '-');
        assert("read-string"@[5] == 's');
        assert("read-string"@[6] == 't');
        assert("read-string"@[7] == 'r');
        assert("read-string"@[8] == 'i');
        assert("read-string"@[9] == 'n');
        assert("read-string"@[10] == 'g');
        assert("throw"@.len() == 5);
        assert("throw"@[0] == 't');
        assert("throw"@[1] == 'h');
        assert("throw"@[2] == 'r');
        assert("throw"@[3] == 'o');
        assert("throw"@[4] == 'w');
        assert("atom"@.len() == 4);
        assert("atom"@[0] == 'a');
        assert("atom"@[1] == 't');
        assert("atom"@[2] == 'o');
        assert("atom"@[3] == 'm');
        assert("atom?"@.len() == 5);
        assert("atom?"@[0] == 'a');
        assert("atom?"@[1] == 't');
        assert("atom?"@[2] == 'o');
        assert("atom?"@[3] == 'm');
        assert("atom?"@[4] == '?');
        assert("deref"@.len() == 5);
        assert("deref"@[0] == 'd');
        assert("deref"@[1] == 'e');
        assert("deref"@[2] == 'r');
        assert("deref"@[3] == 'e');
        assert("deref"@[4] == 'f');
        assert("reset!"@.len() == 6);
        assert("reset!"@[0] == 'r');
        assert("reset!"@[1] == 'e');
        assert("reset!"@[2] == 's');
        assert("reset!"@[3] == 'e');
        assert("reset!"@[4] == 't');
        assert("reset!"@[5] == '!');
        assert("swap!"@.len() == 5);
        assert("swap!"@[0] == 's');
        assert("swap!"@[1] == 'w');
        assert("swap!"@[2] == 'a');
        assert("swap!"@[3] == 'p');
        assert("swap!"@[4] == '!');
        assert("symbol?"@.len() == 7);
        assert("symbol?"@[0] == 's');
        assert("symbol?"@[1] == 'y');
        assert("symbol?"@[2] == 'm');
        assert("symbol?"@[3] == 'b');
        assert("symbol?"@[4] == 'o');
        assert("symbol?"@[5] == 'l');
        assert("symbol?"@[6] == '?');
        assert("nil?"@.len() == 4);
        assert("nil?"@[0] == 'n');
        assert("nil?"@[1] == 'i');
        assert("nil?"@[2] == 'l');
        assert("nil?"@[3] == '?');
        assert("true?"@.len() == 5);
        assert("true?"@[0] == 't');
        assert("true?"@[1] == 'r');
        assert("true?"@[2] == 'u');
        assert("true?"@[3] == 'e');
        assert("true?"@[4] == '?');
        assert("false?"@.len() == 6);
        assert("false?"@[0] == 'f');
        assert("false?"@[1] == 'a');
        assert("false?"@[2] == 'l');
        assert("false?"@[3] == 's');
        assert("false?"@[4] == 'e');
        assert("false?"@[5] == '?');
        assert("apply"@.len() == 5);
        assert("apply"@[0] == 'a');
        assert("apply"@[1] == 'p');
        assert("apply"@[2] == 'p');
        assert("apply"@[3] == 'l');
        assert("apply"@[4] == 'y');
        assert("map"@.len() == 3);
        assert("map"@[0] == 'm');
        assert("map"@[1] == 'a');
        assert("map"@[2] == 'p');
        assert("eval"@.len() == 4);
        assert("eval"@[0] == 'e');
        assert("eval"@[1] == 'v');
        assert("eval"@[2] == 'a');
        assert("eval"@[3] == 'l');
    }
    let mut env = match Env::simple_new(None) {
        Ok(e) => e,
        Err(_) => Env { outer: None, data: Vec::new() },
    };
    let ghost g0 = env;
    bind_arithmetic(&mut env);
    let ghost g1 = env;
    bind_sequences(&mut env);
    let ghost g2 = env;
    bind_strings(&mut env);
    let ghost g3 = env;
    bind_state(&mut env);
    let ghost g4 = env;
    env.set("eval", MalExpression::RustClosure(crate::types::Closure));
    let interp = Interp { envs: vec![env], atoms: Vec::new(), out: Vec::new() };
    proof {
        assert(interp.envs@[0] == env);
        assert forall|k: Seq<char>| !(k == "+"@ || k == "-"@ || k == "*"@ || k == "/"@ || k == "<"@ || k == "<="@ || k == ">"@ || k == ">="@ || k == "list"@ || k == "list?"@ || k == "empty?"@ || k == "count"@ || k == "="@ || k == "cons"@ || k == "concat"@ || k == "nth"@ || k == "first"@ || k == "rest"@ || k == "pr-str"@ || k == "str"@ || k == "prn"@ || k == "println"@ || k == "read-string"@ || k == "throw"@ || k == "atom"@ || k == "atom?"@ || k == "deref"@ || k == "reset!"@ || k == "swap!"@ || k == "symbol?"@ || k == "nil?"@ || k == "true?"@ || k == "false?"@ || k == "apply"@ || k == "map"@ || k == "eval"@) implies (#[trigger] interp.envs@[0].spec_lookup(k))
            is None by {
            assert(env.spec_lookup(k) == g4.spec_lookup(k));
            assert(g4.spec_lookup(k) == g3.spec_lookup(k));
            assert(g3.spec_lookup(k) == g2.spec_lookup(k));
            assert(g2.spec_lookup(k) == g1.spec_lookup(k));
            assert(g1.spec_lookup(k) == g0.spec_lookup(k));
            assert(g0.data@.len() == 0);
            assert(g0.spec_lookup(k) is None);
        }
        assert(interp.envs@[0].wf(0, 1, 0)) by {
            assert forall|j: int| 0 <= j < env.data@.len() implies crate::types::wf_val(
                val_view(#[trigger] env.data@[j].1),
                1,
                0,
            ) by {
                if j < g4.data@.len() {
                    assert(env.data@[j] == g4.data@[j]);
                    if j < g3.data@.len() {
                        assert(g4.data@[j] == g3.data@[j]);
                        if j < g2.data@.len() {
                            assert(g3.data@[j] == g2.data@[j]);
                            if j < g1.data@.len() {
                                assert(g2.data@[j] == g1.data@[j]);
                                assert(val_view(g1.data@[j].1) matches ValView::RustFunction(_));
                            } else {
                                assert(val_view(g2.data@[j].1) matches ValView::RustFunction(_));
                            }
                        } else {
                            assert(val_view(g3.data@[j].1) matches ValView::RustFunction(_));
                        }
                    } else {
                        assert(val_view(g4.data@[j].1) matches ValView::RustFunction(_));
                    }
                } else {
                    assert(env.data@[j] == env.data@.last());
                    assert(val_view(env.data@[j].1) == ValView::RustClosure);
                }
            }
        }
    }
    interp
}

/// The exact result of the stateless primitives on already evaluated
/// argument values; `None` where the primitive touches interpreter state or
/// where this specification leaves the case open.
pub open spec fn native_result(f: NativeFn, args: Seq<ValView>) -> Option<
    Result<ValView, ValView>,
> {
    match f {
        NativeFn::Plus => Some(
            if ints_only(args) {
                Ok(ValView::Int(fold_add(args, 0)))
            } else {
                Err(ValView::Str("function called with non-int"@))
            },
        ),
        NativeFn::Times => Some(
            if ints_only(args) {
                Ok(ValView::Int(fold_mul(args, 1)))
            } else {
                Err(ValView::Str("function called with non-int"@))
            },
        ),
        NativeFn::Minus => Some(
            if two_ints(args) {
                Ok(
                    ValView::Int(
                        vstd::wrapping::i32_specs::wrapping_sub(
                            get_int(args[0]),
                            get_int(args[1]),
                        ),
                    ),
                )
            } else {
                Err(ValView::Str("invalid arguments to binary int function"@))
            },
        ),
        NativeFn::IntDivide => Some(
            if two_ints(args) {
                if get_int(args[1]) != 0 {
                    Ok(
                        ValView::Int(
                            vstd::wrapping::i32_specs::signed_crop(
                                trunc_div(get_int(args[0]) as int, get_int(args[1]) as int),
                            ),
                        ),
                    )
                } else {
                    Err(ValView::Str("division by zero"@))
                }
            } else {
                Err(ValView::Str("invalid arguments to binary int function"@))
            },
        ),
        NativeFn::LessThan => Some(cmp_result(CmpOp::Lt, args)),
        NativeFn::LessThanEquals => Some(cmp_result(CmpOp::Le, args)),
        NativeFn::MoreThan => Some(cmp_result(CmpOp::Gt, args)),
        NativeFn::MoreThanEquals => Some(cmp_result(CmpOp::Ge, args)),
        NativeFn::ListFn => Some(Ok(ValView::List(args))),
        NativeFn::ListQ => if args.len() > 0 {
            Some(Ok(ValView::Boolean(args[0] matches ValView::List(_))))
        } else {
            None
        },
        NativeFn::EmptyQ => if args.len() > 0 {
            Some(
                Ok(
                    ValView::Boolean(
                        match args[0] {
                            ValView::List(l) => l.len() == 0,
                            ValView::Vector(l) => l.len() == 0,
                            _ => false,
                        },
                    ),
                ),
            )
        } else {
            None
        },
        NativeFn::Count => if args.len() > 0 {
            Some(
                match args[0] {
                    ValView::List(l) => Ok(ValView::Int(l.len() as i32)),
                    ValView::Vector(l) => Ok(ValView::Int(l.len() as i32)),
                    ValView::Nil => Ok(ValView::Int(0)),
                    _ => Err(ValView::Str("count requires a list, vector, or nil argument"@)),
                },
            )
        } else {
            None
        },
        NativeFn::Equal => if args.len() >= 2 {
            Some(Ok(ValView::Boolean(crate::types::val_eq(args[0], args[1]))))
        } else {
            None
        },
        NativeFn::PrStrFn => Some(
            Ok(ValView::Str(crate::printer::join_with(args, true, " "@))),
        ),
        NativeFn::StrFn => Some(Ok(ValView::Str(crate::printer::join_with(args, false, ""@)))),
        NativeFn::ConsFn => if args.len() >= 2 {
            Some(
                match args[1] {
                    ValView::List(l) => Ok(ValView::List(seq![args[0]] + l)),
                    ValView::Vector(l) => Ok(ValView::List(seq![args[0]] + l)),
                    _ => Err(
                        ValView::Str(
                            "cons requires two arguments: second must be a list or vector"@,
                        ),
                    ),
                },
            )
        } else {
            None
        },
        NativeFn::ConcatFn => if all_seqs(args) {
            Some(Ok(ValView::List(concat_spec(args))))
        } else {
            None
        },
        NativeFn::Nth => if args.len() >= 2 {
            match (seq_of_val(args[0]), args[1]) {
                (Some(l), ValView::Int(i)) => if 0 <= i && (i as int) < l.len() && !(l[i as int]
                    matches ValView::Tco(..)) {
                    Some(Ok(l[i as int]))
                } else if !(0 <= i && (i as int) < l.len()) {
                    Some(Err(ValView::Str("nth called with out of range index"@)))
                } else {
                    None
                },
                _ => None,
            }
        } else {
            None
        },
        NativeFn::FirstFn => if args.len() > 0 {
            match seq_of_val(args[0]) {
                Some(l) => if l.len() == 0 {
                    Some(Ok(ValView::Nil))
                } else if !(l[0] matches ValView::Tco(..)) {
                    Some(Ok(l[0]))
                } else {
                    None
                },
                None => if args[0] == ValView::Nil {
                    Some(Ok(ValView::Nil))
                } else {
                    None
                },
            }
        } else {
            None
        },
        NativeFn::RestFn => if args.len() > 0 {
            match seq_of_val(args[0]) {
                Some(l) => Some(
                    Ok(
                        ValView::List(
                            if l.len() > 0 {
                                l.skip(1)
                            } else {
                                Seq::empty()
                            },
                        ),
                    ),
                ),
                None => if args[0] == ValView::Nil {
                    Some(Ok(ValView::List(Seq::empty())))
                } else {
                    None
                },
            }
        } else {
            None
        },
        NativeFn::Throw => Some(
            Err(
                if args.len() > 0 {
                    args[0]
                } else {
                    ValView::Str("throw requires an argument"@)
                },
            ),
        ),
        NativeFn::SymbolQ => if args.len() > 0 {
            Some(Ok(ValView::Boolean(args[0] matches ValView::Symbol(_))))
        } else {
            None
        },
        NativeFn::NilQ => if args.len() > 0 {
            Some(Ok(ValView::Boolean(args[0] matches ValView::Nil)))
        } else {
            None
        },
        NativeFn::TrueQ => if args.len() > 0 {
            Some(Ok(ValView::Boolean(args[0] == ValView::Boolean(true))))
        } else {
            None
        },
        NativeFn::FalseQ => if args.len() > 0 {
            Some(Ok(ValView::Boolean(args[0] == ValView::Boolean(false))))
        } else {
            None
        },
        NativeFn::AtomQ => if args.len() > 0 {
            Some(Ok(ValView::Boolean(args[0] matches ValView::Atom(_))))
        } else {
            None
        },
        NativeFn::ReadStringFn => if args.len() > 0 {
            match args[0] {
                ValView::Str(src) => match crate::reader::spec_read_str(src) {
                    Ok(v) => if !(v matches ValView::Tco(..)) {
                        Some(Ok(v))
                    } else {
                        None
                    },
                    Err(m) => Some(Err(ValView::Str(m))),
                },
                _ => Some(Err(ValView::Str("read-string requires a string argument"@))),
            }
        } else {
            Some(Err(ValView::Str("read-string requires a string argument"@)))
        },
        _ => None,
    }
}

/// The comparison primitives' result on already evaluated values.
pub open spec fn cmp_result(op: CmpOp, args: Seq<ValView>) -> Result<ValView, ValView> {
    if two_ints(args) {
        Ok(ValView::Boolean(cmp_spec(op, get_int(args[0]) as int, get_int(args[1]) as int)))
    } else {
        Err(ValView::Str("invalid arguments to binary int function"@))
    }
}

} // verus!
