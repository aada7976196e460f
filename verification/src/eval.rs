//! The evaluator: a trampoline loop over the special forms and application,
//! with macro expansion run each iteration and the quasiquote rewrite as a
//! pure function. Tail positions yield a `Tco` continuation that the loop
//! consumes instead of recursing, so self-tail-recursion runs in constant
//! stack.
//!
//! Evaluation is bounded two ways so that every run terminates: nested
//! (non-tail) evaluation carries a fuel that each inner evaluation
//! decrements, and each trampoline or expansion loop has a large step
//! budget. Exhausting either is an error, not a fault.
use vstd::prelude::*;

use crate::types::MalExpression;
use crate::types::ValView;
use crate::types::val_view;
use crate::types::seq_view;
use crate::types::seq_view_props;
use crate::types::lemma_seq_view_push;
use crate::types::lemma_seq_view_skip;
use crate::types::wf_val;
use crate::types::str_eq;
use crate::types::vec_suffix;
use crate::env::Env;
use crate::env::Interp;
use crate::env::interp_wf;
use crate::natives::EvalRet;
use crate::reader::MalRet;
use crate::reader::read_str;
use crate::printer::pr_str;

verus! {

/// How many nested (non-tail) evaluations may be outstanding at once.
pub const DEFAULT_FUEL: u32 = 8192;

/// How many iterations one trampoline or macro-expansion loop may run.
pub const STEP_BUDGET: u64 = 100000000;

/// The size of a value tree, for termination of the quasiquote rewrite.
pub open spec fn val_size(v: ValView) -> nat
    decreases v,
{
    match v {
        ValView::List(l) => 1 + seq_size(l),
        ValView::Vector(l) => 1 + seq_size(l),
        ValView::HashTable(l) => 1 + seq_size(l),
        _ => 1,
    }
}

/// The total size of a sequence of value trees.
pub open spec fn seq_size(l: Seq<ValView>) -> nat
    decreases l,
{
    if l.len() == 0 {
        0
    } else {
        seq_size(l.drop_last()) + val_size(l.last())
    }
}

/// Every value has positive size.
pub proof fn lemma_val_size_pos(v: ValView)
    ensures
        val_size(v) >= 1,
{
}

/// A sequence's size splits as its first element plus the rest.
pub proof fn lemma_seq_size_decomp(l: Seq<ValView>)
    requires
        l.len() > 0,
    ensures
        seq_size(l) == val_size(l[0]) + seq_size(l.skip(1)),
    decreases l.len(),
{
    if l.len() == 1 {
        assert(l.drop_last().len() == 0);
        assert(l.skip(1).len() == 0);
        assert(l.last() == l[0]);
        assert(seq_size(l) == seq_size(l.drop_last()) + val_size(l.last()));
        assert(seq_size(l.drop_last()) == 0);
        assert(seq_size(l.skip(1)) == 0);
    } else {
        lemma_seq_size_decomp(l.drop_last());
        assert(l.drop_last()[0] == l[0]);
        assert(l.skip(1).drop_last() =~= l.drop_last().skip(1));
        assert(l.skip(1).last() == l.last());
        assert(seq_size(l) == seq_size(l.drop_last()) + val_size(l.last()));
        assert(seq_size(l.skip(1)) == seq_size(l.skip(1).drop_last()) + val_size(l.skip(1).last()));
    }
}

/// An element weighs no more than its whole sequence.
pub proof fn lemma_seq_size_ge_elem(l: Seq<ValView>, i: int)
    requires
        0 <= i < l.len(),
    ensures
        val_size(l[i]) <= seq_size(l),
    decreases l.len(),
{
    lemma_seq_size_decomp(l);
    if i == 0 {
        lemma_seq_size_nonneg(l.skip(1));
    } else {
        lemma_seq_size_ge_elem(l.skip(1), i - 1);
        lemma_val_size_pos(l[0]);
        assert(l.skip(1)[i - 1] == l[i]);
    }
}

/// Sizes are nonnegative.
pub proof fn lemma_seq_size_nonneg(l: Seq<ValView>)
    ensures
        seq_size(l) >= 0,
{
}

/// The quasiquote rewrite of one form, per the templating rules: a non-list
/// or empty list is quoted whole; `(unquote x)` becomes `x`; a list whose
/// head is a `(splice-unquote x)` form becomes `(concat x <rest>)`; any
/// other list becomes `(cons <head> <tail>)`.
pub open spec fn qq_spec(form: ValView) -> Result<ValView, Seq<char>>
    decreases val_size(form),
{
    match form {
        ValView::List(l) => if l.len() == 0 {
            Ok(ValView::List(seq![ValView::Symbol("quote"@), form]))
        } else {
            if l[0] == ValView::Symbol("unquote"@) {
                if l.len() >= 2 {
                    Ok(l[1])
                } else {
                    Err("unquote requires an argument"@)
                }
            } else {
                if is_splice_head(l[0]) {
                    match splice_arg(l[0]) {
                        Some(sa) => {
                            proof {
                                lemma_seq_size_decomp(l);
                                lemma_val_size_pos(l[0]);
                            }
                            match qq_spec(ValView::List(l.skip(1))) {
                                Ok(rest) => Ok(
                                    ValView::List(
                                        seq![ValView::Symbol("concat"@), sa, rest],
                                    ),
                                ),
                                Err(m) => Err(m),
                            }
                        },
                        None => Err("splice-unquote requires an argument"@),
                    }
                } else {
                    proof {
                        lemma_seq_size_decomp(l);
                        lemma_seq_size_ge_elem(l, 0);
                        lemma_seq_size_nonneg(l.skip(1));
                        lemma_val_size_pos(l[0]);
                    }
                    match qq_spec(l[0]) {
                        Ok(qh) => match qq_spec(ValView::List(l.skip(1))) {
                            Ok(qt) => Ok(
                                ValView::List(seq![ValView::Symbol("cons"@), qh, qt]),
                            ),
                            Err(m) => Err(m),
                        },
                        Err(m) => Err(m),
                    }
                }
            }
        },
        _ => Ok(ValView::List(seq![ValView::Symbol("quote"@), form])),
    }
}

/// Whether a value is a nonempty list headed by the `splice-unquote` symbol.
pub open spec fn is_splice_head(v: ValView) -> bool {
    v matches ValView::List(inner) && inner.len() >= 1 && inner[0] == ValView::Symbol(
        "splice-unquote"@,
    )
}

/// The argument of a `(splice-unquote x)` form, if present.
pub open spec fn splice_arg(v: ValView) -> Option<ValView> {
    match v {
        ValView::List(inner) => if inner.len() >= 2 {
            Some(inner[1])
        } else {
            None
        },
        _ => None,
    }
}

/// Read one line of input as a form.
#[allow(non_snake_case)]
pub fn READ(input: &str) -> (r: MalRet)
    ensures
        match r {
            Ok(v) => crate::reader::spec_read_str(input@) == Ok::<_, Seq<char>>(val_view(v))
                && wf_val(val_view(v), 0, 0),
            Err(m) => crate::reader::spec_read_str(input@) == Err::<ValView, _>(m@),
        },
{
    read_str(input)
}

/// Render an evaluation result: a value readably, an error payload plainly.
#[allow(non_snake_case)]
pub fn PRINT(form: EvalRet) -> (r: Result<String, String>)
    ensures
        match r {
            Ok(s) => form matches Ok(v) && s@ == crate::printer::pr_spec(val_view(v), true),
            Err(m) => form matches Err(p) && m@ == crate::printer::pr_spec(val_view(p), false),
        },
{
    match form {
        Ok(v) => Ok(pr_str(&v, true)),
        Err(p) => Err(pr_str(&p, false)),
    }
}

/// Return the quoted argument unevaluated.
pub fn eval_quote(forms: &Vec<MalExpression>, _env: usize) -> (r: EvalRet)
    ensures
        match r {
            Ok(v) => forms@.len() > 0 && val_view(v) == seq_view(forms@)[0],
            Err(p) => forms@.len() == 0 && val_view(p) == ValView::Str(
                "quote requires an argument"@,
            ),
        },
{
    proof {
        seq_view_props(forms@);
    }
    if forms.len() > 0 {
        Ok(forms[0].clone())
    } else {
        Err(MalExpression::String("quote requires an argument".to_owned()))
    }
}

/// The quasiquote rewrite of the first form: returns the executable
/// expression that `qq_spec` prescribes, to be evaluated by the caller.
pub fn eval_quasiquote_inner(forms: &Vec<MalExpression>, _env: usize) -> (r: EvalRet)
    ensures
        match r {
            Ok(v) => if forms@.len() == 0 {
                val_view(v) == ValView::List(Seq::empty())
            } else {
                qq_spec(seq_view(forms@)[0]) == Ok::<_, Seq<char>>(val_view(v))
            },
            Err(p) => forms@.len() > 0 && (match qq_spec(seq_view(forms@)[0]) {
                Ok(_) => false,
                Err(m) => val_view(p) == ValView::Str(m),
            }),
        },
{
    proof {
        seq_view_props(forms@);
    }
    if forms.len() == 0 {
        let empty_vec: Vec<MalExpression> = Vec::new();
        proof {
            assert(seq_view(empty_vec@) =~= Seq::<ValView>::empty());
        }
        return Ok(MalExpression::List(empty_vec));
    }
    qq_rewrite(&forms[0])
}

/// The quasiquote rewrite of one form; the executable mirror of `qq_spec`.
pub fn qq_rewrite(form: &MalExpression) -> (r: EvalRet)
    ensures
        match r {
            Ok(v) => qq_spec(val_view(*form)) == Ok::<_, Seq<char>>(val_view(v)),
            Err(p) => match qq_spec(val_view(*form)) {
                Ok(_) => false,
                Err(m) => val_view(p) == ValView::Str(m),
            },
        },
    decreases val_size(val_view(*form)), 1int,
{
    let is_nonempty_list = match form {
        MalExpression::List(l) => l.len() > 0,
        _ => false,
    };
    if !is_nonempty_list {
        proof {
            crate::types::lemma_view_cases(*form);
            match form {
                MalExpression::List(l2) => {
                    seq_view_props(l2@);
                },
                _ => {},
            }
        }
        let mut out: Vec<MalExpression> = Vec::new();
        out.push(MalExpression::Symbol("quote".to_owned()));
        out.push(form.clone());
        proof {
            seq_view_props(out@);
            assert(seq_view(out@)[0] == val_view(out@[0]));
            assert(seq_view(out@)[1] == val_view(out@[1]));
            assert(seq_view(out@) =~= seq![ValView::Symbol("quote"@), val_view(*form)]);
        }
        return Ok(MalExpression::List(out));
    }
    match form {
        MalExpression::List(l) => {
            proof {
                seq_view_props(l@);
            }
            let is_unquote = match &l[0] {
                MalExpression::Symbol(s) => str_eq(s.as_str(), "unquote"),
                _ => false,
            };
            proof {
                crate::types::lemma_view_cases(l@[0]);
            }
            if is_unquote {
                if l.len() >= 2 {
                    return Ok(l[1].clone());
                } else {
                    return Err(
                        MalExpression::String("unquote requires an argument".to_owned()),
                    );
                }
            }
            let mut splice: bool = false;
            match &l[0] {
                MalExpression::List(inner) => {
                    proof {
                        seq_view_props(inner@);
                    }
                    if inner.len() >= 1 {
                        match &inner[0] {
                            MalExpression::Symbol(s) => {
                                proof {
                                    crate::types::lemma_view_cases(inner@[0]);
                                }
                                if str_eq(s.as_str(), "splice-unquote") {
                                    splice = true;
                                }
                            },
                            _ => {},
                        }
                    }
                },
                _ => {},
            }
            proof {
                lemma_seq_size_decomp(seq_view(l@));
                lemma_seq_size_ge_elem(seq_view(l@), 0);
                lemma_seq_size_nonneg(seq_view(l@).skip(1));
                lemma_val_size_pos(seq_view(l@)[0]);
            }
            if splice {
                match &l[0] {
                    MalExpression::List(inner) => {
                        proof {
                            seq_view_props(inner@);
                        }
                        if inner.len() >= 2 {
                            let rest_vec = vec_suffix(l, 1);
                            proof {
                                lemma_seq_view_skip(l@, 1);
                            }
                            let rest_list = MalExpression::List(rest_vec);
                            match qq_rewrite_list(&rest_list) {
                                Ok(qrest) => {
                                    let mut out: Vec<MalExpression> = Vec::new();
                                    let ghost o0 = out@;
                                    out.push(MalExpression::Symbol("concat".to_owned()));
                                    let ghost o1 = out@;
                                    out.push(inner[1].clone());
                                    let ghost o2 = out@;
                                    out.push(qrest);
                                    proof {
                                        seq_view_props(out@);
                                        assert(seq_view(out@)[0] == val_view(out@[0]));
                                        assert(seq_view(out@)[1] == val_view(out@[1]));
                                        assert(seq_view(out@)[2] == val_view(out@[2]));
                                        match qq_spec(ValView::List(seq_view(l@).skip(1))) {
                                            Ok(qr) => {
                                                assert(seq_view(out@) =~= seq![
                                                    ValView::Symbol("concat"@),
                                                    seq_view(inner@)[1],
                                                    qr,
                                                ]);
                                            },
                                            Err(_) => {},
                                        }
                                        assert(splice_arg(seq_view(l@)[0]) == Some(
                                            seq_view(inner@)[1],
                                        ));
                                    }
                                    return Ok(MalExpression::List(out));
                                },
                                Err(e) => {
                                    return Err(e);
                                },
                            }
                        } else {
                            return Err(
                                MalExpression::String(
                                    "splice-unquote requires an argument".to_owned(),
                                ),
                            );
                        }
                    },
                    _ => {
                        return Err(
                            MalExpression::String(
                                "splice-unquote requires an argument".to_owned(),
                            ),
                        );
                    },
                }
            }
            // The general cons case.
            match qq_rewrite(&l[0]) {
                Ok(qh) => {
                    let rest_vec = vec_suffix(l, 1);
                    proof {
                        lemma_seq_view_skip(l@, 1);
                    }
                    let rest_list = MalExpression::List(rest_vec);
                    match qq_rewrite_list(&rest_list) {
                        Ok(qt) => {
                            let mut out: Vec<MalExpression> = Vec::new();
                            out.push(MalExpression::Symbol("cons".to_owned()));
                            out.push(qh);
                            out.push(qt);
                            proof {
                                seq_view_props(out@);
                                assert(seq_view(out@)[0] == val_view(out@[0]));
                                assert(seq_view(out@)[1] == val_view(out@[1]));
                                assert(seq_view(out@)[2] == val_view(out@[2]));
                                match (qq_spec(seq_view(l@)[0]), qq_spec(
                                    ValView::List(seq_view(l@).skip(1)),
                                )) {
                                    (Ok(qhv), Ok(qtv)) => {
                                        assert(seq_view(out@) =~= seq![
                                            ValView::Symbol("cons"@),
                                            qhv,
                                            qtv,
                                        ]);
                                    },
                                    _ => {},
                                }
                            }
                            Ok(MalExpression::List(out))
                        },
                        Err(e) => Err(e),
                    }
                },
                Err(e) => Err(e),
            }
        },
        _ => {
            proof {
                assert(false);
            }
            Err(MalExpression::String("quote requires an argument".to_owned()))
        },
    }
}

/// The rewrite of an already-assembled rest list, at a measure between a
/// list and its elements.
fn qq_rewrite_list(form: &MalExpression) -> (r: EvalRet)
    requires
        form matches MalExpression::List(_),
    ensures
        match r {
            Ok(v) => qq_spec(val_view(*form)) == Ok::<_, Seq<char>>(val_view(v)),
            Err(p) => match qq_spec(val_view(*form)) {
                Ok(_) => false,
                Err(m) => val_view(p) == ValView::Str(m),
            },
        },
    decreases val_size(val_view(*form)), 2int,
{
    qq_rewrite(form)
}

/// A value that evaluates to itself: neither a symbol nor a sequence form
/// nor the internal continuation.
pub open spec fn is_selfeval(v: ValView) -> bool {
    !((v matches ValView::Symbol(_)) || (v matches ValView::List(_)) || (v
        matches ValView::Vector(_)) || (v matches ValView::HashTable(_)) || (v
        matches ValView::Tco(..)))
}

/// The name a parameter symbol carries.
pub open spec fn get_sym(v: ValView) -> Seq<char> {
    match v {
        ValView::Symbol(x) => x,
        _ => Seq::empty(),
    }
}

/// The names of a closure's parameter symbols, elementwise.
pub open spec fn sym_names(s: Seq<ValView>) -> Seq<Seq<char>> {
    Seq::new(s.len(), |i: int| get_sym(s[i]))
}

/// Whether every parameter of a closure is a symbol.
pub open spec fn all_params_symbols(s: Seq<ValView>) -> bool {
    forall|i: int| 0 <= i < s.len() ==> (#[trigger] s[i]) matches ValView::Symbol(_)
}

/// Whether a form is a macro call: a nonempty list whose head symbol
/// resolves in the environment to a closure marked as a macro.
pub open spec fn macro_headed(v: ValView, envs: Seq<Env>, env: int) -> bool {
    match v {
        ValView::List(l) => l.len() > 0 && (match l[0] {
            ValView::Symbol(nm) => match crate::env::spec_env_get(envs, env, nm) {
                Some(f) => match f {
                    ValView::FnFunction { is_macro, .. } => is_macro,
                    _ => false,
                },
                None => false,
            },
            _ => false,
        }),
        _ => false,
    }
}

/// Whether every element of a sequence evaluates to itself.
pub open spec fn all_selfeval(es: Seq<ValView>) -> bool {
    forall|i: int| 0 <= i < es.len() ==> is_selfeval(#[trigger] es[i])
}

/// The value an element reaches in one step without touching the state: a
/// self-evaluating value is itself, a symbol is its binding; `None` where
/// one step does not settle it.
pub open spec fn one_step_elem(envs: Seq<Env>, env: int, x: ValView) -> Option<ValView> {
    if is_selfeval(x) {
        Some(x)
    } else {
        match x {
            ValView::Symbol(nm) => match crate::env::spec_env_get(envs, env, nm) {
                Some(v) => if v matches ValView::Tco(..) {
                    None
                } else {
                    Some(v)
                },
                None => None,
            },
            _ => None,
        }
    }
}

/// Whether one step settles every element of a sequence.
pub open spec fn all_one_step(envs: Seq<Env>, env: int, es: Seq<ValView>) -> bool {
    forall|i: int| 0 <= i < es.len() ==> (#[trigger] one_step_elem(envs, env, es[i])) is Some
}

/// The elementwise one-step values of a sequence.
pub open spec fn map_one_step(envs: Seq<Env>, env: int, es: Seq<ValView>) -> Seq<ValView> {
    Seq::new(
        es.len(),
        |i: int|
            match one_step_elem(envs, env, es[i]) {
                Some(v) => v,
                None => es[i],
            },
    )
}

/// An application form settled by the primitive dispatch in one round: its
/// head is a non-special symbol bound to a primitive, and its arguments all
/// evaluate to themselves.
pub open spec fn direct_native_call(envs: Seq<Env>, env: int, v: ValView) -> Option<
    (crate::types::NativeFn, Seq<ValView>),
> {
    match v {
        ValView::List(es) => if es.len() >= 1 {
            match es[0] {
                ValView::Symbol(nm) => if !is_special_name(nm) && all_one_step(
                    envs,
                    env,
                    es.skip(1),
                ) {
                    match crate::env::spec_env_get(envs, env, nm) {
                        Some(f) => match f {
                            ValView::RustFunction(g) => Some(
                                (g, map_one_step(envs, env, es.skip(1))),
                            ),
                            _ => None,
                        },
                        None => None,
                    }
                } else {
                    None
                },
                _ => None,
            }
        } else {
            None
        },
        _ => None,
    }
}


/// The characters of the special-form names, so they are provably distinct
/// from one another and from other symbols.
pub proof fn lemma_special_names()
    ensures
        "def!"@.len() == 4,
        "def!"@[0] == 'd',
        "def!"@[1] == 'e',
        "def!"@[2] == 'f',
        "def!"@[3] == '!',
        "defmacro!"@.len() == 9,
        "defmacro!"@[0] == 'd',
        "defmacro!"@[1] == 'e',
        "defmacro!"@[2] == 'f',
        "defmacro!"@[3] == 'm',
        "defmacro!"@[4] == 'a',
        "defmacro!"@[5] == 'c',
        "defmacro!"@[6] == 'r',
        "defmacro!"@[7] == 'o',
        "defmacro!"@[8] == '!',
        "let*"@.len() == 4,
        "let*"@[0] == 'l',
        "let*"@[1] == 'e',
        "let*"@[2] == 't',
        "let*"@[3] == '*',
        "do"@.len() == 2,
        "do"@[0] == 'd',
        "do"@[1] == 'o',
        "if"@.len() == 2,
        "if"@[0] == 'i',
        "if"@[1] == 'f',
        "fn*"@.len() == 3,
        "fn*"@[0] == 'f',
        "fn*"@[1] == 'n',
        "fn*"@[2] == '*',
        "quote"@.len() == 5,
        "quote"@[0] == 'q',
        "quote"@[1] == 'u',
        "quote"@[2] == 'o',
        "quote"@[3] == 't',
        "quote"@[4] == 'e',
        "quasiquote"@.len() == 10,
        "quasiquote"@[0] == 'q',
        "quasiquote"@[1] == 'u',
        "quasiquote"@[2] == 'a',
        "quasiquote"@[3] == 's',
        "quasiquote"@[4] == 'i',
        "quasiquote"@[5] == 'q',
        "quasiquote"@[6] == 'u',
        "quasiquote"@[7] == 'o',
        "quasiquote"@[8] == 't',
        "quasiquote"@[9] == 'e',
        "try*"@.len() == 4,
        "try*"@[0] == 't',
        "try*"@[1] == 'r',
        "try*"@[2] == 'y',
        "try*"@[3] == '*',
        "macroexpand"@.len() == 11,
        "macroexpand"@[0] == 'm',
        "macroexpand"@[1] == 'a',
        "macroexpand"@[2] == 'c',
        "macroexpand"@[3] == 'r',
        "macroexpand"@[4] == 'o',
        "macroexpand"@[5] == 'e',
        "macroexpand"@[6] == 'x',
        "macroexpand"@[7] == 'p',
        "macroexpand"@[8] == 'a',
        "macroexpand"@[9] == 'n',
        "macroexpand"@[10] == 'd',
{
    reveal_strlit("def!");
    reveal_strlit("defmacro!");
    reveal_strlit("let*");
    reveal_strlit("do");
    reveal_strlit("if");
    reveal_strlit("fn*");
    reveal_strlit("quote");
    reveal_strlit("quasiquote");
    reveal_strlit("try*");
    reveal_strlit("macroexpand");
}

/// The names the evaluator treats as special forms.
pub open spec fn is_special_name(nm: Seq<char>) -> bool {
    ||| nm == "def!"@
    ||| nm == "defmacro!"@
    ||| nm == "let*"@
    ||| nm == "do"@
    ||| nm == "if"@
    ||| nm == "fn*"@
    ||| nm == "quote"@
    ||| nm == "quasiquote"@
    ||| nm == "try*"@
    ||| nm == "macroexpand"@
}

/// An application form whose elements all evaluate to themselves and whose
/// head is not callable: such a form must evaluate to an error.
pub open spec fn concrete_noncallable_call(v: ValView) -> bool {
    match v {
        ValView::List(es) => es.len() >= 1 && all_selfeval(es) && !(es[0]
            matches ValView::FnFunction { .. }) && !(es[0] matches ValView::RustFunction(_))
            && !(es[0] matches ValView::RustClosure),
        _ => false,
    }
}

/// The state only ever grows and stays well formed.
pub open spec fn evolves(a: Interp, b: Interp) -> bool {
    &&& interp_wf(b)
    &&& a.envs@.len() <= b.envs@.len()
    &&& a.atoms@.len() <= b.atoms@.len()
}

/// Both outcomes carry values that are well formed in the final state.
pub open spec fn ret_wf(r: EvalRet, it: Interp) -> bool {
    match r {
        Ok(v) => wf_val(val_view(v), it.nenvs(), it.natoms()),
        Err(p) => wf_val(val_view(p), it.nenvs(), it.natoms()),
    }
}

/// A successful result is a proper value, never the internal tail-call
/// marker: `Tco` must not escape the evaluator's loop.
pub open spec fn no_tco_ok(r: EvalRet) -> bool {
    r matches Ok(v) ==> !(val_view(v) matches ValView::Tco(..))
}

/// Whether every element of a value vector is well formed.
pub open spec fn args_wf(args: Seq<MalExpression>, it: Interp) -> bool {
    forall|j: int| 0 <= j < args.len() ==> wf_val(val_view(#[trigger] args[j]), it.nenvs(), it.natoms())
}

/// The outer-link condition `Env::get` asks for follows from state
/// well-formedness.
pub proof fn lemma_arena_outer(it: Interp)
    requires
        interp_wf(it),
    ensures
        forall|j: int|
            0 <= j < it.envs@.len() ==> (#[trigger] it.envs@[j].outer matches Some(o) ==> o < j),
{
    assert forall|j: int|
        0 <= j < it.envs@.len() implies (#[trigger] it.envs@[j].outer matches Some(o) ==> o
        < j) by {
        assert(it.envs@[j].wf(j as nat, it.nenvs(), it.natoms()));
    }
}


/// The elements of the rest of a well-formed list are well formed.
pub proof fn lemma_rest_wf(forms: Seq<MalExpression>, rest: Seq<MalExpression>, ne: nat, na: nat)
    requires
        wf_val(ValView::List(seq_view(forms)), ne, na),
        seq_view(rest) == seq_view(forms).skip(1),
        forms.len() >= 1,
    ensures
        forall|j: int| 0 <= j < rest.len() ==> wf_val(val_view(#[trigger] rest[j]), ne, na),
{
    seq_view_props(rest);
    seq_view_props(forms);
    crate::types::lemma_wf_seq(seq_view(forms), ne, na);
    assert forall|j: int| 0 <= j < rest.len() implies wf_val(
        val_view(#[trigger] rest[j]),
        ne,
        na,
    ) by {
        assert(val_view(rest[j]) == seq_view(rest)[j]);
        assert(seq_view(rest).len() == seq_view(forms).skip(1).len());
        assert(seq_view(forms).skip(1)[j] == seq_view(forms)[j + 1]);
        assert(wf_val(seq_view(forms)[j + 1], ne, na));
    }
}

/// Refuse a result whose value is the internal tail-call marker.
fn ensure_value(r: EvalRet) -> (r2: EvalRet)
    ensures
        no_tco_ok(r2),
        match r2 {
            Ok(v) => r matches Ok(v2) && v == v2,
            Err(p) => (r matches Err(p2) && p == p2) || val_view(p) == ValView::Str(
                "internal continuation escaped"@,
            ),
        },
        (match r {
            Ok(v0) => !(val_view(v0) matches ValView::Tco(..)),
            Err(_) => true,
        }) ==> r2 == r,
{
    match r {
        Ok(v) => {
            proof {
                crate::types::lemma_view_cases(v);
            }
            if let MalExpression::Tco(_, _) = &v {
                Err(MalExpression::String("internal continuation escaped".to_owned()))
            } else {
                Ok(v)
            }
        },
        Err(p) => Err(p),
    }
}

/// Evaluate one form in the given environment, driving the trampoline until
/// it yields a proper value.
#[allow(non_snake_case)]
#[verifier::loop_isolation(false)]
#[verifier::rlimit(100)]
pub fn EVAL(interp: &mut Interp, ast0: MalExpression, env0: usize, fuel: u32) -> (r: EvalRet)
    requires
        interp_wf(*old(interp)),
        env0 < old(interp).envs@.len(),
        wf_val(val_view(ast0), old(interp).nenvs(), old(interp).natoms()),
    ensures
        evolves(*old(interp), *final(interp)),
        ret_wf(r, *final(interp)),
        no_tco_ok(r),
        fuel >= 2 && is_selfeval(val_view(ast0)) ==> (*final(interp) == *old(interp) && (r
            matches Ok(v) && val_view(v) == val_view(ast0))),
        fuel >= 2 && val_view(ast0) == ValView::List(Seq::empty()) ==> (*final(interp) == *old(
            interp,
        ) && (r matches Ok(v) && val_view(v) == val_view(ast0))),
        fuel >= 4 && concrete_noncallable_call(val_view(ast0)) ==> r is Err,
        fuel >= 3 && val_view(ast0) == ValView::List(seq![ValView::Symbol("do"@)])
            && !macro_headed(val_view(ast0), old(interp).envs@, env0 as int) ==> (r matches Ok(v)
            && val_view(v) == ValView::Nil && *final(interp) == *old(interp)),
        fuel >= 7 ==> (match val_view(ast0) {
            ValView::List(es) => (es.len() == 3 && es[0] == ValView::Symbol("try*"@)
                && !catch_clause_bad(es[2]) && !macro_headed(
                val_view(ast0),
                old(interp).envs@,
                env0 as int,
            )) ==> ((match one_step_elem(old(interp).envs@, env0 as int, es[1]) {
                Some(w) => r matches Ok(v) && val_view(v) == w,
                None => true,
            }) && (match direct_native_call(old(interp).envs@, env0 as int, es[1]) {
                Some((g, argvs)) => (match crate::natives::native_result(g, argvs) {
                    Some(res) => (match res {
                        Ok(_) => true,
                        Err(sp) => !(sp matches ValView::Tco(..)) ==> (match es[2] {
                            ValView::List(cl) => (match (cl[1], cl[2]) {
                                (ValView::Symbol(h), body) => if is_selfeval(body) {
                                    r matches Ok(v) && val_view(v) == body
                                } else {
                                    match body {
                                        ValView::Symbol(bn) => if bn == h {
                                            r matches Ok(v) && val_view(v) == sp
                                        } else {
                                            match crate::env::spec_env_get(
                                                old(interp).envs@,
                                                env0 as int,
                                                bn,
                                            ) {
                                                Some(w) => if w matches ValView::Tco(..) {
                                                    r is Err
                                                } else {
                                                    r matches Ok(v) && val_view(v) == w
                                                },
                                                None => r is Err,
                                            }
                                        },
                                        _ => true,
                                    }
                                },
                                _ => true,
                            }),
                            _ => true,
                        }),
                    }),
                    None => true,
                }),
                None => true,
            })),
            _ => true,
        }),
        fuel >= 5 ==> (match direct_native_call(old(interp).envs@, env0 as int, val_view(ast0)) {
            Some((g, argvs)) => (g == crate::types::NativeFn::DerefFn && argvs.len() > 0) ==> (
            match argvs[0] {
                ValView::Atom(a) => (a < old(interp).atoms@.len() && !(val_view(
                    old(interp).atoms@[a as int],
                ) matches ValView::Tco(..))) ==> (r matches Ok(v) && val_view(v) == val_view(
                    old(interp).atoms@[a as int],
                ) && *final(interp) == *old(interp)),
                _ => true,
            }),
            None => true,
        }),
        fuel >= 5 ==> (match direct_native_call(old(interp).envs@, env0 as int, val_view(ast0)) {
            Some((g, argvs)) => (match crate::natives::native_result(g, argvs) {
                Some(res) => *final(interp) == *old(interp) && (match res {
                    Ok(sv) => r matches Ok(v) && val_view(v) == sv,
                    Err(sp) => r matches Err(p) && val_view(p) == sp,
                }),
                None => true,
            }),
            None => true,
        }),
        fuel >= 2 ==> (match val_view(ast0) {
            ValView::Symbol(nm) => *final(interp) == *old(interp) && (
            match crate::env::spec_env_get(old(interp).envs@, env0 as int, nm) {
                Some(v) => if v matches ValView::Tco(..) {
                    r is Err
                } else {
                    r matches Ok(rv) && val_view(rv) == v
                },
                None => r matches Err(p) && val_view(p) == ValView::Str(
                    "'"@ + nm + "' not found"@,
                ),
            }),
            _ => true,
        }),
    decreases fuel, 10int,
{
    if fuel == 0 {
        return Err(MalExpression::String("evaluation depth limit exceeded".to_owned()));
    }
    let ghost ast0g = ast0;
    let mut ast = ast0;
    let mut loop_env = env0;
    let mut steps: u64 = STEP_BUDGET;
    loop
        invariant
            interp_wf(*interp),
            old(interp).envs@.len() <= interp.envs@.len(),
            old(interp).atoms@.len() <= interp.atoms@.len(),
            loop_env < interp.envs@.len(),
            wf_val(val_view(ast), interp.nenvs(), interp.natoms()),
            fuel >= 1,
            fuel >= 2 && (is_selfeval(val_view(ast0g)) || (val_view(ast0g)
                matches ValView::Symbol(_)) || val_view(ast0g) == ValView::List(Seq::empty()))
                ==> (val_view(ast) == val_view(ast0g) && *interp == *old(interp) && loop_env
                == env0 && steps == STEP_BUDGET),
            fuel >= 4 && concrete_noncallable_call(val_view(ast0g)) ==> (val_view(ast)
                == val_view(ast0g) && *interp == *old(interp) && loop_env == env0 && steps
                == STEP_BUDGET),
            fuel >= 5 && direct_native_call(old(interp).envs@, env0 as int, val_view(ast0g))
                is Some ==> (val_view(ast) == val_view(ast0g) && *interp == *old(interp)
                && loop_env == env0 && steps == STEP_BUDGET),
            fuel >= 3 && val_view(ast0g) == ValView::List(seq![ValView::Symbol("do"@)])
                && !macro_headed(val_view(ast0g), old(interp).envs@, env0 as int) ==> (val_view(
                ast,
            ) == val_view(ast0g) && *interp == *old(interp) && loop_env == env0 && steps
                == STEP_BUDGET),
            fuel >= 7 && (match val_view(ast0g) {
                ValView::List(es) => es.len() == 3 && es[0] == ValView::Symbol("try*"@)
                    && !catch_clause_bad(es[2]) && !macro_headed(
                    val_view(ast0g),
                    old(interp).envs@,
                    env0 as int,
                ),
                _ => false,
            }) ==> (val_view(ast) == val_view(ast0g) && *interp == *old(interp) && loop_env
                == env0 && steps == STEP_BUDGET),
        decreases steps,
    {
        proof {
            crate::types::lemma_view_cases(ast0g);
            lemma_special_names();
        }
        if steps == 0 {
            return Err(MalExpression::String("evaluation step limit exceeded".to_owned()));
        }
        steps = steps - 1;
        match macroexpand(interp, ast, loop_env, fuel - 1) {
            Ok(x) => {
                ast = x;
            },
            Err(p) => {
                return Err(p);
            },
        }
        match ast {
            MalExpression::Tco(exp, e) => {
                ast = *exp;
                loop_env = e;
            },
            MalExpression::List(forms) => {
                if forms.len() == 0 {
                    proof {
                        seq_view_props(forms@);
                    }
                    return Ok(MalExpression::List(forms));
                }
                proof {
                    seq_view_props(forms@);
                    assert(wf_val(
                        ValView::List(seq_view(forms@)),
                        interp.nenvs(),
                        interp.natoms(),
                    ));
                    crate::types::lemma_wf_seq(seq_view(forms@), interp.nenvs(), interp.natoms());
                    if fuel >= 5 {
                        match direct_native_call(
                            old(interp).envs@,
                            env0 as int,
                            val_view(ast0g),
                        ) {
                            Some((g, argvs)) => {
                                let es = seq_view(forms@);
                                assert(es == (match val_view(ast0g) {
                                    ValView::List(es2) => es2,
                                    _ => es,
                                }));
                                assert forall|q: int| 0 <= q < es.len() implies (
                                #[trigger] one_step_elem(old(interp).envs@, env0 as int, es[q]))
                                    is Some by {
                                    if q >= 1 {
                                        assert(es.skip(1)[q - 1] == es[q]);
                                        assert(one_step_elem(
                                            old(interp).envs@,
                                            env0 as int,
                                            es.skip(1)[q - 1],
                                        ) is Some);
                                    }
                                }
                                assert(all_one_step(old(interp).envs@, env0 as int, es));
                            },
                            None => {},
                        }
                    }
                }
                let mut special: bool = false;
                let mut result: EvalRet = Ok(MalExpression::Nil());
                match &forms[0] {
                    MalExpression::Symbol(sym) => {
                        if str_eq(sym.as_str(), "def!") {
                            let rest = vec_suffix(&forms, 1);
                            proof {
                                lemma_rest_wf(forms@, rest@, interp.nenvs(), interp.natoms());
                            }
                            return eval_def(interp, rest, loop_env, fuel - 1);
                        } else if str_eq(sym.as_str(), "defmacro!") {
                            let rest = vec_suffix(&forms, 1);
                            proof {
                                lemma_rest_wf(forms@, rest@, interp.nenvs(), interp.natoms());
                            }
                            return eval_defmacro(interp, rest, loop_env, fuel - 1);
                        } else if str_eq(sym.as_str(), "let*") {
                            let rest = vec_suffix(&forms, 1);
                            proof {
                                lemma_rest_wf(forms@, rest@, interp.nenvs(), interp.natoms());
                            }
                            special = true;
                            result = eval_let(interp, rest, loop_env, fuel - 1);
                        } else if str_eq(sym.as_str(), "do") {
                            let rest = vec_suffix(&forms, 1);
                            proof {
                                lemma_rest_wf(forms@, rest@, interp.nenvs(), interp.natoms());
                            }
                            special = true;
                            result = eval_do(interp, rest, loop_env, fuel - 1);
                        } else if str_eq(sym.as_str(), "if") {
                            let rest = vec_suffix(&forms, 1);
                            proof {
                                lemma_rest_wf(forms@, rest@, interp.nenvs(), interp.natoms());
                            }
                            special = true;
                            result = eval_if(interp, rest, loop_env, fuel - 1);
                        } else if str_eq(sym.as_str(), "fn*") {
                            let rest = vec_suffix(&forms, 1);
                            proof {
                                lemma_rest_wf(forms@, rest@, interp.nenvs(), interp.natoms());
                            }
                            return eval_fn(interp, &rest, loop_env);
                        } else if str_eq(sym.as_str(), "quote") {
                            let rest = vec_suffix(&forms, 1);
                            proof {
                                lemma_rest_wf(forms@, rest@, interp.nenvs(), interp.natoms());
                                seq_view_props(rest@);
                            }
                            return ensure_value(eval_quote(&rest, loop_env));
                        } else if str_eq(sym.as_str(), "quasiquote") {
                            let rest = vec_suffix(&forms, 1);
                            proof {
                                lemma_rest_wf(forms@, rest@, interp.nenvs(), interp.natoms());
                                seq_view_props(rest@);
                            }
                            special = true;
                            result = eval_quasiquote(&rest, loop_env);
                            proof {
                                match &result {
                                    Ok(v) => {
                                        if rest@.len() > 0 {
                                            assert(seq_view(rest@)[0] == val_view(rest@[0]));
                                            lemma_qq_wf(
                                                seq_view(rest@)[0],
                                                interp.nenvs(),
                                                interp.natoms(),
                                            );
                                        }
                                        match val_view(*v) {
                                            ValView::Tco(bb, ee) => {
                                                assert(ee == loop_env as nat);
                                                if rest@.len() == 0 {
                                                    assert(*bb == ValView::List(
                                                        Seq::<ValView>::empty(),
                                                    ));
                                                    crate::types::lemma_wf_seq(
                                                        Seq::<ValView>::empty(),
                                                        interp.nenvs(),
                                                        interp.natoms(),
                                                    );
                                                }
                                                assert(wf_val(*bb, interp.nenvs(), interp.natoms()));
                                            },
                                            _ => {},
                                        }
                                        assert(wf_val(
                                            val_view(*v),
                                            interp.nenvs(),
                                            interp.natoms(),
                                        ));
                                    },
                                    Err(_) => {},
                                }
                            }
                        } else if str_eq(sym.as_str(), "try*") {
                            let rest = vec_suffix(&forms, 1);
                            proof {
                                lemma_rest_wf(forms@, rest@, interp.nenvs(), interp.natoms());
                                seq_view_props(rest@);
                                seq_view_props(forms@);
                                if forms@.len() >= 3 {
                                    assert(seq_view(rest@)[0] == seq_view(forms@)[1]);
                                    assert(seq_view(rest@)[1] == seq_view(forms@)[2]);
                                }
                            }
                            return eval_try(interp, rest, loop_env, fuel - 1);
                        } else if str_eq(sym.as_str(), "macroexpand") {
                            if forms.len() > 1 {
                                let arg = forms[1].clone();
                                proof {
                                    assert(val_view(forms@[1]) == seq_view(forms@)[1]);
                                    assert(wf_val(
                                        seq_view(forms@)[1],
                                        interp.nenvs(),
                                        interp.natoms(),
                                    ));
                                }
                                let expanded = macroexpand(interp, arg, loop_env, fuel - 1);
                                match expanded {
                                    Ok(v) => {
                                        if let MalExpression::Tco(_, _) = &v {
                                            return Err(
                                                MalExpression::String(
                                                    "macroexpand produced an internal continuation".to_owned(),
                                                ),
                                            );
                                        }
                                        proof {
                                            crate::types::lemma_view_cases(v);
                                        }
                                        return Ok(v);
                                    },
                                    Err(p) => {
                                        return Err(p);
                                    },
                                }
                            } else {
                                return Err(
                                    MalExpression::String(
                                        "macroexpand requires an argument".to_owned(),
                                    ),
                                );
                            }
                        }
                    },
                    _ => {},
                }
                if special {
                    match result {
                        Ok(MalExpression::Tco(b, e)) => {
                            proof {
                                assert(wf_val(
                                    val_view(MalExpression::Tco(b, e)),
                                    interp.nenvs(),
                                    interp.natoms(),
                                ));
                                assert(val_view(MalExpression::Tco(b, e)) == ValView::Tco(
                                    Box::new(val_view(*b)),
                                    e as nat,
                                ));
                            }
                            ast = *b;
                            loop_env = e;
                            continue ;
                        },
                        Ok(other) => {
                            proof {
                                crate::types::lemma_view_cases(other);
                            }
                            if let MalExpression::Tco(_, _) = &other {
                                return Err(
                                    MalExpression::String(
                                        "internal continuation escaped".to_owned(),
                                    ),
                                );
                            }
                            return Ok(other);
                        },
                        Err(p) => {
                            return Err(p);
                        },
                    }
                }
                // Application: evaluate every element, then dispatch on the head.
                let evaled = eval_ast(interp, MalExpression::List(forms), loop_env, fuel - 1);
                match evaled {
                    Ok(MalExpression::List(items)) => {
                        proof {
                            seq_view_props(items@);
                        }
                        if items.len() == 0 {
                            return Err(
                                MalExpression::String(
                                    "Cannot apply empty list as function".to_owned(),
                                ),
                            );
                        }
                        let rest_args = vec_suffix(&items, 1);
                        proof {
                            lemma_seq_view_skip(items@, 1);
                            lemma_rest_wf(items@, rest_args@, interp.nenvs(), interp.natoms());
                            if fuel >= 5 {
                                match direct_native_call(
                                    old(interp).envs@,
                                    env0 as int,
                                    val_view(ast0g),
                                ) {
                                    Some((g, argvs)) => {
                                        match val_view(ast0g) {
                                            ValView::List(es) => {
                                                let mapped = map_one_step(
                                                    old(interp).envs@,
                                                    env0 as int,
                                                    es,
                                                );
                                                assert(seq_view(items@) == mapped);
                                                assert(val_view(items@[0]) == mapped[0]);
                                                assert(mapped[0] == (
                                                match one_step_elem(
                                                    old(interp).envs@,
                                                    env0 as int,
                                                    es[0],
                                                ) {
                                                    Some(v) => v,
                                                    None => es[0],
                                                }));
                                                assert(val_view(items@[0])
                                                    == ValView::RustFunction(g));
                                                assert forall|q: int|
                                                    0 <= q < seq_view(rest_args@).len() implies
                                                    #[trigger] seq_view(rest_args@)[q] == argvs[q]
                                                by {
                                                    assert(seq_view(rest_args@)[q] == seq_view(
                                                        items@,
                                                    ).skip(1)[q]);
                                                    assert(seq_view(items@).skip(1)[q]
                                                        == mapped[q + 1]);
                                                    assert(es.skip(1)[q] == es[q + 1]);
                                                    assert(argvs[q] == (match one_step_elem(
                                                        old(interp).envs@,
                                                        env0 as int,
                                                        es.skip(1)[q],
                                                    ) {
                                                        Some(w) => w,
                                                        None => es.skip(1)[q],
                                                    }));
                                                }
                                                assert(seq_view(rest_args@) =~= argvs);
                                            },
                                            _ => {},
                                        }
                                    },
                                    None => {},
                                }
                            }
                            seq_view_props(rest_args@);
                            seq_view_props(items@);
                            crate::types::lemma_wf_seq(
                                seq_view(items@),
                                interp.nenvs(),
                                interp.natoms(),
                            );
                            crate::types::lemma_wf_seq(
                                seq_view(rest_args@),
                                interp.nenvs(),
                                interp.natoms(),
                            );
                            assert(wf_val(
                                ValView::List(seq_view(rest_args@)),
                                interp.nenvs(),
                                interp.natoms(),
                            ));
                        }
                        match &items[0] {
                            MalExpression::RustFunction(f) => {
                                let g = *f;
                                return call_native(interp, g, rest_args, fuel - 1);
                            },
                            MalExpression::RustClosure(_) => {
                                if rest_args.len() >= 1 {
                                    proof {
                                        lemma_arena_outer(*interp);
                                    }
                                    let top = Env::get_env_top_level(&interp.envs, loop_env);
                                    let arg = rest_args[0].clone();
                                    return EVAL(interp, arg, top, fuel - 1);
                                } else {
                                    return Err(
                                        MalExpression::String("argument required".to_owned()),
                                    );
                                }
                            },
                            MalExpression::FnFunction { is_macro, .. } => {
                                proof {
                                    if fuel >= 4 && concrete_noncallable_call(val_view(ast0g)) {
                                        assert(seq_view(items@)[0] == val_view(items@[0]));
                                        assert(false);
                                    }
                                }
                                if !*is_macro {
                                    let f0 = items[0].clone();
                                    let applied = apply_fnfunction(
                                        interp,
                                        f0,
                                        MalExpression::List(rest_args),
                                        true,
                                        fuel - 1,
                                    );
                                    match applied {
                                        Ok(MalExpression::Tco(b, e)) => {
                                            proof {
                                                assert(wf_val(
                                                    val_view(MalExpression::Tco(b, e)),
                                                    interp.nenvs(),
                                                    interp.natoms(),
                                                ));
                                                assert(val_view(MalExpression::Tco(b, e))
                                                    == ValView::Tco(
                                                    Box::new(val_view(*b)),
                                                    e as nat,
                                                ));
                                            }
                                            ast = *b;
                                            loop_env = e;
                                            continue ;
                                        },
                                        Ok(other) => {
                                            proof {
                                                crate::types::lemma_view_cases(other);
                                            }
                                            if let MalExpression::Tco(_, _) = &other {
                                                return Err(
                                                    MalExpression::String(
                                                        "internal continuation escaped".to_owned(),
                                                    ),
                                                );
                                            }
                                            return Ok(other);
                                        },
                                        Err(p) => {
                                            return Err(p);
                                        },
                                    }
                                } else {
                                    let rendered = pr_str(&items[0], true);
                                    let mut msg = String::from_str(
                                        "not a symbol, list, or function: ",
                                    );
                                    msg.append(rendered.as_str());
                                    return Err(MalExpression::String(msg));
                                }
                            },
                            MalExpression::List(l0) => {
                                if l0.len() == 0 {
                                    return Err(
                                        MalExpression::String(
                                            "Cannot apply empty list as function".to_owned(),
                                        ),
                                    );
                                }
                                let rendered = pr_str(&items[0], true);
                                let mut msg = String::from_str(
                                    "not a symbol, list, or function: ",
                                );
                                msg.append(rendered.as_str());
                                return Err(MalExpression::String(msg));
                            },
                            _ => {
                                let rendered = pr_str(&items[0], true);
                                let mut msg = String::from_str(
                                    "not a symbol, list, or function: ",
                                );
                                msg.append(rendered.as_str());
                                return Err(MalExpression::String(msg));
                            },
                        }
                    },
                    Ok(other) => {
                        proof {
                            crate::types::lemma_view_cases(other);
                        }
                        return Err(
                            MalExpression::String(
                                "internal error: evaluating a list gave a non-list".to_owned(),
                            ),
                        );
                    },
                    Err(p) => {
                        return Err(p);
                    },
                }
            },
            other => {
                return eval_ast(interp, other, loop_env, fuel - 1);
            },
        }
    }
}

/// Resolve a symbol in the environment, evaluate the elements of a
/// sequence, and return every other value unchanged.
#[verifier::loop_isolation(false)]
pub fn eval_ast(interp: &mut Interp, ast: MalExpression, env: usize, fuel: u32) -> (r: EvalRet)
    requires
        interp_wf(*old(interp)),
        env < old(interp).envs@.len(),
        wf_val(val_view(ast), old(interp).nenvs(), old(interp).natoms()),
    ensures
        evolves(*old(interp), *final(interp)),
        ret_wf(r, *final(interp)),
        no_tco_ok(r),
        fuel > 0 ==> (match val_view(ast) {
            ValView::List(es) => r matches Ok(v) ==> (match val_view(v) {
                ValView::List(ws) => ws.len() == es.len(),
                _ => false,
            }),
            ValView::Vector(es) => r matches Ok(v) ==> (match val_view(v) {
                ValView::Vector(ws) => ws.len() == es.len(),
                _ => false,
            }),
            ValView::HashTable(es) => r matches Ok(v) ==> (match val_view(v) {
                ValView::HashTable(ws) => ws.len() == es.len(),
                _ => false,
            }),
            _ => true,
        }),
        (val_view(ast) matches ValView::List(_)) ==> (r matches Ok(v) ==> val_view(v)
            matches ValView::List(_)),
        fuel > 0 && is_selfeval(val_view(ast)) ==> (*final(interp) == *old(interp) && (r
            matches Ok(v) && val_view(v) == val_view(ast))),
        fuel >= 2 && val_view(ast) == ValView::List(Seq::empty()) ==> (r matches Ok(v2)
            && val_view(v2) == val_view(ast)),
        fuel >= 3 ==> (match val_view(ast) {
            ValView::List(es) => (all_selfeval(es) ==> (r matches Ok(v3) && val_view(v3)
                == val_view(ast) && *final(interp) == *old(interp))) && (all_one_step(
                old(interp).envs@,
                env as int,
                es,
            ) ==> (r matches Ok(v4) && val_view(v4) == ValView::List(
                map_one_step(old(interp).envs@, env as int, es),
            ) && *final(interp) == *old(interp))),
            ValView::Vector(es) => all_selfeval(es) ==> (r matches Ok(v3) && val_view(v3)
                == val_view(ast) && *final(interp) == *old(interp)),
            ValView::HashTable(es) => all_selfeval(es) ==> (r matches Ok(v3) && val_view(v3)
                == val_view(ast) && *final(interp) == *old(interp)),
            _ => true,
        }),
        fuel > 0 ==> (match val_view(ast) {
            ValView::Symbol(nm) => *final(interp) == *old(interp) && (
            match crate::env::spec_env_get(old(interp).envs@, env as int, nm) {
                Some(v) => if v matches ValView::Tco(..) {
                    r is Err
                } else {
                    r matches Ok(rv) && val_view(rv) == v
                },
                None => r matches Err(p) && val_view(p) == ValView::Str(
                    "'"@ + nm + "' not found"@,
                ),
            }),
            _ => true,
        }),
    decreases fuel, 3int,
{
    if fuel == 0 {
        return Err(MalExpression::String("evaluation depth limit exceeded".to_owned()));
    }
    match ast {
        MalExpression::Symbol(symbol) => {
            proof {
                lemma_arena_outer(*interp);
            }
            let looked = Env::get(&interp.envs, env, symbol.as_str());
            match looked {
                Some(result) => {
                    proof {
                        crate::env::lemma_env_get_wf(
                            interp.envs@,
                            env as int,
                            symbol@,
                            interp.natoms(),
                        );
                        crate::types::lemma_view_cases(result);
                    }
                    if let MalExpression::Tco(_, _) = &result {
                        return Err(
                            MalExpression::String(
                                "internal continuation escaped".to_owned(),
                            ),
                        );
                    }
                    Ok(result)
                },
                None => {
                    let mut msg = String::from_str("'");
                    msg.append(symbol.as_str());
                    msg.append("' not found");
                    Err(MalExpression::String(msg))
                },
            }
        },
        MalExpression::List(list) => {
            proof {
                crate::types::lemma_wf_seq(
                    seq_view(list@),
                    old(interp).nenvs(),
                    old(interp).natoms(),
                );
                seq_view_props(list@);
                assert forall|j: int| 0 <= j < list@.len() implies wf_val(
                    val_view(#[trigger] list@[j]),
                    old(interp).nenvs(),
                    old(interp).natoms(),
                ) by {
                    assert(seq_view(list@)[j] == val_view(list@[j]));
                }
            }
            let ghost empty_case = list@.len() == 0;
            match eval_elems(interp, list, env, fuel) {
                Ok(collected) => {
                    proof {
                        seq_view_props(collected@);
                        if empty_case {
                            assert(seq_view(collected@) =~= seq_view(list@));
                        }
                        assert forall|j: int| 0 <= j < seq_view(collected@).len() implies wf_val(
                            #[trigger] seq_view(collected@)[j],
                            final(interp).nenvs(),
                            final(interp).natoms(),
                        ) by {
                            assert(seq_view(collected@)[j] == val_view(collected@[j]));
                        }
                        crate::types::lemma_wf_seq(
                            seq_view(collected@),
                            final(interp).nenvs(),
                            final(interp).natoms(),
                        );
                    }
                    Ok(MalExpression::List(collected))
                },
                Err(p) => Err(p),
            }
        },
        MalExpression::Vector(vector) => {
            proof {
                crate::types::lemma_wf_seq(
                    seq_view(vector@),
                    old(interp).nenvs(),
                    old(interp).natoms(),
                );
                seq_view_props(vector@);
                assert forall|j: int| 0 <= j < vector@.len() implies wf_val(
                    val_view(#[trigger] vector@[j]),
                    old(interp).nenvs(),
                    old(interp).natoms(),
                ) by {
                    assert(seq_view(vector@)[j] == val_view(vector@[j]));
                }
            }
            match eval_elems(interp, vector, env, fuel) {
                Ok(collected) => {
                    proof {
                        seq_view_props(collected@);
                        assert forall|j: int| 0 <= j < seq_view(collected@).len() implies wf_val(
                            #[trigger] seq_view(collected@)[j],
                            final(interp).nenvs(),
                            final(interp).natoms(),
                        ) by {
                            assert(seq_view(collected@)[j] == val_view(collected@[j]));
                        }
                        crate::types::lemma_wf_seq(
                            seq_view(collected@),
                            final(interp).nenvs(),
                            final(interp).natoms(),
                        );
                    }
                    Ok(MalExpression::Vector(collected))
                },
                Err(p) => Err(p),
            }
        },
        MalExpression::HashTable(table) => {
            proof {
                crate::types::lemma_wf_seq(
                    seq_view(table@),
                    old(interp).nenvs(),
                    old(interp).natoms(),
                );
                seq_view_props(table@);
                assert forall|j: int| 0 <= j < table@.len() implies wf_val(
                    val_view(#[trigger] table@[j]),
                    old(interp).nenvs(),
                    old(interp).natoms(),
                ) by {
                    assert(seq_view(table@)[j] == val_view(table@[j]));
                }
            }
            match eval_elems(interp, table, env, fuel) {
                Ok(collected) => {
                    proof {
                        seq_view_props(collected@);
                        assert forall|j: int| 0 <= j < seq_view(collected@).len() implies wf_val(
                            #[trigger] seq_view(collected@)[j],
                            final(interp).nenvs(),
                            final(interp).natoms(),
                        ) by {
                            assert(seq_view(collected@)[j] == val_view(collected@[j]));
                        }
                        crate::types::lemma_wf_seq(
                            seq_view(collected@),
                            final(interp).nenvs(),
                            final(interp).natoms(),
                        );
                    }
                    Ok(MalExpression::HashTable(collected))
                },
                Err(p) => Err(p),
            }
        },
        MalExpression::Tco(_, _) => Err(
            MalExpression::String("internal continuation escaped".to_owned()),
        ),
        other => {
            proof {
                crate::types::lemma_view_cases(other);
            }
            Ok(other)
        },
    }
}

/// Evaluate the elements of a sequence left to right.
#[verifier::loop_isolation(false)]
fn eval_elems(interp: &mut Interp, items: Vec<MalExpression>, env: usize, fuel: u32) -> (r:
    Result<Vec<MalExpression>, MalExpression>)
    requires
        interp_wf(*old(interp)),
        env < old(interp).envs@.len(),
        forall|j: int|
            0 <= j < items@.len() ==> wf_val(
                val_view(#[trigger] items@[j]),
                old(interp).nenvs(),
                old(interp).natoms(),
            ),
    ensures
        evolves(*old(interp), *final(interp)),
        match r {
            Ok(vs) => vs@.len() == items@.len() && (forall|j: int|
                0 <= j < vs@.len() ==> wf_val(
                    val_view(#[trigger] vs@[j]),
                    final(interp).nenvs(),
                    final(interp).natoms(),
                ) && !(val_view(vs@[j]) matches ValView::Tco(..))),
            Err(p) => wf_val(val_view(p), final(interp).nenvs(), final(interp).natoms()),
        },
        fuel >= 1 && items@.len() == 0 ==> r is Ok && *final(interp) == *old(interp),
        fuel >= 3 && all_selfeval(seq_view(items@)) ==> (r matches Ok(vs) && seq_view(vs@)
            == seq_view(items@) && *final(interp) == *old(interp)),
        fuel >= 3 && all_one_step(old(interp).envs@, env as int, seq_view(items@)) ==> (r
            matches Ok(vs) && seq_view(vs@) == map_one_step(
            old(interp).envs@,
            env as int,
            seq_view(items@),
        ) && *final(interp) == *old(interp)),
    decreases fuel, 2int,
{
    if fuel == 0 {
        return Err(MalExpression::String("evaluation depth limit exceeded".to_owned()));
    }
    let mut collected: Vec<MalExpression> = Vec::new();
    let n = items.len();
    let mut i: usize = 0;
    while i < n
        invariant
            0 <= i <= n,
            n == items@.len(),
            collected@.len() == i,
            items@.len() == 0 ==> *interp == *old(interp),
            (fuel >= 3 && all_selfeval(seq_view(items@))) ==> (*interp == *old(interp) && (
            forall|j: int|
                0 <= j < i ==> val_view(#[trigger] collected@[j]) == seq_view(items@)[j])),
            (fuel >= 3 && all_one_step(old(interp).envs@, env as int, seq_view(items@))) ==> (
            *interp == *old(interp) && (forall|j: int|
                0 <= j < i ==> val_view(#[trigger] collected@[j]) == map_one_step(
                    old(interp).envs@,
                    env as int,
                    seq_view(items@),
                )[j])),
            interp_wf(*interp),
            old(interp).envs@.len() <= interp.envs@.len(),
            old(interp).atoms@.len() <= interp.atoms@.len(),
            env < interp.envs@.len(),
            forall|j: int|
                0 <= j < items@.len() ==> wf_val(
                    val_view(#[trigger] items@[j]),
                    old(interp).nenvs(),
                    old(interp).natoms(),
                ),
            forall|j: int|
                0 <= j < collected@.len() ==> wf_val(
                    val_view(#[trigger] collected@[j]),
                    interp.nenvs(),
                    interp.natoms(),
                ) && !(val_view(collected@[j]) matches ValView::Tco(..)),
        decreases n - i,
    {
        let ghost pre = *interp;
        let item = items[i].clone();
        proof {
            crate::types::lemma_wf_val_grow(
                val_view(items@[i as int]),
                old(interp).nenvs(),
                old(interp).natoms(),
                interp.nenvs(),
                interp.natoms(),
            );
            seq_view_props(items@);
            assert(seq_view(items@)[i as int] == val_view(items@[i as int]));
            if fuel >= 3 && all_one_step(old(interp).envs@, env as int, seq_view(items@)) {
                assert(one_step_elem(
                    old(interp).envs@,
                    env as int,
                    seq_view(items@)[i as int],
                ) is Some);
            }
        }
        match EVAL(interp, item, env, fuel - 1) {
            Ok(v) => {
                proof {
                    assert forall|j: int| 0 <= j < collected@.len() implies wf_val(
                        val_view(#[trigger] collected@[j]),
                        interp.nenvs(),
                        interp.natoms(),
                    ) && !(val_view(collected@[j]) matches ValView::Tco(..)) by {
                        crate::types::lemma_wf_val_grow(
                            val_view(collected@[j]),
                            pre.nenvs(),
                            pre.natoms(),
                            interp.nenvs(),
                            interp.natoms(),
                        );
                    }
                }
                collected.push(v);
            },
            Err(p) => {
                proof {
                    if fuel >= 3 && all_selfeval(seq_view(items@)) {
                        assert(is_selfeval(seq_view(items@)[i as int]));
                        assert(false);
                    }
                    if fuel >= 3 && all_one_step(
                        old(interp).envs@,
                        env as int,
                        seq_view(items@),
                    ) {
                        assert(one_step_elem(
                            old(interp).envs@,
                            env as int,
                            seq_view(items@)[i as int],
                        ) is Some);
                        assert(false);
                    }
                }
                return Err(p);
            },
        }
        i = i + 1;
    }
    proof {
        if fuel >= 3 && all_selfeval(seq_view(items@)) {
            seq_view_props(collected@);
            seq_view_props(items@);
            assert forall|j: int| 0 <= j < collected@.len() implies seq_view(collected@)[j]
                == #[trigger] seq_view(items@)[j] by {
                assert(seq_view(collected@)[j] == val_view(collected@[j]));
            }
            assert(seq_view(collected@) =~= seq_view(items@));
        }
        if fuel >= 3 && all_one_step(old(interp).envs@, env as int, seq_view(items@)) {
            seq_view_props(collected@);
            seq_view_props(items@);
            let mapped = map_one_step(old(interp).envs@, env as int, seq_view(items@));
            assert forall|j: int| 0 <= j < collected@.len() implies seq_view(collected@)[j]
                == #[trigger] mapped[j] by {
                assert(seq_view(collected@)[j] == val_view(collected@[j]));
            }
            assert(seq_view(collected@) =~= mapped);
        }
    }
    Ok(collected)
}

/// The state change a definition is allowed to make: one binding of one
/// environment node, and nothing else.
pub open spec fn binds_only(pre: Interp, post: Interp, env: int, nm: Seq<char>) -> bool {
    &&& post.envs@.len() == pre.envs@.len()
    &&& post.atoms@ == pre.atoms@
    &&& post.out@ == pre.out@
    &&& forall|j: int| 0 <= j < pre.envs@.len() && j != env ==> post.envs@[j] == #[trigger] pre.envs@[j]
    &&& post.envs@[env].outer == pre.envs@[env].outer
    &&& forall|k: Seq<char>|
        k != nm ==> #[trigger] post.envs@[env].spec_lookup(k) == pre.envs@[env].spec_lookup(k)
}

/// Whether a `def!` form is malformed: fewer than two arguments, or a
/// first argument that is not a symbol.
pub open spec fn def_shape_bad(forms: Seq<ValView>) -> bool {
    forms.len() < 2 || !(forms[0] matches ValView::Symbol(_))
}

/// `(def! name expr)`: evaluate and bind in the current environment; the
/// binding then resolves to the returned value.
pub fn eval_def(interp: &mut Interp, forms: Vec<MalExpression>, env: usize, fuel: u32) -> (r:
    EvalRet)
    requires
        interp_wf(*old(interp)),
        env < old(interp).envs@.len(),
        forall|j: int|
            0 <= j < forms@.len() ==> wf_val(
                val_view(#[trigger] forms@[j]),
                old(interp).nenvs(),
                old(interp).natoms(),
            ),
    ensures
        evolves(*old(interp), *final(interp)),
        ret_wf(r, *final(interp)),
        no_tco_ok(r),
        r matches Ok(v) ==> seq_view(forms@).len() >= 2 && (match seq_view(forms@)[0] {
            ValView::Symbol(nm) => final(interp).envs@[env as int].spec_lookup(nm) == Some(
                val_view(v),
            ),
            _ => false,
        }),
        fuel >= 1 && def_shape_bad(seq_view(forms@)) ==> (r matches Err(p) && val_view(p)
            == ValView::Str("def! requires 2 arguments; first argument should be a symbol"@)),
        fuel >= 3 && !def_shape_bad(seq_view(forms@)) ==> (match one_step_elem(
            old(interp).envs@,
            env as int,
            seq_view(forms@)[1],
        ) {
            Some(w) => r matches Ok(v) && val_view(v) == w,
            None => true,
        }),
    decreases fuel, 3int,
{
    eval_def_like(interp, forms, env, fuel, false)
}

/// `(defmacro! name expr)`: like `def!`, but the bound closure is marked as
/// a macro.
pub fn eval_defmacro(interp: &mut Interp, forms: Vec<MalExpression>, env: usize, fuel: u32) -> (r:
    EvalRet)
    requires
        interp_wf(*old(interp)),
        env < old(interp).envs@.len(),
        forall|j: int|
            0 <= j < forms@.len() ==> wf_val(
                val_view(#[trigger] forms@[j]),
                old(interp).nenvs(),
                old(interp).natoms(),
            ),
    ensures
        evolves(*old(interp), *final(interp)),
        ret_wf(r, *final(interp)),
        no_tco_ok(r),
        r matches Ok(v) ==> seq_view(forms@).len() >= 2 && (match seq_view(forms@)[0] {
            ValView::Symbol(nm) => final(interp).envs@[env as int].spec_lookup(nm) == Some(
                val_view(v),
            ),
            _ => false,
        }),
        r matches Ok(v) ==> val_view(v) matches ValView::FnFunction { is_macro: true, .. },
        fuel >= 1 && def_shape_bad(seq_view(forms@)) ==> (r matches Err(p) && val_view(p)
            == ValView::Str("def! requires 2 arguments; first argument should be a symbol"@)),
        fuel >= 3 && !def_shape_bad(seq_view(forms@)) ==> (match one_step_elem(
            old(interp).envs@,
            env as int,
            seq_view(forms@)[1],
        ) {
            Some(w) => match w {
                ValView::FnFunction { binds, ast, outer_env, is_macro } => r matches Ok(v)
                    && val_view(v) == ValView::FnFunction {
                    binds,
                    ast,
                    outer_env,
                    is_macro: true,
                },
                _ => r matches Err(p) && val_view(p) == ValView::Str(
                    "defmacro! requires second argument to evaluate to a function"@,
                ),
            },
            None => true,
        }),
    decreases fuel, 3int,
{
    eval_def_like(interp, forms, env, fuel, true)
}

/// Shared body of `def!` and `defmacro!`.
fn eval_def_like(
    interp: &mut Interp,
    forms: Vec<MalExpression>,
    env: usize,
    fuel: u32,
    as_macro: bool,
) -> (r: EvalRet)
    requires
        interp_wf(*old(interp)),
        env < old(interp).envs@.len(),
        forall|j: int|
            0 <= j < forms@.len() ==> wf_val(
                val_view(#[trigger] forms@[j]),
                old(interp).nenvs(),
                old(interp).natoms(),
            ),
    ensures
        evolves(*old(interp), *final(interp)),
        ret_wf(r, *final(interp)),
        no_tco_ok(r),
        r matches Ok(v) ==> seq_view(forms@).len() >= 2 && (match seq_view(forms@)[0] {
            ValView::Symbol(nm) => final(interp).envs@[env as int].spec_lookup(nm) == Some(
                val_view(v),
            ),
            _ => false,
        }),
        as_macro ==> (r matches Ok(v) ==> val_view(v) matches ValView::FnFunction {
            is_macro: true,
            ..
        }),
        fuel >= 1 && def_shape_bad(seq_view(forms@)) ==> (r matches Err(p) && val_view(p)
            == ValView::Str("def! requires 2 arguments; first argument should be a symbol"@)),
        fuel >= 3 && !def_shape_bad(seq_view(forms@)) ==> (match one_step_elem(
            old(interp).envs@,
            env as int,
            seq_view(forms@)[1],
        ) {
            Some(w) => if as_macro {
                match w {
                    ValView::FnFunction { binds, ast, outer_env, is_macro } => r matches Ok(v)
                        && val_view(v) == ValView::FnFunction {
                        binds,
                        ast,
                        outer_env,
                        is_macro: true,
                    },
                    _ => r matches Err(p) && val_view(p) == ValView::Str(
                        "defmacro! requires second argument to evaluate to a function"@,
                    ),
                }
            } else {
                r matches Ok(v) && val_view(v) == w
            },
            None => true,
        }),
        fuel >= 3 && !def_shape_bad(seq_view(forms@)) && one_step_elem(
            old(interp).envs@,
            env as int,
            seq_view(forms@)[1],
        ) is Some ==> (match seq_view(forms@)[0] {
            ValView::Symbol(nm) => if r is Ok {
                binds_only(*old(interp), *final(interp), env as int, nm)
            } else {
                *final(interp) == *old(interp)
            },
            _ => false,
        }),
    decreases fuel, 2int,
{
    if fuel == 0 {
        return Err(MalExpression::String("evaluation depth limit exceeded".to_owned()));
    }
    proof {
        seq_view_props(forms@);
        if forms@.len() > 0 {
            crate::types::lemma_view_cases(forms@[0]);
        }
    }
    if forms.len() < 2 {
        return Err(
            MalExpression::String(
                "def! requires 2 arguments; first argument should be a symbol".to_owned(),
            ),
        );
    }
    match &forms[0] {
        MalExpression::Symbol(key) => {
            let expr = forms[1].clone();
            proof {
                assert(seq_view(forms@)[1] == val_view(forms@[1]));
            }
            match EVAL(interp, expr, env, fuel - 1) {
                Ok(value0) => {
                    let value: MalExpression;
                    if as_macro {
                        match value0 {
                            MalExpression::FnFunction { binds, ast, outer_env, is_macro } => {
                                proof {
                                    crate::types::lemma_view_cases(
                                        MalExpression::FnFunction {
                                            binds: binds,
                                            ast: ast,
                                            outer_env: outer_env,
                                            is_macro: is_macro,
                                        },
                                    );
                                }
                                value = MalExpression::FnFunction {
                                    binds,
                                    ast,
                                    outer_env,
                                    is_macro: true,
                                };
                            },
                            _ => {
                                return Err(
                                    MalExpression::String(
                                        "defmacro! requires second argument to evaluate to a function".to_owned(),
                                    ),
                                );
                            },
                        }
                    } else {
                        value = value0;
                    }
                    proof {
                        crate::types::lemma_view_cases(value);
                    }
                    if let MalExpression::Tco(_, _) = &value {
                        return Err(
                            MalExpression::String("internal continuation escaped".to_owned()),
                        );
                    }
                    let copy = value.clone();
                    interp.env_set(env, key.as_str(), copy);
                    Ok(value)
                },
                Err(p) => Err(p),
            }
        },
        _ => Err(
            MalExpression::String(
                "def! requires 2 arguments; first argument should be a symbol".to_owned(),
            ),
        ),
    }
}

/// `(let* (name expr ...) body)`: bind the pairs one after another in a
/// fresh child environment, each expression seeing the earlier bindings,
/// and continue with the body in that environment.
#[verifier::loop_isolation(false)]
pub fn eval_let(interp: &mut Interp, forms: Vec<MalExpression>, env: usize, fuel: u32) -> (r:
    EvalRet)
    requires
        interp_wf(*old(interp)),
        env < old(interp).envs@.len(),
        forall|j: int|
            0 <= j < forms@.len() ==> wf_val(
                val_view(#[trigger] forms@[j]),
                old(interp).nenvs(),
                old(interp).natoms(),
            ),
    ensures
        evolves(*old(interp), *final(interp)),
        ret_wf(r, *final(interp)),
        r matches Ok(v) ==> (match val_view(v) {
            ValView::Tco(b, e) => old(interp).envs@.len() <= e < final(interp).envs@.len()
                && seq_view(forms@).len() >= 2 && *b == seq_view(forms@)[1],
            _ => false,
        }),
        fuel >= 1 && (forms@.len() < 2 || !(seq_view(forms@)[0] matches ValView::List(_)
            || seq_view(forms@)[0] matches ValView::Vector(_))) ==> (r matches Err(p) && val_view(
            p,
        ) == ValView::Str("let* needs 2 arguments; first should be a list or vector"@)),
        fuel >= 1 && forms@.len() >= 2 && (seq_view(forms@)[0] == ValView::List(Seq::empty())
            || seq_view(forms@)[0] == ValView::Vector(Seq::empty())) ==> (r matches Ok(v) && (
        match val_view(v) {
            ValView::Tco(b, e) => {
                &&& *b == seq_view(forms@)[1]
                &&& e == old(interp).envs@.len()
                &&& (match final(interp).envs@[e as int].outer {
                    Some(o) => o == env,
                    None => false,
                })
                &&& forall|k: Seq<char>| #[trigger] final(interp).envs@[e as int].spec_lookup(k)
                    is None
                &&& forall|j: int|
                    0 <= j < old(interp).envs@.len() ==> #[trigger] final(interp).envs@[j] == old(
                        interp,
                    ).envs@[j]
                &&& final(interp).atoms@ == old(interp).atoms@
                &&& final(interp).out@ == old(interp).out@
            },
            _ => false,
        })),
    decreases fuel, 3int,
{
    if fuel == 0 {
        return Err(MalExpression::String("evaluation depth limit exceeded".to_owned()));
    }
    proof {
        seq_view_props(forms@);
        if forms@.len() > 0 {
            crate::types::lemma_view_cases(forms@[0]);
        }
    }
    if forms.len() < 2 {
        return Err(
            MalExpression::String(
                "let* needs 2 arguments; first should be a list or vector".to_owned(),
            ),
        );
    }
    let bindings: Vec<MalExpression>;
    match &forms[0] {
        MalExpression::List(b) | MalExpression::Vector(b) => {
            proof {
                seq_view_props(b@);
            }
            bindings = crate::types::clone_vec(b);
            proof {
                seq_view_props(b@);
                seq_view_props(bindings@);
                crate::types::lemma_wf_seq(
                    seq_view(b@),
                    old(interp).nenvs(),
                    old(interp).natoms(),
                );
                assert forall|j: int| 0 <= j < bindings@.len() implies wf_val(
                    val_view(#[trigger] bindings@[j]),
                    old(interp).nenvs(),
                    old(interp).natoms(),
                ) by {
                    assert(val_view(bindings@[j]) == seq_view(bindings@)[j]);
                    assert(seq_view(b@)[j] == val_view(b@[j]));
                }
            }
        },
        _ => {
            return Err(
                MalExpression::String(
                    "let* needs 2 arguments; first should be a list or vector".to_owned(),
                ),
            );
        },
    }
    let node = match Env::simple_new(Some(env)) {
        Ok(e) => e,
        Err(_) => {
            return Err(MalExpression::String("internal error".to_owned()));
        },
    };
    let let_env = interp.push_env(node);
    let ghost post_push = *interp;
    proof {
        assert(let_env < interp.envs@.len());
        assert(interp_wf(*interp));
    }
    let n = bindings.len();
    let mut i: usize = 0;
    while i < n
        invariant
            i <= n,
            bindings@.len() == 0 ==> *interp == post_push,
            interp_wf(*interp),
            old(interp).envs@.len() <= interp.envs@.len(),
            old(interp).atoms@.len() <= interp.atoms@.len(),
            let_env < interp.envs@.len(),
            n == bindings@.len(),
            forall|j: int|
                0 <= j < bindings@.len() ==> wf_val(
                    val_view(#[trigger] bindings@[j]),
                    old(interp).nenvs(),
                    old(interp).natoms(),
                ),
            fuel >= 1,
        decreases n - i,
    {
        if i + 1 >= n {
            return Err(
                MalExpression::String("let* bindings must come in symbol/value pairs".to_owned()),
            );
        }
        match &bindings[i] {
            MalExpression::Symbol(key) => {
                let expr = bindings[i + 1].clone();
                proof {
                    crate::types::lemma_wf_val_grow(
                        val_view(bindings@[i as int + 1]),
                        old(interp).nenvs(),
                        old(interp).natoms(),
                        interp.nenvs(),
                        interp.natoms(),
                    );
                }
                let key_copy = key.clone();
                match EVAL(interp, expr, let_env, fuel - 1) {
                    Ok(val) => {
                        interp.env_set(let_env, key_copy.as_str(), val);
                    },
                    Err(p) => {
                        return Err(p);
                    },
                }
            },
            _ => {
                let rendered = pr_str(&bindings[i], true);
                let mut msg = String::from_str("let* sub-argument not a symbol: ");
                msg.append(rendered.as_str());
                return Err(MalExpression::String(msg));
            },
        }
        i = i + 2;
    }
    let body = forms[1].clone();
    proof {
        crate::types::lemma_wf_val_grow(
            val_view(forms@[1]),
            old(interp).nenvs(),
            old(interp).natoms(),
            interp.nenvs(),
            interp.natoms(),
        );
        assert(seq_view(forms@)[1] == val_view(forms@[1]));
        if bindings@.len() == 0 {
            assert(*interp == post_push);
            assert(interp.envs@[let_env as int] == node);
            assert forall|k: Seq<char>| #[trigger] interp.envs@[let_env as int].spec_lookup(k)
                is None by {
                assert(node.data@.len() == 0);
            }
        }
    }
    Ok(MalExpression::Tco(Box::new(body), let_env))
}

/// `(do form ...)`: evaluate every form but the last for effect and
/// continue with the last; with no forms the result is `nil`.
#[verifier::loop_isolation(false)]
pub fn eval_do(interp: &mut Interp, forms: Vec<MalExpression>, env: usize, fuel: u32) -> (r:
    EvalRet)
    requires
        interp_wf(*old(interp)),
        env < old(interp).envs@.len(),
        forall|j: int|
            0 <= j < forms@.len() ==> wf_val(
                val_view(#[trigger] forms@[j]),
                old(interp).nenvs(),
                old(interp).natoms(),
            ),
    ensures
        evolves(*old(interp), *final(interp)),
        ret_wf(r, *final(interp)),
        r matches Ok(v) ==> (match val_view(v) {
            ValView::Tco(b, e) => e == env as nat && seq_view(forms@).len() >= 1 && *b == seq_view(
                forms@,
            ).last(),
            ValView::Nil => forms@.len() == 0,
            _ => false,
        }),
        fuel >= 1 && forms@.len() == 0 ==> (r matches Ok(v) && val_view(v) == ValView::Nil
            && *final(interp) == *old(interp)),
        fuel >= 3 && forms@.len() >= 1 && (forall|j: int|
            0 <= j < forms@.len() - 1 ==> (#[trigger] one_step_elem(
                old(interp).envs@,
                env as int,
                seq_view(forms@)[j],
            )) is Some) ==> (r matches Ok(v) && val_view(v) == ValView::Tco(
            Box::new(seq_view(forms@).last()),
            env as nat,
        )),
    decreases fuel, 3int,
{
    if fuel == 0 {
        return Err(MalExpression::String("evaluation depth limit exceeded".to_owned()));
    }
    proof {
        seq_view_props(forms@);
    }
    let n = forms.len();
    if n == 0 {
        return Ok(MalExpression::Nil());
    }
    let mut i: usize = 0;
    while i < n - 1
        invariant
            interp_wf(*interp),
            old(interp).envs@.len() <= interp.envs@.len(),
            old(interp).atoms@.len() <= interp.atoms@.len(),
            env < interp.envs@.len(),
            n == forms@.len(),
            n >= 1,
            (fuel >= 3 && (forall|j: int|
                0 <= j < forms@.len() - 1 ==> (#[trigger] one_step_elem(
                    old(interp).envs@,
                    env as int,
                    seq_view(forms@)[j],
                )) is Some)) ==> *interp == *old(interp),
            forall|j: int|
                0 <= j < forms@.len() ==> wf_val(
                    val_view(#[trigger] forms@[j]),
                    old(interp).nenvs(),
                    old(interp).natoms(),
                ),
            fuel >= 1,
        decreases n - i,
    {
        let expr = forms[i].clone();
        proof {
            crate::types::lemma_wf_val_grow(
                val_view(forms@[i as int]),
                old(interp).nenvs(),
                old(interp).natoms(),
                interp.nenvs(),
                interp.natoms(),
            );
        }
        proof {
            assert(seq_view(forms@)[i as int] == val_view(forms@[i as int]));
        }
        match EVAL(interp, expr, env, fuel - 1) {
            Ok(_) => {},
            Err(p) => {
                proof {
                    if fuel >= 3 && (forall|j: int|
                        0 <= j < forms@.len() - 1 ==> (#[trigger] one_step_elem(
                            old(interp).envs@,
                            env as int,
                            seq_view(forms@)[j],
                        )) is Some) {
                        assert(one_step_elem(
                            old(interp).envs@,
                            env as int,
                            seq_view(forms@)[i as int],
                        ) is Some);
                        assert(false);
                    }
                }
                return Err(p);
            },
        }
        i = i + 1;
    }
    let last = forms[n - 1].clone();
    proof {
        crate::types::lemma_wf_val_grow(
            val_view(forms@[n - 1]),
            old(interp).nenvs(),
            old(interp).natoms(),
            interp.nenvs(),
            interp.natoms(),
        );
        assert(seq_view(forms@).last() == val_view(forms@[n - 1]));
    }
    Ok(MalExpression::Tco(Box::new(last), env))
}

/// `(if cond then else?)`: evaluate the condition; everything but `nil`
/// and `false` selects the then-branch; a missing else-branch gives `nil`.
pub fn eval_if(interp: &mut Interp, forms: Vec<MalExpression>, env: usize, fuel: u32) -> (r:
    EvalRet)
    requires
        interp_wf(*old(interp)),
        env < old(interp).envs@.len(),
        forall|j: int|
            0 <= j < forms@.len() ==> wf_val(
                val_view(#[trigger] forms@[j]),
                old(interp).nenvs(),
                old(interp).natoms(),
            ),
    ensures
        evolves(*old(interp), *final(interp)),
        ret_wf(r, *final(interp)),
        r matches Ok(v) ==> (match val_view(v) {
            ValView::Tco(b, e) => e == env as nat && seq_view(forms@).len() >= 2 && (*b
                == seq_view(forms@)[1] || (seq_view(forms@).len() >= 3 && *b == seq_view(
                forms@,
            )[2])),
            ValView::Nil => true,
            _ => false,
        }),
        fuel >= 1 && forms@.len() < 2 ==> (r matches Err(p) && val_view(p) == ValView::Str(
            "if expression must have at least two arguments"@,
        )),
        fuel >= 3 && forms@.len() >= 2 ==> (match one_step_elem(
            old(interp).envs@,
            env as int,
            seq_view(forms@)[0],
        ) {
            Some(c) => r matches Ok(v) && val_view(v) == (if crate::types::is_truthy(c) {
                ValView::Tco(Box::new(seq_view(forms@)[1]), env as nat)
            } else if seq_view(forms@).len() >= 3 {
                ValView::Tco(Box::new(seq_view(forms@)[2]), env as nat)
            } else {
                ValView::Nil
            }),
            None => true,
        }),
    decreases fuel, 3int,
{
    if fuel == 0 {
        return Err(MalExpression::String("evaluation depth limit exceeded".to_owned()));
    }
    proof {
        seq_view_props(forms@);
    }
    if forms.len() < 2 {
        return Err(
            MalExpression::String("if expression must have at least two arguments".to_owned()),
        );
    }
    let cond = forms[0].clone();
    match EVAL(interp, cond, env, fuel - 1) {
        Ok(c) => {
            proof {
                crate::types::lemma_wf_val_grow(
                    val_view(forms@[1]),
                    old(interp).nenvs(),
                    old(interp).natoms(),
                    interp.nenvs(),
                    interp.natoms(),
                );
            }
            if c.is_true_in_if() {
                Ok(MalExpression::Tco(Box::new(forms[1].clone()), env))
            } else {
                if forms.len() >= 3 {
                    proof {
                        crate::types::lemma_wf_val_grow(
                            val_view(forms@[2]),
                            old(interp).nenvs(),
                            old(interp).natoms(),
                            interp.nenvs(),
                            interp.natoms(),
                        );
                    }
                    Ok(MalExpression::Tco(Box::new(forms[2].clone()), env))
                } else {
                    Ok(MalExpression::Nil())
                }
            }
        },
        Err(p) => Err(p),
    }
}

/// Whether a `fn*` form is malformed: fewer than two arguments, or a
/// parameter position that is not a list or vector.
pub open spec fn fn_shape_bad(forms: Seq<ValView>) -> bool {
    forms.len() < 2 || !((forms[0] matches ValView::List(_)) || (forms[0]
        matches ValView::Vector(_)))
}

/// `(fn* (params...) body)`: construct a closure capturing the current
/// environment.
pub fn eval_fn(interp: &Interp, forms: &Vec<MalExpression>, env: usize) -> (r: EvalRet)
    requires
        interp_wf(*interp),
        env < interp.envs@.len(),
        forall|j: int|
            0 <= j < forms@.len() ==> wf_val(
                val_view(#[trigger] forms@[j]),
                interp.nenvs(),
                interp.natoms(),
            ),
    ensures
        ret_wf(r, *interp),
        no_tco_ok(r),
        r matches Ok(v) ==> seq_view(forms@).len() >= 2 && (match seq_view(forms@)[0] {
            ValView::List(ps) => val_view(v) == ValView::FnFunction {
                binds: ps,
                ast: Box::new(seq_view(forms@)[1]),
                outer_env: env as nat,
                is_macro: false,
            },
            ValView::Vector(ps) => val_view(v) == ValView::FnFunction {
                binds: ps,
                ast: Box::new(seq_view(forms@)[1]),
                outer_env: env as nat,
                is_macro: false,
            },
            _ => false,
        }),
        (r is Err) <==> fn_shape_bad(seq_view(forms@)),
        r matches Err(p) ==> val_view(p) == ValView::Str(
            "fn* expression must have at least two arguments; first must be list or vector"@,
        ),
{
    proof {
        seq_view_props(forms@);
        if forms@.len() > 0 {
            crate::types::lemma_view_cases(forms@[0]);
        }
    }
    if forms.len() < 2 {
        return Err(
            MalExpression::String(
                "fn* expression must have at least two arguments; first must be list or vector".to_owned(),
            ),
        );
    }
    match &forms[0] {
        MalExpression::List(ps) | MalExpression::Vector(ps) => {
            proof {
                seq_view_props(ps@);
            }
            let binds = crate::types::clone_vec(ps);
            let body = forms[1].clone();
            let result = MalExpression::FnFunction {
                binds,
                ast: Box::new(body),
                outer_env: env,
                is_macro: false,
            };
            Ok(result)
        },
        _ => Err(
            MalExpression::String(
                "fn* expression must have at least two arguments; first must be list or vector".to_owned(),
            ),
        ),
    }
}

/// A quasiquote rewrite of a well-formed form is well formed.
pub proof fn lemma_qq_wf(form: ValView, ne: nat, na: nat)
    requires
        wf_val(form, ne, na),
    ensures
        qq_spec(form) matches Ok(v) ==> wf_val(v, ne, na),
    decreases val_size(form),
{
    crate::types::lemma_wf_seq(seq![ValView::Symbol("quote"@), form], ne, na);
    match form {
        ValView::List(l) => {
            crate::types::lemma_wf_seq(l, ne, na);
            if l.len() == 0 {
            } else {
                assert(wf_val(l[0], ne, na));
                assert forall|q: int| 0 <= q < l.skip(1).len() implies wf_val(
                    #[trigger] l.skip(1)[q],
                    ne,
                    na,
                ) by {
                    assert(l.skip(1)[q] == l[q + 1]);
                }
                crate::types::lemma_wf_seq(l.skip(1), ne, na);
                assert(wf_val(ValView::List(l.skip(1)), ne, na));
                if l[0] == ValView::Symbol("unquote"@) {
                } else if is_splice_head(l[0]) {
                    match splice_arg(l[0]) {
                        Some(sa) => {
                            lemma_seq_size_decomp(l);
                            lemma_val_size_pos(l[0]);
                            lemma_qq_wf(ValView::List(l.skip(1)), ne, na);
                            match l[0] {
                                ValView::List(inner) => {
                                    crate::types::lemma_wf_seq(inner, ne, na);
                                    assert(wf_val(inner[1], ne, na));
                                    match qq_spec(ValView::List(l.skip(1))) {
                                        Ok(rr) => {
                                            crate::types::lemma_wf_seq(
                                                seq![
                                                    ValView::Symbol("concat"@),
                                                    inner[1],
                                                    rr,
                                                ],
                                                ne,
                                                na,
                                            );
                                        },
                                        Err(_) => {},
                                    }
                                },
                                _ => {},
                            }
                        },
                        None => {},
                    }
                } else {
                    lemma_seq_size_decomp(l);
                    lemma_seq_size_ge_elem(l, 0);
                    lemma_val_size_pos(l[0]);
                    lemma_qq_wf(l[0], ne, na);
                    lemma_qq_wf(ValView::List(l.skip(1)), ne, na);
                    match (qq_spec(l[0]), qq_spec(ValView::List(l.skip(1)))) {
                        (Ok(qh), Ok(qt)) => {
                            crate::types::lemma_wf_seq(
                                seq![ValView::Symbol("cons"@), qh, qt],
                                ne,
                                na,
                            );
                        },
                        _ => {},
                    }
                }
            }
        },
        _ => {},
    }
}

/// `(quasiquote form)`: rewrite the template into executable `cons`,
/// `concat` and `quote` calls and continue by evaluating that expression.
pub fn eval_quasiquote(forms: &Vec<MalExpression>, env: usize) -> (r: EvalRet)
    ensures
        match r {
            Ok(v) => match val_view(v) {
                ValView::Tco(b, e) => e == env as nat && (if forms@.len() == 0 {
                    *b == ValView::List(Seq::empty())
                } else {
                    qq_spec(seq_view(forms@)[0]) == Ok::<_, Seq<char>>(*b)
                }),
                _ => false,
            },
            Err(p) => forms@.len() > 0 && (match qq_spec(seq_view(forms@)[0]) {
                Ok(_) => false,
                Err(m) => val_view(p) == ValView::Str(m),
            }),
        },
{
    match eval_quasiquote_inner(forms, env) {
        Ok(v) => Ok(MalExpression::Tco(Box::new(v), env)),
        Err(p) => Err(p),
    }
}

/// Whether the second argument of `try*` fails to be a well-formed
/// `(catch* sym body)` clause.
pub open spec fn catch_clause_bad(v: ValView) -> bool {
    match v {
        ValView::List(l) => !(l.len() == 3 && l[0] == ValView::Symbol("catch*"@) && (l[1]
            matches ValView::Symbol(_))),
        _ => true,
    }
}

/// `(try* A (catch* sym B))`: the value of `A`, or on error the value of
/// `B` with the error's payload bound to `sym` in a fresh child scope.
pub fn eval_try(interp: &mut Interp, forms: Vec<MalExpression>, env: usize, fuel: u32) -> (r:
    EvalRet)
    requires
        interp_wf(*old(interp)),
        env < old(interp).envs@.len(),
        forall|j: int|
            0 <= j < forms@.len() ==> wf_val(
                val_view(#[trigger] forms@[j]),
                old(interp).nenvs(),
                old(interp).natoms(),
            ),
    ensures
        evolves(*old(interp), *final(interp)),
        ret_wf(r, *final(interp)),
        no_tco_ok(r),
        fuel >= 1 && forms@.len() < 2 ==> (r matches Err(p) && val_view(p) == ValView::Str(
            "invalid try*/catch* form"@,
        )),
        fuel >= 1 && forms@.len() >= 2 && !(seq_view(forms@)[1] matches ValView::List(_)) ==> (r
            matches Err(p) && val_view(p) == ValView::Str("invalid try*/catch* form"@)),
        fuel >= 1 && forms@.len() >= 2 && catch_clause_bad(seq_view(forms@)[1]) && (seq_view(
            forms@,
        )[1] matches ValView::List(_)) ==> (r matches Err(p) && val_view(p) == ValView::Str(
            "invalid catch* clause"@,
        )),
        fuel >= 3 && forms@.len() >= 2 && !catch_clause_bad(seq_view(forms@)[1]) ==> (
        match one_step_elem(old(interp).envs@, env as int, seq_view(forms@)[0]) {
            Some(w) => r matches Ok(v) && val_view(v) == w,
            None => true,
        }),
        fuel >= 6 && forms@.len() >= 2 && !catch_clause_bad(seq_view(forms@)[1]) ==> (
        match direct_native_call(old(interp).envs@, env as int, seq_view(forms@)[0]) {
            Some((g, argvs)) => (match crate::natives::native_result(g, argvs) {
                Some(res) => (match res {
                    Ok(_) => true,
                    Err(sp) => !(sp matches ValView::Tco(..)) ==> (match seq_view(forms@)[1] {
                        ValView::List(cl) => (match (cl[1], cl[2]) {
                            (ValView::Symbol(h), body) => if is_selfeval(body) {
                                r matches Ok(v) && val_view(v) == body
                            } else {
                                match body {
                                    ValView::Symbol(bn) => if bn == h {
                                        r matches Ok(v) && val_view(v) == sp
                                    } else {
                                        match crate::env::spec_env_get(
                                            old(interp).envs@,
                                            env as int,
                                            bn,
                                        ) {
                                            Some(w) => if w matches ValView::Tco(..) {
                                                r is Err
                                            } else {
                                                r matches Ok(v) && val_view(v) == w
                                            },
                                            None => r is Err,
                                        }
                                    },
                                    _ => true,
                                }
                            },
                            _ => true,
                        }),
                        _ => true,
                    }),
                }),
                None => true,
            }),
            None => true,
        }),
    decreases fuel, 3int,
{
    if fuel == 0 {
        return Err(MalExpression::String("evaluation depth limit exceeded".to_owned()));
    }
    proof {
        seq_view_props(forms@);
        if forms@.len() > 1 {
            crate::types::lemma_view_cases(forms@[1]);
        }
    }
    if forms.len() < 2 {
        return Err(MalExpression::String("invalid try*/catch* form".to_owned()));
    }
    let catch_sym: String;
    let catch_body: MalExpression;
    proof {
        assert(seq_view(forms@)[1] == val_view(forms@[1]));
    }
    match &forms[1] {
        MalExpression::List(l) => {
            proof {
                seq_view_props(l@);
                if l@.len() > 0 {
                    crate::types::lemma_view_cases(l@[0]);
                }
                if l@.len() > 1 {
                    crate::types::lemma_view_cases(l@[1]);
                }
            }
            if l.len() != 3 {
                return Err(MalExpression::String("invalid catch* clause".to_owned()));
            }
            match (&l[0], &l[1]) {
                (MalExpression::Symbol(c0), MalExpression::Symbol(c1)) => {
                    if !str_eq(c0.as_str(), "catch*") {
                        return Err(MalExpression::String("invalid catch* clause".to_owned()));
                    }
                    catch_sym = c1.clone();
                    catch_body = l[2].clone();
                },
                _ => {
                    return Err(MalExpression::String("invalid catch* clause".to_owned()));
                },
            }
        },
        _ => {
            return Err(MalExpression::String("invalid try*/catch* form".to_owned()));
        },
    }
    let tried = forms[0].clone();
    proof {
        assert(seq_view(forms@)[0] == val_view(forms@[0]));
    }
    match EVAL(interp, tried, env, fuel - 1) {
        Ok(v) => Ok(v),
        Err(payload) => {
            let ghost ne0 = interp.nenvs();
            let ghost na0 = interp.natoms();
            let node = match Env::simple_new(Some(env)) {
                Ok(e) => e,
                Err(_) => {
                    return Err(MalExpression::String("internal error".to_owned()));
                },
            };
            let catch_env = interp.push_env(node);
            proof {
                crate::types::lemma_wf_val_grow(
                    val_view(payload),
                    ne0,
                    na0,
                    interp.nenvs(),
                    interp.natoms(),
                );
            }
            let ghost payg = payload;
            interp.env_set(catch_env, catch_sym.as_str(), payload);
            proof {
                if fuel >= 6 {
                    match direct_native_call(old(interp).envs@, env as int, seq_view(forms@)[0]) {
                        Some((g, argvs)) => {
                            match crate::natives::native_result(g, argvs) {
                                Some(res) => {
                                    match res {
                                        Err(sp) => {
                                            assert forall|j: int|
                                                0 <= j < old(interp).envs@.len() implies
                                                #[trigger] interp.envs@[j] == old(
                                                interp,
                                            ).envs@[j] by {}
                                            assert forall|bn: Seq<char>|
                                                bn != catch_sym@ implies #[trigger]
                                                crate::env::spec_env_get(
                                                interp.envs@,
                                                catch_env as int,
                                                bn,
                                            ) == crate::env::spec_env_get(
                                                old(interp).envs@,
                                                env as int,
                                                bn,
                                            ) by {
                                                assert(interp.envs@[
                                                    catch_env as int
                                                ].spec_lookup(bn) is None);
                                                crate::env::lemma_env_get_prefix(
                                                    old(interp).envs@,
                                                    interp.envs@,
                                                    env as int,
                                                    bn,
                                                );
                                            }
                                            assert(interp.envs@[catch_env as int].spec_lookup(
                                                catch_sym@,
                                            ) == Some(val_view(payg)));
                                            assert(crate::env::spec_env_get(
                                                interp.envs@,
                                                catch_env as int,
                                                catch_sym@,
                                            ) == Some(val_view(payg)));
                                        },
                                        Ok(_) => {},
                                    }
                                },
                                None => {},
                            }
                        },
                        None => {},
                    }
                }
            }
            proof {
                crate::types::lemma_wf_val_grow(
                    val_view(forms@[1]),
                    old(interp).nenvs(),
                    old(interp).natoms(),
                    interp.nenvs(),
                    interp.natoms(),
                );
                match forms@[1] {
                    MalExpression::List(lv) => {
                        seq_view_props(lv@);
                        crate::types::lemma_wf_seq(
                            seq_view(lv@),
                            interp.nenvs(),
                            interp.natoms(),
                        );
                        assert(seq_view(lv@)[2] == val_view(lv@[2]));
                        assert(wf_val(val_view(lv@[2]), interp.nenvs(), interp.natoms()));
                    },
                    _ => {},
                }
            }
            EVAL(interp, catch_body, catch_env, fuel - 1)
        },
    }
}

/// Expand a macro call once: when the head symbol resolves to a macro
/// closure, apply it to the unevaluated arguments.
pub fn macroexpand_once(interp: &mut Interp, ast: &MalExpression, env: usize, fuel: u32) -> (r:
    Option<EvalRet>)
    requires
        interp_wf(*old(interp)),
        env < old(interp).envs@.len(),
        wf_val(val_view(*ast), old(interp).nenvs(), old(interp).natoms()),
    ensures
        evolves(*old(interp), *final(interp)),
        match r {
            Some(res) => ret_wf(res, *final(interp)),
            None => *final(interp) == *old(interp),
        },
        !(*ast matches MalExpression::List(_)) ==> r is None,
        (r is None) <==> !macro_headed(val_view(*ast), old(interp).envs@, env as int),
    decreases fuel, 5int,
{
    match ast {
        MalExpression::List(l) => {
            proof {
                seq_view_props(l@);
            }
            if l.len() == 0 {
                return None;
            }
            match &l[0] {
                MalExpression::Symbol(sname) => {
                    proof {
                        lemma_arena_outer(*interp);
                    }
                    let target = Env::get(&interp.envs, env, sname.as_str());
                    match target {
                        Some(f) => {
                            proof {
                                crate::env::lemma_env_get_wf(
                                    interp.envs@,
                                    env as int,
                                    sname@,
                                    interp.natoms(),
                                );
                                crate::types::lemma_view_cases(f);
                            }
                            let is_macro_fn = match &f {
                                MalExpression::FnFunction { is_macro, .. } => *is_macro,
                                _ => false,
                            };
                            if is_macro_fn {
                                if fuel == 0 {
                                    return Some(
                                        Err(
                                            MalExpression::String(
                                                "evaluation depth limit exceeded".to_owned(),
                                            ),
                                        ),
                                    );
                                }
                                let rest = vec_suffix(l, 1);
                                proof {
                                    lemma_seq_view_skip(l@, 1);
                                    crate::types::lemma_wf_seq(
                                        seq_view(l@),
                                        old(interp).nenvs(),
                                        old(interp).natoms(),
                                    );
                                    seq_view_props(l@);
                                    seq_view_props(rest@);
                                    assert forall|q: int|
                                        0 <= q < seq_view(rest@).len() implies wf_val(
                                        #[trigger] seq_view(rest@)[q],
                                        old(interp).nenvs(),
                                        old(interp).natoms(),
                                    ) by {
                                        assert(seq_view(rest@)[q] == seq_view(l@).skip(1)[q]);
                                        assert(seq_view(l@).skip(1)[q] == seq_view(l@)[q + 1]);
                                    }
                                    crate::types::lemma_wf_seq(
                                        seq_view(rest@),
                                        old(interp).nenvs(),
                                        old(interp).natoms(),
                                    );
                                }
                                Some(
                                    apply_fnfunction(
                                        interp,
                                        f,
                                        MalExpression::List(rest),
                                        false,
                                        fuel - 1,
                                    ),
                                )
                            } else {
                                None
                            }
                        },
                        None => None,
                    }
                },
                _ => None,
            }
        },
        _ => None,
    }
}

/// Expand macro calls at the head of the form until the head no longer
/// names a macro.
#[verifier::loop_isolation(false)]
pub fn macroexpand(interp: &mut Interp, ast: MalExpression, env: usize, fuel: u32) -> (r: EvalRet)
    requires
        interp_wf(*old(interp)),
        env < old(interp).envs@.len(),
        wf_val(val_view(ast), old(interp).nenvs(), old(interp).natoms()),
    ensures
        evolves(*old(interp), *final(interp)),
        ret_wf(r, *final(interp)),
        !(val_view(ast) matches ValView::List(_)) ==> (r matches Ok(x) && val_view(x) == val_view(
            ast,
        ) && *final(interp) == *old(interp)),
        !macro_headed(val_view(ast), old(interp).envs@, env as int) ==> (r matches Ok(x)
            && val_view(x) == val_view(ast) && *final(interp) == *old(interp)),
        r matches Ok(x) ==> !macro_headed(val_view(x), final(interp).envs@, env as int),
    decreases fuel, 6int,
{
    let ghost astg = ast;
    let mut cur = ast;
    let mut steps: u64 = STEP_BUDGET;
    loop
        invariant
            interp_wf(*interp),
            old(interp).envs@.len() <= interp.envs@.len(),
            old(interp).atoms@.len() <= interp.atoms@.len(),
            env < interp.envs@.len(),
            wf_val(val_view(cur), interp.nenvs(), interp.natoms()),
            (!(val_view(astg) matches ValView::List(_)) || !macro_headed(
                val_view(astg),
                old(interp).envs@,
                env as int,
            )) ==> (cur == astg && *interp == *old(interp) && steps == STEP_BUDGET),
        decreases steps,
    {
        if steps == 0 {
            proof {
                crate::types::lemma_view_cases(astg);
            }
            return Err(MalExpression::String("macro expansion step limit exceeded".to_owned()));
        }
        steps = steps - 1;
        proof {
            crate::types::lemma_view_cases(astg);
        }
        match macroexpand_once(interp, &cur, env, fuel) {
            Some(res) => match res {
                Ok(x) => {
                    cur = x;
                },
                Err(p) => {
                    return Err(p);
                },
            },
            None => {
                return Ok(cur);
            },
        }
    }
}

/// Apply a closure to a list of argument values: bind the parameters in a
/// fresh environment under the closure's captured environment, then either
/// continue with the body as a tail call or evaluate it here.
#[verifier::loop_isolation(false)]
pub fn apply_fnfunction(
    interp: &mut Interp,
    function: MalExpression,
    rest_forms: MalExpression,
    tco: bool,
    fuel: u32,
) -> (r: EvalRet)
    requires
        interp_wf(*old(interp)),
        wf_val(val_view(function), old(interp).nenvs(), old(interp).natoms()),
        wf_val(val_view(rest_forms), old(interp).nenvs(), old(interp).natoms()),
    ensures
        evolves(*old(interp), *final(interp)),
        ret_wf(r, *final(interp)),
        !tco ==> no_tco_ok(r),
        r matches Ok(v2) ==> (match (val_view(function), val_view(rest_forms)) {
            (
                ValView::FnFunction { binds, ast, outer_env, is_macro },
                ValView::List(argvs),
            ) => all_params_symbols(binds) && crate::env::spec_bind_ok(sym_names(binds), argvs),
            _ => false,
        }),
        fuel >= 1 && tco ==> ((match (val_view(function), val_view(rest_forms)) {
            (
                ValView::FnFunction { binds, ast, outer_env, is_macro },
                ValView::List(argvs),
            ) => all_params_symbols(binds) && crate::env::spec_bind_ok(sym_names(binds), argvs),
            _ => false,
        }) ==> r is Ok),
        tco ==> (r matches Ok(v) ==> (match (val_view(function), val_view(rest_forms)) {
            (
                ValView::FnFunction { binds, ast, outer_env, is_macro },
                ValView::List(argvs),
            ) => (match val_view(v) {
                ValView::Tco(b, e) => {
                    &&& *b == *ast
                    &&& e == old(interp).envs@.len()
                    &&& e < final(interp).envs@.len()
                    &&& (match final(interp).envs@[e as int].outer {
                        Some(o) => o as nat == outer_env,
                        None => false,
                    })
                    &&& forall|k: Seq<char>|
                        #[trigger] final(interp).envs@[e as int].spec_lookup(k)
                            == crate::env::spec_bind_lookup(sym_names(binds), argvs, k)
                },
                _ => false,
            }),
            _ => false,
        })),
    decreases fuel, 3int,
{
    if fuel == 0 {
        return Err(MalExpression::String("evaluation depth limit exceeded".to_owned()));
    }
    match (function, rest_forms) {
        (
            MalExpression::FnFunction { binds, ast: fn_ast, outer_env, is_macro },
            MalExpression::List(args),
        ) => {
            proof {
                seq_view_props(binds@);
                seq_view_props(args@);
                crate::types::lemma_wf_seq(
                    seq_view(args@),
                    old(interp).nenvs(),
                    old(interp).natoms(),
                );
            }
            let mut names: Vec<String> = Vec::new();
            let nb = binds.len();
            let mut i: usize = 0;
            while i < nb
                invariant
                    0 <= i <= nb,
                    nb == binds@.len(),
                    names@.len() == i,
                    forall|j: int| 0 <= j < i ==> #[trigger] names@[j]@ == get_sym(
                        seq_view(binds@)[j],
                    ),
                    forall|j: int| 0 <= j < i ==> (#[trigger] seq_view(binds@)[j])
                        matches ValView::Symbol(_),
                decreases nb - i,
            {
                match &binds[i] {
                    MalExpression::Symbol(x) => {
                        proof {
                            assert(seq_view(binds@)[i as int] == val_view(binds@[i as int]));
                        }
                        names.push(x.clone());
                    },
                    _ => {
                        return Err(
                            MalExpression::String(
                                "non-symbol in fn* parameter list".to_owned(),
                            ),
                        );
                    },
                }
                i = i + 1;
            }
            proof {
                assert(crate::types::strs_view(names@) =~= sym_names(seq_view(binds@)));
            }
            match Env::new(Some(outer_env), &names, &args) {
                Ok(node) => {
                    proof {
                        seq_view_props(args@);
                        assert forall|j: int| 0 <= j < node.data@.len() implies wf_val(
                            val_view(#[trigger] node.data@[j].1),
                            old(interp).nenvs(),
                            old(interp).natoms(),
                        ) by {
                            assert(crate::env::bind_sourced(
                                val_view(node.data@[j].1),
                                seq_view(args@),
                            ));
                            let dv = val_view(node.data@[j].1);
                            if exists|k: int|
                                0 <= k < seq_view(args@).len() && dv == seq_view(args@)[k] {
                                let k = choose|k: int|
                                    0 <= k < seq_view(args@).len() && dv == seq_view(args@)[k];
                                assert(seq_view(args@)[k] == val_view(args@[k]));
                            } else {
                                let k = choose|k: int|
                                    0 <= k <= seq_view(args@).len() && dv == ValView::List(
                                        seq_view(args@).skip(k),
                                    );
                                assert forall|q: int|
                                    0 <= q < seq_view(args@).skip(k).len() implies wf_val(
                                    #[trigger] seq_view(args@).skip(k)[q],
                                    old(interp).nenvs(),
                                    old(interp).natoms(),
                                ) by {
                                    assert(seq_view(args@).skip(k)[q] == seq_view(args@)[k + q]);
                                    assert(seq_view(args@)[k + q] == val_view(args@[k + q]));
                                }
                                crate::types::lemma_wf_seq(
                                    seq_view(args@).skip(k),
                                    old(interp).nenvs(),
                                    old(interp).natoms(),
                                );
                            }
                        }
                    }
                    let fn_env = interp.push_env(node);
                    let body = (*fn_ast).clone();
                    proof {
                        crate::types::lemma_wf_val_grow(
                            val_view(*fn_ast),
                            old(interp).nenvs(),
                            old(interp).natoms(),
                            interp.nenvs(),
                            interp.natoms(),
                        );
                    }
                    if tco {
                        Ok(MalExpression::Tco(Box::new(body), fn_env))
                    } else {
                        EVAL(interp, body, fn_env, fuel - 1)
                    }
                },
                Err(e) => Err(MalExpression::String(e)),
            }
        },
        (_, _) => Err(
            MalExpression::String("apply_fnfunction called with invalid arguments".to_owned()),
        ),
    }
}

/// Apply any callable value to already-evaluated arguments.
pub fn apply_callable(
    interp: &mut Interp,
    func: MalExpression,
    fargs: Vec<MalExpression>,
    fuel: u32,
) -> (r: EvalRet)
    requires
        interp_wf(*old(interp)),
        wf_val(val_view(func), old(interp).nenvs(), old(interp).natoms()),
        forall|j: int|
            0 <= j < fargs@.len() ==> wf_val(
                val_view(#[trigger] fargs@[j]),
                old(interp).nenvs(),
                old(interp).natoms(),
            ),
    ensures
        evolves(*old(interp), *final(interp)),
        ret_wf(r, *final(interp)),
        no_tco_ok(r),
        fuel >= 1 && !((val_view(func) matches ValView::FnFunction { .. }) || (val_view(func)
            matches ValView::RustFunction(_))) ==> (r matches Err(p) && val_view(p)
            == ValView::Str("cannot apply with non-function"@)),
        fuel >= 2 ==> (match val_view(func) {
            ValView::RustFunction(g) => (match crate::natives::native_result(
                g,
                seq_view(fargs@),
            ) {
                Some(res) => *final(interp) == *old(interp) && (match res {
                    Ok(sv) => r matches Ok(v) && val_view(v) == sv,
                    Err(sp) => r matches Err(p) && val_view(p) == sp,
                }),
                None => true,
            }),
            _ => true,
        }),
    decreases fuel, 4int,
{
    if fuel == 0 {
        return Err(MalExpression::String("evaluation depth limit exceeded".to_owned()));
    }
    proof {
        seq_view_props(fargs@);
        crate::types::lemma_view_cases(func);
    }
    match &func {
        MalExpression::FnFunction { .. } => {
            proof {
                assert forall|j: int| 0 <= j < seq_view(fargs@).len() implies wf_val(
                    #[trigger] seq_view(fargs@)[j],
                    old(interp).nenvs(),
                    old(interp).natoms(),
                ) by {
                    assert(seq_view(fargs@)[j] == val_view(fargs@[j]));
                }
                crate::types::lemma_wf_seq(
                    seq_view(fargs@),
                    old(interp).nenvs(),
                    old(interp).natoms(),
                );
                assert(wf_val(
                    val_view(MalExpression::List(fargs)),
                    old(interp).nenvs(),
                    old(interp).natoms(),
                ));
            }
            apply_fnfunction(interp, func, MalExpression::List(fargs), false, fuel - 1)
        },
        MalExpression::RustFunction(g) => {
            let g2 = *g;
            call_native(interp, g2, fargs, fuel - 1)
        },
        _ => Err(MalExpression::String("cannot apply with non-function".to_owned())),
    }
}

/// `(swap! atom f args...)`: apply `f` to the atom's current value and the
/// extra arguments, store the result in the atom, and return it.
#[verifier::loop_isolation(false)]
pub fn eval_swap(interp: &mut Interp, args: Vec<MalExpression>, fuel: u32) -> (r: EvalRet)
    requires
        interp_wf(*old(interp)),
        forall|j: int|
            0 <= j < args@.len() ==> wf_val(
                val_view(#[trigger] args@[j]),
                old(interp).nenvs(),
                old(interp).natoms(),
            ),
    ensures
        evolves(*old(interp), *final(interp)),
        ret_wf(r, *final(interp)),
        no_tco_ok(r),
        fuel >= 1 && (args@.len() < 2 || !(seq_view(args@)[0] matches ValView::Atom(_))) ==> ((r
            matches Err(p) && val_view(p) == ValView::Str("swap! -- bad arguments"@))
            && *final(interp) == *old(interp)),
        r matches Ok(v) ==> args@.len() >= 2 && (match seq_view(args@)[0] {
            ValView::Atom(a) => a < final(interp).atoms@.len() && val_view(
                final(interp).atoms@[a as int],
            ) == val_view(v),
            _ => false,
        }),
        fuel >= 3 && args@.len() >= 2 ==> (match (seq_view(args@)[0], seq_view(args@)[1]) {
            (ValView::Atom(a), ValView::RustFunction(g)) => a < old(interp).atoms@.len() ==> (
            match crate::natives::native_result(
                g,
                seq![val_view(old(interp).atoms@[a as int])] + seq_view(args@).skip(2),
            ) {
                Some(res) => (match res {
                    Ok(sv) => {
                        &&& r matches Ok(v) && val_view(v) == sv
                        &&& final(interp).atoms@.len() == old(interp).atoms@.len()
                        &&& val_view(final(interp).atoms@[a as int]) == sv
                        &&& forall|j: int|
                            0 <= j < old(interp).atoms@.len() && j != a
                                ==> #[trigger] final(interp).atoms@[j] == old(interp).atoms@[j]
                        &&& final(interp).envs@ == old(interp).envs@
                    },
                    Err(sp) => r matches Err(p) && val_view(p) == sp
                        && *final(interp) == *old(interp),
                }),
                None => true,
            }),
            _ => true,
        }),
    decreases fuel, 5int,
{
    if fuel == 0 {
        return Err(MalExpression::String("evaluation depth limit exceeded".to_owned()));
    }
    proof {
        seq_view_props(args@);
        if args@.len() > 0 {
            crate::types::lemma_view_cases(args@[0]);
        }
    }
    if args.len() < 2 {
        return Err(MalExpression::String("swap! -- bad arguments".to_owned()));
    }
    match &args[0] {
        MalExpression::Atom(a) => {
            let ai = *a;
            let old_val = interp.atom_get(ai);
            let mut fargs: Vec<MalExpression> = Vec::new();
            fargs.push(old_val);
            let n = args.len();
            let mut i: usize = 2;
            while i < n
                invariant
                    2 <= i <= n,
                    n == args@.len(),
                    ai < old(interp).atoms@.len(),
                    fargs@.len() == i - 1,
                    val_view(fargs@[0]) == val_view(old(interp).atoms@[ai as int]),
                    forall|j: int|
                        1 <= j < fargs@.len() ==> val_view(#[trigger] fargs@[j]) == seq_view(
                            args@,
                        )[j + 1],
                    forall|j: int|
                        0 <= j < fargs@.len() ==> wf_val(
                            val_view(#[trigger] fargs@[j]),
                            old(interp).nenvs(),
                            old(interp).natoms(),
                        ),
                decreases n - i,
            {
                proof {
                    assert(wf_val(
                        val_view(args@[i as int]),
                        old(interp).nenvs(),
                        old(interp).natoms(),
                    ));
                    assert(seq_view(args@)[i as int] == val_view(args@[i as int]));
                }
                fargs.push(args[i].clone());
                i = i + 1;
            }
            proof {
                seq_view_props(fargs@);
                lemma_seq_view_skip(args@, 2);
                assert forall|j: int| 0 <= j < fargs@.len() implies #[trigger] seq_view(
                    fargs@,
                )[j] == (seq![val_view(old(interp).atoms@[ai as int])] + seq_view(args@).skip(
                    2,
                ))[j] by {
                    assert(seq_view(fargs@)[j] == val_view(fargs@[j]));
                    if j >= 1 {
                        assert(seq_view(args@).skip(2)[j - 1] == seq_view(args@)[j + 1]);
                    }
                }
                assert(seq_view(fargs@) =~= seq![val_view(old(interp).atoms@[ai as int])]
                    + seq_view(args@).skip(2));
            }
            let f = args[1].clone();
            proof {
                crate::types::lemma_view_cases(args@[1]);
                assert(seq_view(args@)[1] == val_view(args@[1]));
            }
            match apply_callable(interp, f, fargs, fuel - 1) {
                Ok(replacement) => {
                    let copy = replacement.clone();
                    interp.atom_set(ai, copy);
                    Ok(replacement)
                },
                Err(p) => Err(p),
            }
        },
        _ => Err(MalExpression::String("swap! -- bad arguments".to_owned())),
    }
}

/// The argument convention of `apply` and `map`: the arguments between the
/// function and the final list, followed by that list's elements.
#[verifier::loop_isolation(false)]
pub fn collect_apply_eval_args(
    args: &Vec<MalExpression>,
    Ghost(ne): Ghost<nat>,
    Ghost(na): Ghost<nat>,
) -> (r: Result<Vec<MalExpression>, MalExpression>)
    requires
        args@.len() >= 1,
        forall|j: int| 0 <= j < args@.len() ==> wf_val(val_view(#[trigger] args@[j]), ne, na),
    ensures
        match r {
            Ok(vs) => forall|j: int|
                0 <= j < vs@.len() ==> wf_val(val_view(#[trigger] vs@[j]), ne, na),
            Err(p) => wf_val(val_view(p), ne, na),
        },
{
    proof {
        seq_view_props(args@);
        crate::types::lemma_view_cases(args@[args@.len() - 1]);
    }
    let n = args.len();
    match &args[n - 1] {
        MalExpression::List(l) | MalExpression::Vector(l) => {
            proof {
                seq_view_props(l@);
            }
            let mut out: Vec<MalExpression> = Vec::new();
            proof {
                crate::types::lemma_wf_seq(seq_view(l@), ne, na);
            }
            let mut i: usize = 1;
            while i < n - 1
                invariant
                    1 <= i,
                    i <= n - 1 || i == 1,
                    n == args@.len(),
                    forall|j: int|
                        0 <= j < out@.len() ==> wf_val(val_view(#[trigger] out@[j]), ne, na),
                decreases n - i,
            {
                proof {
                    assert(wf_val(val_view(args@[i as int]), ne, na));
                }
                out.push(args[i].clone());
                i = i + 1;
            }
            let m = l.len();
            let mut k: usize = 0;
            while k < m
                invariant
                    0 <= k <= m,
                    m == l@.len(),
                    forall|j: int|
                        0 <= j < out@.len() ==> wf_val(val_view(#[trigger] out@[j]), ne, na),
                decreases m - k,
            {
                proof {
                    assert(seq_view(l@)[k as int] == val_view(l@[k as int]));
                    assert(wf_val(seq_view(l@)[k as int], ne, na));
                }
                out.push(l[k].clone());
                k = k + 1;
            }
            Ok(out)
        },
        _ => Err(
            MalExpression::String(
                "apply/eval functions require last argument to be a list".to_owned(),
            ),
        ),
    }
}

/// Concatenating well-formed sequences of values gives well-formed values.
pub proof fn lemma_concat_wf(s: Seq<ValView>, ne: nat, na: nat)
    requires
        forall|i: int| 0 <= i < s.len() ==> wf_val(#[trigger] s[i], ne, na),
    ensures
        crate::types::wf_seq(crate::natives::concat_spec(s), ne, na),
    decreases s.len(),
{
    crate::types::lemma_wf_seq(crate::natives::concat_spec(s), ne, na);
    if s.len() == 0 {
    } else {
        assert forall|i: int| 0 <= i < s.skip(1).len() implies wf_val(
            #[trigger] s.skip(1)[i],
            ne,
            na,
        ) by {
            assert(s.skip(1)[i] == s[i + 1]);
        }
        lemma_concat_wf(s.skip(1), ne, na);
        let rest = crate::natives::concat_spec(s.skip(1));
        crate::types::lemma_wf_seq(rest, ne, na);
        match crate::natives::seq_of_val(s[0]) {
            Some(l) => {
                assert(wf_val(s[0], ne, na));
                crate::types::lemma_wf_seq(l, ne, na);
                assert forall|q: int| 0 <= q < (l + rest).len() implies wf_val(
                    #[trigger] (l + rest)[q],
                    ne,
                    na,
                ) by {
                    if q < l.len() {
                        assert((l + rest)[q] == l[q]);
                    } else {
                        assert((l + rest)[q] == rest[q - l.len()]);
                    }
                }
                crate::types::lemma_wf_seq(l + rest, ne, na);
            },
            None => {},
        }
    }
}

/// Dispatch a primitive call on the already evaluated arguments.
#[verifier::loop_isolation(false)]
pub fn call_native(
    interp: &mut Interp,
    f: crate::types::NativeFn,
    args: Vec<MalExpression>,
    fuel: u32,
) -> (r: EvalRet)
    requires
        interp_wf(*old(interp)),
        forall|j: int|
            0 <= j < args@.len() ==> wf_val(
                val_view(#[trigger] args@[j]),
                old(interp).nenvs(),
                old(interp).natoms(),
            ),
    ensures
        evolves(*old(interp), *final(interp)),
        ret_wf(r, *final(interp)),
        no_tco_ok(r),
        fuel >= 1 ==> (match crate::natives::native_result(f, seq_view(args@)) {
            Some(res) => *final(interp) == *old(interp) && (match res {
                Ok(sv) => r matches Ok(v) && val_view(v) == sv,
                Err(sp) => r matches Err(p) && val_view(p) == sp,
            }),
            None => true,
        }),
        fuel >= 1 && (f == crate::types::NativeFn::Prn || f == crate::types::NativeFn::PrintlnFn)
            ==> (r matches Ok(v) && val_view(v) == ValView::Nil && final(interp).out@.len() == old(
            interp,
        ).out@.len() + 1 && final(interp).out@.last()@ == crate::printer::join_with(
            seq_view(args@),
            f == crate::types::NativeFn::Prn,
            " "@,
        )),
        fuel >= 1 && f == crate::types::NativeFn::DerefFn && args@.len() > 0 ==> (
        match seq_view(args@)[0] {
            ValView::Atom(a) => (a < old(interp).atoms@.len() && !(val_view(
                old(interp).atoms@[a as int],
            ) matches ValView::Tco(..))) ==> (r matches Ok(v) && val_view(v) == val_view(
                old(interp).atoms@[a as int],
            ) && *final(interp) == *old(interp)),
            _ => true,
        }),
        fuel >= 1 && f == crate::types::NativeFn::AtomFn && args@.len() > 0 ==> (r matches Ok(v)
            && val_view(v) == ValView::Atom(old(interp).natoms()) && final(interp).atoms@.len()
            == old(interp).atoms@.len() + 1 && val_view(final(interp).atoms@.last()) == seq_view(
            args@,
        )[0]),
    decreases fuel, 7int,
{
    if fuel == 0 {
        return Err(MalExpression::String("evaluation depth limit exceeded".to_owned()));
    }
    proof {
        seq_view_props(args@);
        if args@.len() > 0 {
            crate::types::lemma_view_cases(args@[0]);
        }
        if args@.len() > 1 {
            crate::types::lemma_view_cases(args@[1]);
        }
    }
    match f {
        crate::types::NativeFn::Plus => crate::natives::plus(&args),
        crate::types::NativeFn::Minus => crate::natives::minus(&args),
        crate::types::NativeFn::Times => crate::natives::times(&args),
        crate::types::NativeFn::IntDivide => crate::natives::int_divide(&args),
        crate::types::NativeFn::LessThan => crate::natives::less_than(&args),
        crate::types::NativeFn::LessThanEquals => crate::natives::less_than_equals(&args),
        crate::types::NativeFn::MoreThan => crate::natives::more_than(&args),
        crate::types::NativeFn::MoreThanEquals => crate::natives::more_than_equals(&args),
        crate::types::NativeFn::ListFn => {
            proof {
                assert forall|j: int| 0 <= j < seq_view(args@).len() implies wf_val(
                    #[trigger] seq_view(args@)[j],
                    old(interp).nenvs(),
                    old(interp).natoms(),
                ) by {
                    assert(seq_view(args@)[j] == val_view(args@[j]));
                }
                crate::types::lemma_wf_seq(
                    seq_view(args@),
                    old(interp).nenvs(),
                    old(interp).natoms(),
                );
            }
            crate::natives::list(args)
        },
        crate::types::NativeFn::ListQ => crate::natives::list_q(&args),
        crate::types::NativeFn::EmptyQ => crate::natives::empty_q(&args),
        crate::types::NativeFn::Count => crate::natives::count(&args),
        crate::types::NativeFn::Equal => crate::natives::equal(&args),
        crate::types::NativeFn::PrStrFn => crate::natives::pr_dash_str(&args),
        crate::types::NativeFn::StrFn => crate::natives::str_fn(&args),
        crate::types::NativeFn::Prn => crate::natives::print_line(interp, &args, true),
        crate::types::NativeFn::PrintlnFn => crate::natives::print_line(interp, &args, false),
        crate::types::NativeFn::ReadStringFn => {
            let res0 = crate::natives::read_dash_string(&args);
            proof {
                match &res0 {
                    Ok(v0) => {
                        crate::types::lemma_view_cases(*v0);
                    },
                    Err(_) => {},
                }
            }
            let res = ensure_value(res0);
            proof {
                match &res {
                    Ok(v) => {
                        crate::types::lemma_wf_val_grow(
                            val_view(*v),
                            0,
                            0,
                            interp.nenvs(),
                            interp.natoms(),
                        );
                    },
                    Err(_) => {},
                }
            }
            res
        },
        crate::types::NativeFn::AtomFn => crate::natives::atom(interp, &args),
        crate::types::NativeFn::AtomQ => crate::natives::atom_q(&args),
        crate::types::NativeFn::DerefFn => ensure_value(crate::natives::deref(interp, &args)),
        crate::types::NativeFn::Reset => ensure_value(crate::natives::reset(interp, &args)),
        crate::types::NativeFn::Swap => eval_swap(interp, args, fuel - 1),
        crate::types::NativeFn::ConsFn => {
            let res = crate::natives::cons(&args);
            proof {
                match &res {
                    Ok(v) => {
                        match seq_view(args@)[1] {
                            ValView::List(l) | ValView::Vector(l) => {
                                crate::types::lemma_wf_seq(
                                    l,
                                    old(interp).nenvs(),
                                    old(interp).natoms(),
                                );
                                assert forall|q: int|
                                    0 <= q < (seq![seq_view(args@)[0]] + l).len() implies wf_val(
                                    #[trigger] (seq![seq_view(args@)[0]] + l)[q],
                                    old(interp).nenvs(),
                                    old(interp).natoms(),
                                ) by {
                                    if q == 0 {
                                        assert((seq![seq_view(args@)[0]] + l)[0] == seq_view(
                                            args@,
                                        )[0]);
                                    } else {
                                        assert((seq![seq_view(args@)[0]] + l)[q] == l[q - 1]);
                                    }
                                }
                                crate::types::lemma_wf_seq(
                                    seq![seq_view(args@)[0]] + l,
                                    old(interp).nenvs(),
                                    old(interp).natoms(),
                                );
                            },
                            _ => {},
                        }
                    },
                    Err(_) => {},
                }
            }
            res
        },
        crate::types::NativeFn::ConcatFn => {
            let res = crate::natives::concat(&args);
            proof {
                match &res {
                    Ok(v) => {
                        assert forall|j: int| 0 <= j < seq_view(args@).len() implies wf_val(
                            #[trigger] seq_view(args@)[j],
                            old(interp).nenvs(),
                            old(interp).natoms(),
                        ) by {
                            assert(seq_view(args@)[j] == val_view(args@[j]));
                        }
                        lemma_concat_wf(
                            seq_view(args@),
                            old(interp).nenvs(),
                            old(interp).natoms(),
                        );
                    },
                    Err(_) => {},
                }
            }
            res
        },
        crate::types::NativeFn::Nth => {
            let res0 = crate::natives::nth(&args);
            proof {
                match &res0 {
                    Ok(v0) => {
                        crate::types::lemma_view_cases(*v0);
                        match crate::natives::seq_of_val(seq_view(args@)[0]) {
                            Some(l) => {
                                crate::types::lemma_wf_seq(
                                    l,
                                    old(interp).nenvs(),
                                    old(interp).natoms(),
                                );
                            },
                            None => {},
                        }
                    },
                    Err(_) => {},
                }
            }
            ensure_value(res0)
        },
        crate::types::NativeFn::FirstFn => {
            let res0 = crate::natives::first(&args);
            proof {
                match &res0 {
                    Ok(v0) => {
                        crate::types::lemma_view_cases(*v0);
                        match crate::natives::seq_of_val(seq_view(args@)[0]) {
                            Some(l) => {
                                crate::types::lemma_wf_seq(
                                    l,
                                    old(interp).nenvs(),
                                    old(interp).natoms(),
                                );
                            },
                            None => {},
                        }
                    },
                    Err(_) => {},
                }
            }
            ensure_value(res0)
        },
        crate::types::NativeFn::RestFn => {
            let res = crate::natives::rest(&args);
            proof {
                match &res {
                    Ok(v) => {
                        match crate::natives::seq_of_val(seq_view(args@)[0]) {
                            Some(l) => {
                                crate::types::lemma_wf_seq(
                                    l,
                                    old(interp).nenvs(),
                                    old(interp).natoms(),
                                );
                                if l.len() > 0 {
                                    assert forall|q: int| 0 <= q < l.skip(1).len() implies wf_val(
                                        #[trigger] l.skip(1)[q],
                                        old(interp).nenvs(),
                                        old(interp).natoms(),
                                    ) by {
                                        assert(l.skip(1)[q] == l[q + 1]);
                                    }
                                    crate::types::lemma_wf_seq(
                                        l.skip(1),
                                        old(interp).nenvs(),
                                        old(interp).natoms(),
                                    );
                                } else {
                                    crate::types::lemma_wf_seq(
                                        Seq::<ValView>::empty(),
                                        old(interp).nenvs(),
                                        old(interp).natoms(),
                                    );
                                }
                            },
                            None => {
                                crate::types::lemma_wf_seq(
                                    Seq::<ValView>::empty(),
                                    old(interp).nenvs(),
                                    old(interp).natoms(),
                                );
                            },
                        }
                    },
                    Err(_) => {},
                }
            }
            res
        },
        crate::types::NativeFn::Throw => {
            let res = crate::natives::throw(&args);
            proof {
                if args@.len() > 0 {
                    assert(seq_view(args@)[0] == val_view(args@[0]));
                }
            }
            res
        },
        crate::types::NativeFn::SymbolQ => crate::natives::symbol_q(&args),
        crate::types::NativeFn::NilQ => crate::natives::nil_q(&args),
        crate::types::NativeFn::TrueQ => crate::natives::true_q(&args),
        crate::types::NativeFn::FalseQ => crate::natives::false_q(&args),
        crate::types::NativeFn::ApplyFn => {
            if args.len() == 0 {
                return Err(MalExpression::String("apply requires arguments".to_owned()));
            }
            match collect_apply_eval_args(
                &args,
                Ghost(old(interp).nenvs()),
                Ghost(old(interp).natoms()),
            ) {
                Ok(fargs) => {
                    let func = args[0].clone();
                    apply_callable(interp, func, fargs, fuel - 1)
                },
                Err(p) => Err(p),
            }
        },
        crate::types::NativeFn::MapFn => {
            if args.len() == 0 {
                return Err(MalExpression::String("map requires arguments".to_owned()));
            }
            match collect_apply_eval_args(
                &args,
                Ghost(old(interp).nenvs()),
                Ghost(old(interp).natoms()),
            ) {
                Ok(items) => {
                    let mut mapped: Vec<MalExpression> = Vec::new();
                    let n = items.len();
                    let mut i: usize = 0;
                    while i < n
                        invariant
                            0 <= i <= n,
                            n == items@.len(),
                            interp_wf(*interp),
                            old(interp).envs@.len() <= interp.envs@.len(),
                            old(interp).atoms@.len() <= interp.atoms@.len(),
                            forall|j: int|
                                0 <= j < items@.len() ==> wf_val(
                                    val_view(#[trigger] items@[j]),
                                    old(interp).nenvs(),
                                    old(interp).natoms(),
                                ),
                            forall|j: int|
                                0 <= j < args@.len() ==> wf_val(
                                    val_view(#[trigger] args@[j]),
                                    old(interp).nenvs(),
                                    old(interp).natoms(),
                                ),
                            forall|j: int|
                                0 <= j < mapped@.len() ==> wf_val(
                                    val_view(#[trigger] mapped@[j]),
                                    interp.nenvs(),
                                    interp.natoms(),
                                ),
                            fuel >= 1,
                        decreases n - i,
                    {
                        let ghost pre = *interp;
                        let func = args[0].clone();
                        let mut one: Vec<MalExpression> = Vec::new();
                        one.push(items[i].clone());
                        proof {
                            crate::types::lemma_wf_val_grow(
                                val_view(args@[0]),
                                old(interp).nenvs(),
                                old(interp).natoms(),
                                interp.nenvs(),
                                interp.natoms(),
                            );
                            crate::types::lemma_wf_val_grow(
                                val_view(items@[i as int]),
                                old(interp).nenvs(),
                                old(interp).natoms(),
                                interp.nenvs(),
                                interp.natoms(),
                            );
                        }
                        match apply_callable(interp, func, one, fuel - 1) {
                            Ok(v) => {
                                proof {
                                    assert forall|j: int| 0 <= j < mapped@.len() implies wf_val(
                                        val_view(#[trigger] mapped@[j]),
                                        interp.nenvs(),
                                        interp.natoms(),
                                    ) by {
                                        crate::types::lemma_wf_val_grow(
                                            val_view(mapped@[j]),
                                            pre.nenvs(),
                                            pre.natoms(),
                                            interp.nenvs(),
                                            interp.natoms(),
                                        );
                                    }
                                }
                                mapped.push(v);
                            },
                            Err(p) => {
                                return Err(p);
                            },
                        }
                        i = i + 1;
                    }
                    proof {
                        seq_view_props(mapped@);
                        assert forall|j: int| 0 <= j < seq_view(mapped@).len() implies wf_val(
                            #[trigger] seq_view(mapped@)[j],
                            interp.nenvs(),
                            interp.natoms(),
                        ) by {
                            assert(seq_view(mapped@)[j] == val_view(mapped@[j]));
                        }
                        crate::types::lemma_wf_seq(
                            seq_view(mapped@),
                            interp.nenvs(),
                            interp.natoms(),
                        );
                    }
                    Ok(MalExpression::List(mapped))
                },
                Err(p) => Err(p),
            }
        },
    }
}

/// One read-evaluate-print round: parse the line, evaluate it in the root
/// environment, and render the result; parse errors surface exactly.
pub fn rep(interp: &mut Interp, line: &str) -> (r: Result<String, String>)
    requires
        interp_wf(*old(interp)),
    ensures
        interp_wf(*final(interp)),
        crate::reader::spec_read_str(line@) matches Err(m) ==> (r matches Err(m2) && m2@ == m),
        r matches Ok(_) ==> crate::reader::spec_read_str(line@) is Ok,
        match crate::reader::spec_read_str(line@) {
            Ok(v) => (is_selfeval(v) || v == ValView::List(Seq::empty())) ==> (r matches Ok(s)
                && s@ == crate::printer::pr_spec(v, true) && *final(interp) == *old(interp)),
            Err(_) => true,
        },
        match crate::reader::spec_read_str(line@) {
            Ok(v) => (v == ValView::List(seq![ValView::Symbol("do"@)]) && !macro_headed(
                v,
                old(interp).envs@,
                0,
            )) ==> (r matches Ok(s) && s@ == crate::printer::pr_spec(ValView::Nil, true)
                && *final(interp) == *old(interp)),
            Err(_) => true,
        },
        match crate::reader::spec_read_str(line@) {
            Ok(v) => (match direct_native_call(old(interp).envs@, 0, v) {
                Some((g, argvs)) => (match crate::natives::native_result(g, argvs) {
                    Some(res) => *final(interp) == *old(interp) && (match res {
                        Ok(sv) => r matches Ok(s) && s@ == crate::printer::pr_spec(sv, true),
                        Err(sp) => r matches Err(m) && m@ == crate::printer::pr_spec(sp, false),
                    }),
                    None => true,
                }),
                None => true,
            }),
            Err(_) => true,
        },
{
    match READ(line) {
        Ok(ast) => {
            proof {
                crate::types::lemma_wf_val_grow(
                    val_view(ast),
                    0,
                    0,
                    old(interp).nenvs(),
                    old(interp).natoms(),
                );
            }
            let evaled = EVAL(interp, ast, 0, DEFAULT_FUEL);
            PRINT(evaled)
        },
        Err(m) => Err(m),
    }
}

} // verus!
