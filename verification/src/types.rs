//! The tagged value model: every datum the reader produces and the evaluator
//! consumes is a `MalExpression`. Environments and atom cells live in arenas
//! owned by the interpreter, so values refer to them by index; sharing a
//! closure or an atom means sharing the index, which gives shared mutable
//! cells their reference semantics without interior mutability.
//!
//! `ValView` is the mathematical model of a value: the same tree with `Seq`
//! in place of `Vec` and `Seq<char>` in place of `String`. Every contract in
//! the crate speaks about views.
use vstd::prelude::*;

verus! {

/// The built-in primitive functions that the root environment binds.
/// They form a closed set, so applying one is a plain dispatch.
#[derive(Debug, Clone, Copy, PartialEq, Eq, Structural)]
pub enum NativeFn {
    Plus,
    Minus,
    Times,
    IntDivide,
    LessThan,
    LessThanEquals,
    MoreThan,
    MoreThanEquals,
    ListFn,
    ListQ,
    EmptyQ,
    Count,
    Equal,
    PrStrFn,
    StrFn,
    Prn,
    PrintlnFn,
    ReadStringFn,
    AtomFn,
    AtomQ,
    DerefFn,
    Reset,
    Swap,
    ConsFn,
    ConcatFn,
    Nth,
    FirstFn,
    RestFn,
    Throw,
    SymbolQ,
    NilQ,
    TrueQ,
    FalseQ,
    ApplyFn,
    MapFn,
}

/// A callback into the evaluator itself, bound as the `eval` function:
/// applying it evaluates its argument in the top-level environment.
#[derive(Debug, Clone, Copy)]
pub struct Closure;

/// The tagged union of all runtime values.
///
/// `FnFunction` closures and `Tco` continuations hold the index of their
/// environment in the interpreter's environment arena; `Atom` holds the index
/// of its cell in the atom arena. `Tco` is the internal tail-call marker the
/// trampoline consumes; it is never printed and never stored in environments.
#[derive(Debug)]
#[verifier::ext_equal]
pub enum MalExpression {
    Symbol(String),
    Int(i32),
    List(Vec<MalExpression>),
    String(String),
    Keyword(String),
    Vector(Vec<MalExpression>),
    HashTable(Vec<MalExpression>),
    Boolean(bool),
    FnFunction { binds: Vec<MalExpression>, ast: Box<MalExpression>, outer_env: usize, is_macro: bool },
    Atom(usize),
    Tco(Box<MalExpression>, usize),
    RustFunction(NativeFn),
    RustClosure(Closure),
    Nil(),
}

/// The mathematical model of a value: the shape of a `MalExpression` with
/// sequences for vectors and character sequences for strings.
#[verifier::ext_equal]
pub enum ValView {
    Symbol(Seq<char>),
    Int(i32),
    List(Seq<ValView>),
    Str(Seq<char>),
    Keyword(Seq<char>),
    Vector(Seq<ValView>),
    HashTable(Seq<ValView>),
    Boolean(bool),
    FnFunction { binds: Seq<ValView>, ast: Box<ValView>, outer_env: nat, is_macro: bool },
    Atom(nat),
    Tco(Box<ValView>, nat),
    RustFunction(NativeFn),
    RustClosure,
    Nil,
}

/// The view of a single value.
pub open spec fn val_view(e: MalExpression) -> ValView
    decreases e,
{
    match e {
        MalExpression::Symbol(s) => ValView::Symbol(s@),
        MalExpression::Int(i) => ValView::Int(i),
        MalExpression::List(v) => ValView::List(seq_view(v@)),
        MalExpression::String(s) => ValView::Str(s@),
        MalExpression::Keyword(s) => ValView::Keyword(s@),
        MalExpression::Vector(v) => ValView::Vector(seq_view(v@)),
        MalExpression::HashTable(v) => ValView::HashTable(seq_view(v@)),
        MalExpression::Boolean(b) => ValView::Boolean(b),
        MalExpression::FnFunction { binds, ast, outer_env, is_macro } => ValView::FnFunction {
            binds: seq_view(binds@),
            ast: Box::new(val_view(*ast)),
            outer_env: outer_env as nat,
            is_macro,
        },
        MalExpression::Atom(a) => ValView::Atom(a as nat),
        MalExpression::Tco(b, env) => ValView::Tco(Box::new(val_view(*b)), env as nat),
        MalExpression::RustFunction(f) => ValView::RustFunction(f),
        MalExpression::RustClosure(_) => ValView::RustClosure,
        MalExpression::Nil() => ValView::Nil,
    }
}

/// The views of a sequence of values, elementwise.
pub open spec fn seq_view(s: Seq<MalExpression>) -> Seq<ValView>
    decreases s,
{
    if s.len() == 0 {
        Seq::empty()
    } else {
        seq_view(s.drop_last()).push(val_view(s.last()))
    }
}

/// `seq_view` is the elementwise map of `val_view`.
pub broadcast proof fn seq_view_props(s: Seq<MalExpression>)
    ensures
        (#[trigger] seq_view(s)).len() == s.len(),
        forall|i: int| 0 <= i < s.len() ==> seq_view(s)[i] == val_view(#[trigger] s[i]),
    decreases s,
{
    if s.len() > 0 {
        seq_view_props(s.drop_last());
        assert forall|i: int| 0 <= i < s.len() implies seq_view(s)[i] == val_view(
            #[trigger] s[i],
        ) by {
            if i < s.len() - 1 {
                assert(s.drop_last()[i] == s[i]);
                assert(seq_view(s.drop_last())[i] == val_view(s.drop_last()[i]));
            } else {
                assert(s.last() == s[i]);
            }
        }
    }
}

/// Inversion of `val_view`: the shape of a value's view determines the
/// constructor of the value itself.
pub proof fn lemma_view_cases(e: MalExpression)
    ensures
        match val_view(e) {
            ValView::Symbol(s) => e matches MalExpression::Symbol(x) && x@ == s,
            ValView::Int(i) => e matches MalExpression::Int(j) && j == i,
            ValView::List(l) => e matches MalExpression::List(v) && seq_view(v@) == l,
            ValView::Str(s) => e matches MalExpression::String(x) && x@ == s,
            ValView::Keyword(s) => e matches MalExpression::Keyword(x) && x@ == s,
            ValView::Vector(l) => e matches MalExpression::Vector(v) && seq_view(v@) == l,
            ValView::HashTable(l) => e matches MalExpression::HashTable(v) && seq_view(v@) == l,
            ValView::Boolean(b) => e matches MalExpression::Boolean(c) && c == b,
            ValView::FnFunction { binds, ast, outer_env, is_macro } => e matches MalExpression::FnFunction { binds: bv, ast: av, outer_env: ov, is_macro: mv }
                && seq_view(bv@) == binds && val_view(*av) == *ast && ov as nat == outer_env
                && mv == is_macro,
            ValView::Atom(a) => e matches MalExpression::Atom(x) && x as nat == a,
            ValView::Tco(b, env) => e matches MalExpression::Tco(bx, ex) && val_view(*bx) == *b
                && ex as nat == env,
            ValView::RustFunction(f) => e matches MalExpression::RustFunction(g) && g == f,
            ValView::RustClosure => e matches MalExpression::RustClosure(c),
            ValView::Nil => e matches MalExpression::Nil(),
        },
{
    match e {
        MalExpression::Symbol(_) => {},
        MalExpression::Int(_) => {},
        MalExpression::List(_) => {},
        MalExpression::String(_) => {},
        MalExpression::Keyword(_) => {},
        MalExpression::Vector(_) => {},
        MalExpression::HashTable(_) => {},
        MalExpression::Boolean(_) => {},
        MalExpression::FnFunction { .. } => {},
        MalExpression::Atom(_) => {},
        MalExpression::Tco(_, _) => {},
        MalExpression::RustFunction(_) => {},
        MalExpression::RustClosure(_) => {},
        MalExpression::Nil() => {},
    }
}

/// `seq_view` commutes with `push`.
pub proof fn lemma_seq_view_push(s: Seq<MalExpression>, x: MalExpression)
    ensures
        seq_view(s.push(x)) == seq_view(s).push(val_view(x)),
{
    assert(s.push(x).drop_last() =~= s);
    assert(s.push(x).last() == x);
    assert(seq_view(s.push(x)) == seq_view(s).push(val_view(x)));
}

/// `seq_view` commutes with `skip`.
pub proof fn lemma_seq_view_skip(s: Seq<MalExpression>, i: int)
    requires
        0 <= i <= s.len(),
    ensures
        seq_view(s.skip(i)) == seq_view(s).skip(i),
{
    seq_view_props(s);
    seq_view_props(s.skip(i));
    assert forall|j: int| 0 <= j < s.len() - i implies seq_view(s.skip(i))[j] == #[trigger] seq_view(
        s,
    ).skip(i)[j] by {
        assert(s.skip(i)[j] == s[i + j]);
        assert(seq_view(s.skip(i))[j] == val_view(s.skip(i)[j]));
        assert(seq_view(s)[i + j] == val_view(s[i + j]));
    }
    assert(seq_view(s.skip(i)) =~= seq_view(s).skip(i));
}

impl View for MalExpression {
    type V = ValView;

    open spec fn view(&self) -> ValView {
        val_view(*self)
    }
}

impl DeepView for MalExpression {
    type V = ValView;

    open spec fn deep_view(&self) -> ValView {
        val_view(*self)
    }
}

/// A value is well formed with respect to arena sizes when every environment
/// index and atom index it carries points inside the arenas.
pub open spec fn wf_val(v: ValView, nenvs: nat, natoms: nat) -> bool
    decreases v,
{
    match v {
        ValView::List(s) => wf_seq(s, nenvs, natoms),
        ValView::Vector(s) => wf_seq(s, nenvs, natoms),
        ValView::HashTable(s) => wf_seq(s, nenvs, natoms),
        ValView::FnFunction { binds, ast, outer_env, is_macro } => {
            &&& outer_env < nenvs
            &&& wf_val(*ast, nenvs, natoms)
            &&& wf_seq(binds, nenvs, natoms)
        },
        ValView::Atom(a) => a < natoms,
        ValView::Tco(b, env) => env < nenvs && wf_val(*b, nenvs, natoms),
        _ => true,
    }
}

/// Elementwise well-formedness of a sequence of values.
pub open spec fn wf_seq(s: Seq<ValView>, nenvs: nat, natoms: nat) -> bool
    decreases s,
{
    if s.len() == 0 {
        true
    } else {
        wf_seq(s.drop_last(), nenvs, natoms) && wf_val(s.last(), nenvs, natoms)
    }
}

/// `wf_seq` holds exactly when every element is well formed.
pub proof fn lemma_wf_seq(s: Seq<ValView>, nenvs: nat, natoms: nat)
    ensures
        wf_seq(s, nenvs, natoms) <==> (forall|i: int|
            0 <= i < s.len() ==> wf_val(#[trigger] s[i], nenvs, natoms)),
    decreases s.len(),
{
    if s.len() > 0 {
        lemma_wf_seq(s.drop_last(), nenvs, natoms);
        assert(s.last() == s[s.len() - 1]);
        if wf_seq(s, nenvs, natoms) {
            assert forall|i: int| 0 <= i < s.len() implies wf_val(
                #[trigger] s[i],
                nenvs,
                natoms,
            ) by {
                if i < s.len() - 1 {
                    assert(s.drop_last()[i] == s[i]);
                }
            }
        }
        if forall|i: int| 0 <= i < s.len() ==> wf_val(#[trigger] s[i], nenvs, natoms) {
            assert forall|i: int| 0 <= i < s.drop_last().len() implies wf_val(
                #[trigger] s.drop_last()[i],
                nenvs,
                natoms,
            ) by {
                assert(s.drop_last()[i] == s[i]);
            }
        }
    }
}

/// Well-formedness only ever asks that indices lie inside the arenas, so
/// growing the arenas preserves it.
pub proof fn lemma_wf_val_grow(v: ValView, n1: nat, m1: nat, n2: nat, m2: nat)
    requires
        wf_val(v, n1, m1),
        n1 <= n2,
        m1 <= m2,
    ensures
        wf_val(v, n2, m2),
    decreases v,
{
    match v {
        ValView::List(s) | ValView::Vector(s) | ValView::HashTable(s) => {
            lemma_wf_seq_grow(s, n1, m1, n2, m2);
        },
        ValView::FnFunction { binds, ast, outer_env, is_macro } => {
            lemma_wf_val_grow(*ast, n1, m1, n2, m2);
            lemma_wf_seq_grow(binds, n1, m1, n2, m2);
        },
        ValView::Tco(b, env) => {
            lemma_wf_val_grow(*b, n1, m1, n2, m2);
        },
        _ => {},
    }
}

/// Growing the arenas preserves sequence well-formedness.
pub proof fn lemma_wf_seq_grow(s: Seq<ValView>, n1: nat, m1: nat, n2: nat, m2: nat)
    requires
        wf_seq(s, n1, m1),
        n1 <= n2,
        m1 <= m2,
    ensures
        wf_seq(s, n2, m2),
    decreases s,
{
    if s.len() > 0 {
        lemma_wf_seq_grow(s.drop_last(), n1, m1, n2, m2);
        lemma_wf_val_grow(s.last(), n1, m1, n2, m2);
    }
}

/// Structural equality as the `=` primitive sees it: lists and vectors
/// compare as the same kind of sequence; functions, atoms and continuations
/// are never equal to anything.
pub open spec fn val_eq(a: ValView, b: ValView) -> bool
    decreases a,
{
    match a {
        ValView::Symbol(x) => b matches ValView::Symbol(y) && x == y,
        ValView::Int(x) => b matches ValView::Int(y) && x == y,
        ValView::Str(x) => b matches ValView::Str(y) && x == y,
        ValView::Keyword(x) => b matches ValView::Keyword(y) && x == y,
        ValView::Boolean(x) => b matches ValView::Boolean(y) && x == y,
        ValView::List(x) | ValView::Vector(x) => match b {
            ValView::List(y) | ValView::Vector(y) => seq_val_eq(x, y),
            _ => false,
        },
        ValView::HashTable(x) => b matches ValView::HashTable(y) && seq_val_eq(x, y),
        ValView::Nil => b matches ValView::Nil,
        _ => false,
    }
}

/// Elementwise `val_eq` over two sequences of the same length.
pub open spec fn seq_val_eq(a: Seq<ValView>, b: Seq<ValView>) -> bool
    decreases a,
{
    a.len() == b.len() && forall|i: int| 0 <= i < a.len() ==> val_eq(#[trigger] a[i], b[i])
}

impl MalExpression {
    /// Whether this value is the literal `nil`.
    pub fn is_nil(&self) -> (r: bool)
        ensures
            r == (self@ matches ValView::Nil),
    {
        if let MalExpression::Nil() = self {
            true
        } else {
            false
        }
    }

    /// Whether this value is the literal `false`.
    pub fn is_false(&self) -> (r: bool)
        ensures
            r == (self@ matches ValView::Boolean(x) && x == false),
    {
        match self {
            MalExpression::Boolean(x) => !*x,
            _ => false,
        }
    }

    /// Truthiness of an `if` condition: everything but `nil` and `false`
    /// counts as true, including `0` and the empty string.
    pub fn is_true_in_if(&self) -> (r: bool)
        ensures
            r == is_truthy(self@),
    {
        !(self.is_nil() || self.is_false())
    }

    /// The first element of a list, or `None` for an empty list or any
    /// non-list value.
    pub fn first(&self) -> (r: Option<&MalExpression>)
        ensures
            match r {
                Some(e) => self@ matches ValView::List(l) && l.len() > 0 && e@ == l[0],
                None => !(self@ matches ValView::List(l) && l.len() > 0),
            },
    {
        match self {
            MalExpression::List(l) => if l.len() > 0 {
                proof {
                    seq_view_props(l@);
                    assert(seq_view(l@)[0] == val_view(l@[0]));
                    assert(self@ == ValView::List(seq_view(l@)));
                }
                Some(&l[0])
            } else {
                proof {
                    seq_view_props(l@);
                }
                None
            },
            _ => {
                proof {
                    lemma_view_cases(*self);
                }
                None
            },
        }
    }

    /// Structural equality, the `=` primitive: returns exactly `val_eq`.
    pub fn equals(&self, other: &MalExpression) -> (r: bool)
        ensures
            r == val_eq(self@, other@),
        decreases *self,
    {
        match self {
            MalExpression::Symbol(x) => match other {
                MalExpression::Symbol(y) => *x == *y,
                _ => false,
            },
            MalExpression::Int(x) => match other {
                MalExpression::Int(y) => *x == *y,
                _ => false,
            },
            MalExpression::String(x) => match other {
                MalExpression::String(y) => *x == *y,
                _ => false,
            },
            MalExpression::Keyword(x) => match other {
                MalExpression::Keyword(y) => *x == *y,
                _ => false,
            },
            MalExpression::Boolean(x) => match other {
                MalExpression::Boolean(y) => *x == *y,
                _ => false,
            },
            MalExpression::List(x) | MalExpression::Vector(x) => match other {
                MalExpression::List(y) | MalExpression::Vector(y) => compare_vecs(x, y),
                _ => false,
            },
            MalExpression::HashTable(x) => match other {
                MalExpression::HashTable(y) => compare_vecs(x, y),
                _ => false,
            },
            MalExpression::Nil() => match other {
                MalExpression::Nil() => true,
                _ => false,
            },
            _ => false,
        }
    }
}

/// Truthiness of a value: everything but `nil` and `false` is true.
pub open spec fn is_truthy(v: ValView) -> bool {
    !((v matches ValView::Nil) || (v matches ValView::Boolean(b) && b == false))
}

/// Elementwise `equals` over two value vectors.
fn compare_vecs(a: &Vec<MalExpression>, b: &Vec<MalExpression>) -> (r: bool)
    ensures
        r == seq_val_eq(seq_view(a@), seq_view(b@)),
    decreases a,
{
    proof {
        seq_view_props(a@);
        seq_view_props(b@);
    }
    if a.len() != b.len() {
        return false;
    }
    let n = a.len();
    for i in 0..n
        invariant
            n == a@.len(),
            n == b@.len(),
            forall|j: int| 0 <= j < i ==> val_eq(val_view(#[trigger] a@[j]), val_view(b@[j])),
    {
        if !a[i].equals(&b[i]) {
            proof {
                seq_view_props(a@);
                seq_view_props(b@);
                assert(!val_eq(seq_view(a@)[i as int], seq_view(b@)[i as int]));
            }
            return false;
        }
    }
    proof {
        seq_view_props(a@);
        seq_view_props(b@);
        assert forall|k: int| 0 <= k < a@.len() implies val_eq(
            #[trigger] seq_view(a@)[k],
            seq_view(b@)[k],
        ) by {
            assert(seq_view(a@)[k] == val_view(a@[k]));
            assert(seq_view(b@)[k] == val_view(b@[k]));
        }
    }
    true
}

impl Clone for MalExpression {
    /// Deep copy; the clone has the same view as the original.
    fn clone(&self) -> (r: Self)
        ensures
            r@ == self@,
        decreases *self,
    {
        broadcast use seq_view_props;

        match self {
            MalExpression::Symbol(s) => MalExpression::Symbol(s.clone()),
            MalExpression::Int(i) => MalExpression::Int(*i),
            MalExpression::List(v) => MalExpression::List(clone_vec(v)),
            MalExpression::String(s) => MalExpression::String(s.clone()),
            MalExpression::Keyword(s) => MalExpression::Keyword(s.clone()),
            MalExpression::Vector(v) => MalExpression::Vector(clone_vec(v)),
            MalExpression::HashTable(v) => MalExpression::HashTable(clone_vec(v)),
            MalExpression::Boolean(b) => MalExpression::Boolean(*b),
            MalExpression::FnFunction { binds, ast, outer_env, is_macro } => {
                MalExpression::FnFunction {
                    binds: clone_vec(binds),
                    ast: Box::new((**ast).clone()),
                    outer_env: *outer_env,
                    is_macro: *is_macro,
                }
            },
            MalExpression::Atom(a) => MalExpression::Atom(*a),
            MalExpression::Tco(b, e) => MalExpression::Tco(Box::new((**b).clone()), *e),
            MalExpression::RustFunction(f) => MalExpression::RustFunction(*f),
            MalExpression::RustClosure(_) => MalExpression::RustClosure(Closure),
            MalExpression::Nil() => MalExpression::Nil(),
        }
    }
}

/// Deep copy of a value vector; the copy's elements have the originals' views.
pub fn clone_vec(v: &Vec<MalExpression>) -> (r: Vec<MalExpression>)
    ensures
        seq_view(r@) == seq_view(v@),
        r@.len() == v@.len(),
    decreases v,
{
    broadcast use seq_view_props;

    let mut r: Vec<MalExpression> = Vec::new();
    let n = v.len();
    for i in 0..n
        invariant
            n == v@.len(),
            r@.len() == i,
            forall|j: int| 0 <= j < i ==> val_view(#[trigger] r@[j]) == val_view(v@[j]),
    {
        r.push(v[i].clone());
    }
    proof {
        seq_view_props(r@);
        seq_view_props(v@);
        assert forall|j: int| 0 <= j < r@.len() implies seq_view(r@)[j] == #[trigger] seq_view(
            v@,
        )[j] by {
            assert(seq_view(r@)[j] == val_view(r@[j]));
            assert(seq_view(v@)[j] == val_view(v@[j]));
        }
        assert(seq_view(r@) =~= seq_view(v@));
    }
    r
}

/// The elements of a value vector, as a fresh vector with the same contents.
pub fn iterate_rc_vec(data: &Vec<MalExpression>) -> (r: Vec<MalExpression>)
    ensures
        seq_view(r@) == seq_view(data@),
        r@.len() == data@.len(),
{
    clone_vec(data)
}

/// Copy of the elements of a value vector from position `from` on.
pub fn vec_suffix(v: &Vec<MalExpression>, from: usize) -> (r: Vec<MalExpression>)
    requires
        from <= v@.len(),
    ensures
        seq_view(r@) == seq_view(v@).skip(from as int),
        r@.len() == v@.len() - from,
{
    let mut r: Vec<MalExpression> = Vec::new();
    let n = v.len();
    let mut i = from;
    while i < n
        invariant
            from <= i <= n,
            n == v@.len(),
            r@.len() == i - from,
            forall|j: int| 0 <= j < i - from ==> val_view(#[trigger] r@[j]) == val_view(
                v@[from + j],
            ),
        decreases n - i,
    {
        r.push(v[i].clone());
        i = i + 1;
    }
    proof {
        seq_view_props(r@);
        seq_view_props(v@);
        lemma_seq_view_skip(v@, from as int);
        assert forall|j: int| 0 <= j < r@.len() implies seq_view(r@)[j] == #[trigger] seq_view(
            v@.skip(from as int),
        )[j] by {
            seq_view_props(v@.skip(from as int));
            assert(v@.skip(from as int)[j] == v@[from + j]);
            assert(seq_view(r@)[j] == val_view(r@[j]));
            assert(seq_view(v@.skip(from as int))[j] == val_view(v@.skip(from as int)[j]));
        }
        assert(seq_view(r@) =~= seq_view(v@.skip(from as int)));
    }
    r
}

/// Relies on std's `String::push`, which vstd leaves unspecified: it appends
/// the given character to the end of the string.
pub assume_specification[ std::string::String::push ](s: &mut std::string::String, ch: char)
    ensures
        final(s)@ == old(s)@.push(ch),
;

/// The views of a sequence of strings, elementwise.
pub open spec fn strs_view(s: Seq<String>) -> Seq<Seq<char>> {
    s.map_values(|x: String| x@)
}

/// The characters of a string slice, as a vector.
pub fn str_to_chars(s: &str) -> (r: Vec<char>)
    ensures
        r@ == s@,
{
    let n = s.unicode_len();
    let mut r: Vec<char> = Vec::new();
    for i in 0..n
        invariant
            n == s@.len(),
            r@ == s@.take(i as int),
        decreases n - i,
    {
        r.push(s.get_char(i));
        proof {
            assert(s@.take(i as int + 1) =~= s@.take(i as int).push(s@[i as int]));
        }
    }
    proof {
        assert(s@.take(n as int) =~= s@);
    }
    r
}

/// A string holding the characters of `v` from `from` to `to`.
pub fn chars_range_to_string(v: &Vec<char>, from: usize, to: usize) -> (r: String)
    requires
        from <= to <= v@.len(),
    ensures
        r@ == v@.subrange(from as int, to as int),
{
    let mut r = String::new();
    let mut i = from;
    while i < to
        invariant
            from <= i <= to <= v@.len(),
            r@ == v@.subrange(from as int, i as int),
        decreases to - i,
    {
        r.push(v[i]);
        proof {
            assert(v@.subrange(from as int, i as int + 1) =~= v@.subrange(
                from as int,
                i as int,
            ).push(v@[i as int]));
        }
        i = i + 1;
    }
    r
}

/// Whether two string slices hold the same characters.
pub fn str_eq(a: &str, b: &str) -> (r: bool)
    ensures
        r == (a@ == b@),
{
    let la = a.unicode_len();
    let lb = b.unicode_len();
    if la != lb {
        return false;
    }
    let mut i: usize = 0;
    while i < la
        invariant
            la == a@.len(),
            la == b@.len(),
            0 <= i <= la,
            forall|j: int| 0 <= j < i ==> a@[j] == b@[j],
        decreases la - i,
    {
        if a.get_char(i) != b.get_char(i) {
            return false;
        }
        i = i + 1;
    }
    proof {
        assert(a@ =~= b@);
    }
    true
}

} // verus!
