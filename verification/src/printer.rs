//! The printer renders values back to concrete syntax. `pr_spec` is the
//! exact mathematical statement of the rendering: lists in parens, vectors
//! in brackets, tables in braces, elements joined by single spaces, strings
//! escaped only when printing readably, and opaque placeholders for
//! functions, atom cells and internal continuations.
use vstd::prelude::*;

use crate::types::MalExpression;
use crate::types::ValView;
use crate::types::val_view;
use crate::types::seq_view;
use crate::types::seq_view_props;

verus! {

/// One decimal digit as a character.
pub open spec fn dec_digit(d: nat) -> char {
    ((48 + d % 10) as u8) as char
}

/// The decimal digits of a natural number, most significant first.
pub open spec fn dec_digits(n: nat) -> Seq<char>
    decreases n,
{
    if n < 10 {
        seq![dec_digit(n)]
    } else {
        dec_digits(n / 10).push(dec_digit(n % 10))
    }
}

/// The decimal rendering of an integer, with a leading minus when negative.
pub open spec fn int_to_dec(i: int) -> Seq<char> {
    if i < 0 {
        seq!['-'] + dec_digits((-i) as nat)
    } else {
        dec_digits(i as nat)
    }
}

/// How one character appears inside a readably printed string literal.
pub open spec fn esc_char(c: char) -> Seq<char> {
    if c == '\\' {
        seq!['\\', '\\']
    } else if c == '"' {
        seq!['\\', '"']
    } else if c == '\n' {
        seq!['\\', 'n']
    } else {
        seq![c]
    }
}

/// A whole string body escaped for readable printing.
pub open spec fn escape_spec(s: Seq<char>) -> Seq<char>
    decreases s.len(),
{
    if s.len() == 0 {
        Seq::empty()
    } else {
        escape_spec(s.drop_last()) + esc_char(s.last())
    }
}

/// How a string value renders: quoted and escaped when readable, verbatim
/// otherwise.
pub open spec fn str_render_spec(s: Seq<char>, readable: bool) -> Seq<char> {
    if readable {
        seq!['"'] + escape_spec(s) + seq!['"']
    } else {
        s
    }
}

/// The rendering of a value.
pub open spec fn pr_spec(v: ValView, readable: bool) -> Seq<char>
    decreases v,
{
    match v {
        ValView::Int(i) => int_to_dec(i as int),
        ValView::Symbol(s) => s,
        ValView::Str(s) => str_render_spec(s, readable),
        ValView::Keyword(s) => seq![':'] + s,
        ValView::List(l) => seq!['('] + join_with(l, readable, " "@) + seq![')'],
        ValView::Vector(l) => seq!['['] + join_with(l, readable, " "@) + seq![']'],
        ValView::HashTable(l) => seq!['{'] + join_with(l, readable, " "@) + seq!['}'],
        ValView::Boolean(b) => if b {
            "true"@
        } else {
            "false"@
        },
        ValView::Nil => "nil"@,
        ValView::RustFunction(_) => "#<Rust function>"@,
        ValView::RustClosure => "#<Rust closure>"@,
        ValView::FnFunction { .. } => "#<fn* function>"@,
        ValView::Atom(_) => "#<atom>"@,
        ValView::Tco(..) => "#<TCO>"@,
    }
}

/// The renderings of a sequence of values, separated by `sep`.
pub open spec fn join_with(l: Seq<ValView>, readable: bool, sep: Seq<char>) -> Seq<char>
    decreases l,
{
    if l.len() == 0 {
        Seq::empty()
    } else if l.len() == 1 {
        pr_spec(l.last(), readable)
    } else {
        join_with(l.drop_last(), readable, sep) + sep + pr_spec(l.last(), readable)
    }
}

/// Render the elements of `items`, separated by `sep`, appended to `acc`.
pub fn join_into(acc: &mut String, items: &Vec<MalExpression>, readable: bool, sep: &str)
    ensures
        final(acc)@ == old(acc)@ + join_with(seq_view(items@), readable, sep@),
    decreases items,
{
    proof {
        seq_view_props(items@);
    }
    let n = items.len();
    let ghost base = acc@;
    for i in 0..n
        invariant
            n == items@.len(),
            acc@ == base + join_with(seq_view(items@).take(i as int), readable, sep@),
        decreases n - i,
    {
        let ghost pre = seq_view(items@).take(i as int);
        let ghost post = seq_view(items@).take(i as int + 1);
        if i > 0 {
            acc.append(sep);
        }
        let rendered = pr_str(&items[i], readable);
        acc.append(rendered.as_str());
        proof {
            seq_view_props(items@);
            assert(post.drop_last() =~= pre);
            assert(post.last() == seq_view(items@)[i as int]);
            assert(seq_view(items@)[i as int] == val_view(items@[i as int]));
            if i == 0 {
                assert(join_with(post, readable, sep@) == pr_spec(post.last(), readable));
            } else {
                assert(join_with(post, readable, sep@) == join_with(pre, readable, sep@) + sep@
                    + pr_spec(post.last(), readable));
            }
        }
    }
    proof {
        assert(seq_view(items@).take(n as int) =~= seq_view(items@));
    }
}

/// The decimal digits of `u`, most significant first.
fn dec_digits_exec(u: u32) -> (r: Vec<char>)
    ensures
        r@ == dec_digits(u as nat),
    decreases u,
{
    if u < 10 {
        let c: char = ((48 + (u % 10) as u8)) as char;
        let mut v: Vec<char> = Vec::new();
        v.push(c);
        proof {
            assert(v@ =~= seq![dec_digit(u as nat)]);
        }
        v
    } else {
        let mut v = dec_digits_exec(u / 10);
        let c: char = ((48 + (u % 10) as u8)) as char;
        v.push(c);
        v
    }
}

/// The decimal rendering of `i`.
pub fn int_to_string(i: i32) -> (r: String)
    ensures
        r@ == int_to_dec(i as int),
{
    let mut s = String::new();
    let u: u32 = if i < 0 {
        s.push('-');
        (-(i as i64)) as u32
    } else {
        i as u32
    };
    let digits = dec_digits_exec(u);
    let n = digits.len();
    let ghost base = s@;
    for j in 0..n
        invariant
            n == digits@.len(),
            digits@ == dec_digits(u as nat),
            s@ == base + digits@.take(j as int),
        decreases n - j,
    {
        s.push(digits[j]);
        proof {
            assert(digits@.take(j as int + 1) =~= digits@.take(j as int).push(digits@[j as int]));
        }
    }
    proof {
        assert(digits@.take(n as int) =~= digits@);
        if i < 0 {
            assert(s@ =~= seq!['-'] + dec_digits((-(i as int)) as nat));
        }
    }
    s
}

/// The body of a string value escaped for readable printing.
fn escape_exec(input: &str) -> (r: String)
    ensures
        r@ == escape_spec(input@),
{
    let n = input.unicode_len();
    let mut s = String::new();
    for i in 0..n
        invariant
            n == input@.len(),
            s@ == escape_spec(input@.take(i as int)),
        decreases n - i,
    {
        let ghost pre = input@.take(i as int);
        let ghost post = input@.take(i as int + 1);
        let c = input.get_char(i);
        if c == '\\' {
            s.push('\\');
            s.push('\\');
        } else if c == '"' {
            s.push('\\');
            s.push('"');
        } else if c == '\n' {
            s.push('\\');
            s.push('n');
        } else {
            s.push(c);
        }
        proof {
            assert(post.drop_last() =~= pre);
            assert(post.last() == input@[i as int]);
            assert(s@ =~= escape_spec(pre) + esc_char(input@[i as int]));
        }
    }
    proof {
        assert(input@.take(n as int) =~= input@);
    }
    s
}

/// Render a string body: quoted with escapes when printing readably, the
/// raw characters otherwise.
pub fn pr_str_slice(input_string: &str, print_readably: bool) -> (r: String)
    ensures
        r@ == str_render_spec(input_string@, print_readably),
{
    if print_readably {
        let mut s = String::new();
        s.push('"');
        let escaped = escape_exec(input_string);
        s.append(escaped.as_str());
        s.push('"');
        proof {
            assert(s@ =~= seq!['"'] + escape_spec(input_string@) + seq!['"']);
        }
        s
    } else {
        input_string.to_owned()
    }
}

/// Render a value as concrete syntax; `print_readably` controls whether
/// strings are quoted and escaped.
pub fn pr_str(expression: &MalExpression, print_readably: bool) -> (r: String)
    ensures
        r@ == pr_spec(expression@, print_readably),
    decreases expression,
{
    match expression {
        MalExpression::Int(i) => int_to_string(*i),
        MalExpression::Symbol(s) => s.clone(),
        MalExpression::String(s) => pr_str_slice(s.as_str(), print_readably),
        MalExpression::Keyword(s) => {
            let mut r = String::new();
            r.push(':');
            r.append(s.as_str());
            proof {
                assert(r@ =~= seq![':'] + s@);
            }
            r
        },
        MalExpression::List(l) => {
            let mut r = String::new();
            r.push('(');
            join_into(&mut r, l, print_readably, " ");
            r.push(')');
            proof {
                assert(r@ =~= seq!['('] + join_with(seq_view(l@), print_readably, " "@)
                    + seq![')']);
            }
            r
        },
        MalExpression::Vector(l) => {
            let mut r = String::new();
            r.push('[');
            join_into(&mut r, l, print_readably, " ");
            r.push(']');
            proof {
                assert(r@ =~= seq!['['] + join_with(seq_view(l@), print_readably, " "@)
                    + seq![']']);
            }
            r
        },
        MalExpression::HashTable(l) => {
            let mut r = String::new();
            r.push('{');
            join_into(&mut r, l, print_readably, " ");
            r.push('}');
            proof {
                assert(r@ =~= seq!['{'] + join_with(seq_view(l@), print_readably, " "@)
                    + seq!['}']);
            }
            r
        },
        MalExpression::Boolean(b) => if *b {
            String::from_str("true")
        } else {
            String::from_str("false")
        },
        MalExpression::Nil() => String::from_str("nil"),
        MalExpression::RustFunction(_) => String::from_str("#<Rust function>"),
        MalExpression::RustClosure(_) => String::from_str("#<Rust closure>"),
        MalExpression::FnFunction { .. } => String::from_str("#<fn* function>"),
        MalExpression::Atom(_) => String::from_str("#<atom>"),
        MalExpression::Tco(_, _) => String::from_str("#<TCO>"),
    }
}

} // verus!
