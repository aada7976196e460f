//! The reader: a tokenizer for the concrete syntax and a recursive-descent
//! parser from tokens to values.
//!
//! `spec_tokens` is the exact statement of the token grammar: whitespace and
//! commas separate tokens, `;` starts a comment that runs to the end of the
//! line, `~@` and the single special characters are tokens of their own, a
//! double quote opens a string token that runs through its closing quote
//! (honouring backslash escapes, and to the end of input when unterminated),
//! and any other maximal run of non-delimiter characters is one token.
//! `spec_read_str` is the exact statement of the parse.
use vstd::prelude::*;

use crate::types::MalExpression;
use crate::types::ValView;
use crate::types::val_view;
use crate::types::seq_view;
use crate::types::seq_view_props;
use crate::types::lemma_seq_view_push;
use crate::types::strs_view;
use crate::types::str_to_chars;
use crate::types::chars_range_to_string;
use crate::types::str_eq;
use crate::types::wf_val;

verus! {

/// The reader's result: a value, or a message describing the parse error.
pub type MalRet = Result<MalExpression, String>;

/// Whitespace for the tokenizer; commas count as whitespace.
pub open spec fn is_ws(c: char) -> bool {
    c == ' ' || c == '\t' || c == '\n' || c == '\r' || c == '\u{b}' || c == '\u{c}' || c == ','
}

/// The characters that always form a one-character token.
pub open spec fn is_special(c: char) -> bool {
    c == '[' || c == ']' || c == '{' || c == '}' || c == '(' || c == ')' || c == '\'' || c == '`'
        || c == '~' || c == '^' || c == '@'
}

/// The characters that end a symbol run.
pub open spec fn is_sym_term(c: char) -> bool {
    is_ws(c) || c == '[' || c == ']' || c == '{' || c == '}' || c == '(' || c == ')' || c == '\''
        || c == '"' || c == '`' || c == ';'
}

/// The index of the next newline at or after `i`, or the end of input.
pub open spec fn line_end(s: Seq<char>, i: int) -> int
    decreases s.len() - i,
{
    if i < 0 || i >= s.len() {
        s.len() as int
    } else if s[i] == '\n' {
        i
    } else {
        line_end(s, i + 1)
    }
}

pub proof fn lemma_line_end(s: Seq<char>, i: int)
    requires
        0 <= i <= s.len(),
    ensures
        i <= line_end(s, i) <= s.len(),
    decreases s.len() - i,
{
    if i < s.len() && s[i] != '\n' {
        lemma_line_end(s, i + 1);
    }
}

/// The index of the first character at or after `i` that is not whitespace
/// and not inside a comment.
pub open spec fn skip_trivia(s: Seq<char>, i: int) -> int
    decreases s.len() - i,
{
    if i < 0 || i >= s.len() {
        s.len() as int
    } else if is_ws(s[i]) {
        skip_trivia(s, i + 1)
    } else if s[i] == ';' {
        proof {
            lemma_line_end(s, i + 1);
        }
        skip_trivia(s, line_end(s, i + 1))
    } else {
        i
    }
}

pub proof fn lemma_skip_trivia(s: Seq<char>, i: int)
    requires
        0 <= i <= s.len(),
    ensures
        i <= skip_trivia(s, i) <= s.len(),
        skip_trivia(s, i) < s.len() ==> !is_ws(s[skip_trivia(s, i)]) && s[skip_trivia(s, i)]
            != ';',
    decreases s.len() - i,
{
    if i < s.len() {
        if is_ws(s[i]) {
            lemma_skip_trivia(s, i + 1);
        } else if s[i] == ';' {
            lemma_line_end(s, i + 1);
            lemma_skip_trivia(s, line_end(s, i + 1));
        }
    }
}

/// The index just after a string token whose body starts at `j` (after the
/// opening quote): escapes skip two characters, a quote closes the token,
/// and an unterminated string runs to the end of input.
pub open spec fn string_end(s: Seq<char>, j: int) -> int
    decreases s.len() - j,
{
    if j < 0 || j >= s.len() {
        s.len() as int
    } else if s[j] == '\\' {
        if j + 1 < s.len() {
            string_end(s, j + 2)
        } else {
            s.len() as int
        }
    } else if s[j] == '"' {
        j + 1
    } else {
        string_end(s, j + 1)
    }
}

pub proof fn lemma_string_end(s: Seq<char>, j: int)
    requires
        0 <= j <= s.len(),
    ensures
        j <= string_end(s, j) <= s.len(),
    decreases s.len() - j,
{
    if j < s.len() {
        if s[j] == '\\' {
            if j + 1 < s.len() {
                lemma_string_end(s, j + 2);
            }
        } else if s[j] != '"' {
            lemma_string_end(s, j + 1);
        }
    }
}

/// The index of the first symbol-terminating character at or after `i`.
pub open spec fn sym_end(s: Seq<char>, i: int) -> int
    decreases s.len() - i,
{
    if i < 0 || i >= s.len() {
        s.len() as int
    } else if is_sym_term(s[i]) {
        i
    } else {
        sym_end(s, i + 1)
    }
}

pub proof fn lemma_sym_end(s: Seq<char>, i: int)
    requires
        0 <= i <= s.len(),
    ensures
        i <= sym_end(s, i) <= s.len(),
    decreases s.len() - i,
{
    if i < s.len() && !is_sym_term(s[i]) {
        lemma_sym_end(s, i + 1);
    }
}

/// The index just after the token that starts at `i`; meaningful when the
/// character at `i` is neither whitespace nor a comment start.
pub open spec fn token_end(s: Seq<char>, i: int) -> int {
    if s[i] == '~' && i + 1 < s.len() && s[i + 1] == '@' {
        i + 2
    } else if is_special(s[i]) {
        i + 1
    } else if s[i] == '"' {
        string_end(s, i + 1)
    } else {
        sym_end(s, i + 1)
    }
}

pub proof fn lemma_token_end(s: Seq<char>, i: int)
    requires
        0 <= i < s.len(),
    ensures
        i < token_end(s, i) <= s.len(),
{
    if s[i] == '~' && i + 1 < s.len() && s[i + 1] == '@' {
    } else if is_special(s[i]) {
    } else if s[i] == '"' {
        lemma_string_end(s, i + 1);
    } else {
        lemma_sym_end(s, i + 1);
    }
}

/// The tokens of the input from position `i` on.
pub open spec fn spec_tokens(s: Seq<char>, i: int) -> Seq<Seq<char>>
    decreases s.len() - i,
{
    let j = skip_trivia(s, i);
    if j < 0 || j >= s.len() {
        Seq::empty()
    } else {
        proof {
            if 0 <= i <= s.len() {
                lemma_skip_trivia(s, i);
                lemma_token_end(s, j);
            }
        }
        if i < 0 {
            Seq::empty()
        } else {
            seq![s.subrange(j, token_end(s, j))] + spec_tokens(s, token_end(s, j))
        }
    }
}

/// Split the input into its tokens, dropping whitespace and comments.
#[verifier::loop_isolation(false)]
pub fn tokenize(line: &str) -> (r: Vec<String>)
    ensures
        strs_view(r@) == spec_tokens(line@, 0),
{
    let chars = str_to_chars(line);
    let n = chars.len();
    let mut tokens: Vec<String> = Vec::new();
    let mut i: usize = 0;
    proof {
        assert(strs_view(tokens@) =~= Seq::<Seq<char>>::empty());
    }
    while i < n
        invariant
            0 <= i <= n,
            n == chars@.len(),
            chars@ == line@,
            spec_tokens(line@, 0) == strs_view(tokens@) + spec_tokens(line@, i as int),
        decreases n - i,
    {
        let c = chars[i];
        // Whitespace (commas included) between tokens.
        if c == ' ' || c == '\t' || c == '\n' || c == '\r' || c == '\u{b}' || c == '\u{c}' || c
            == ',' {
            proof {
                assert(skip_trivia(line@, i as int) == skip_trivia(line@, i as int + 1));
            }
            i = i + 1;
            continue ;
        }
        // Comments run to the end of the line.
        if c == ';' {
            proof {
                lemma_line_end(line@, i as int + 1);
                assert(skip_trivia(line@, i as int) == skip_trivia(
                    line@,
                    line_end(line@, i as int + 1),
                ));
            }
            let j = scan_line_end(&chars, i + 1);
            i = j;
            continue ;
        }
        // A real token starts here.
        proof {
            assert(skip_trivia(line@, i as int) == i as int);
            lemma_token_end(line@, i as int);
        }
        let e = token_scan(&chars, i);
        let tok = chars_range_to_string(&chars, i, e);
        let ghost tpre = tokens@;
        tokens.push(tok);
        proof {
            assert(strs_view(tokens@) =~= strs_view(tpre).push(tok@));
            assert(spec_tokens(line@, i as int) == seq![line@.subrange(i as int, e as int)]
                + spec_tokens(line@, e as int));
            assert(strs_view(tokens@) + spec_tokens(line@, e as int) =~= strs_view(tpre) + (
            seq![line@.subrange(i as int, e as int)] + spec_tokens(line@, e as int)));
        }
        i = e;
    }
    proof {
        assert(skip_trivia(line@, i as int) == line@.len());
        assert(spec_tokens(line@, i as int) =~= Seq::<Seq<char>>::empty());
        assert(strs_view(tokens@) =~= strs_view(tokens@) + spec_tokens(line@, i as int));
    }
    tokens
}

/// The index of the next newline at or after `start`, or the end of input.
#[verifier::loop_isolation(false)]
fn scan_line_end(chars: &Vec<char>, start: usize) -> (r: usize)
    requires
        start <= chars@.len(),
    ensures
        r == line_end(chars@, start as int),
        start <= r <= chars@.len(),
{
    proof {
        lemma_line_end(chars@, start as int);
    }
    let n = chars.len();
    let mut j = start;
    while j < n
        invariant
            start <= j <= n,
            line_end(chars@, start as int) == line_end(chars@, j as int),
        decreases n - j,
    {
        if chars[j] == '\n' {
            return j;
        }
        j = j + 1;
    }
    n
}

/// Find the end of the token that starts at `i`.
#[verifier::loop_isolation(false)]
fn token_scan(chars: &Vec<char>, i: usize) -> (e: usize)
    requires
        i < chars@.len(),
        !is_ws(chars@[i as int]),
        chars@[i as int] != ';',
    ensures
        e == token_end(chars@, i as int),
        i < e <= chars@.len(),
{
    proof {
        lemma_token_end(chars@, i as int);
    }
    let n = chars.len();
    let c = chars[i];
    if c == '~' && i + 1 < n && chars[i + 1] == '@' {
        return i + 2;
    }
    if c == '[' || c == ']' || c == '{' || c == '}' || c == '(' || c == ')' || c == '\'' || c
        == '`' || c == '~' || c == '^' || c == '@' {
        return i + 1;
    }
    if c == '"' {
        let mut j = i + 1;
        while j < n
            invariant
                i < j <= n,
                n == chars@.len(),
                string_end(chars@, i as int + 1) == string_end(chars@, j as int),
            decreases n - j,
        {
            let cj = chars[j];
            if cj == '\\' {
                if j + 1 < n {
                    j = j + 2;
                } else {
                    return n;
                }
            } else if cj == '"' {
                return j + 1;
            } else {
                j = j + 1;
            }
        }
        return n;
    }
    let mut j = i + 1;
    while j < n
        invariant
            i < j <= n,
            n == chars@.len(),
            sym_end(chars@, i as int + 1) == sym_end(chars@, j as int),
        decreases n - j,
    {
        let cj = chars[j];
        if cj == ' ' || cj == '\t' || cj == '\n' || cj == '\r' || cj == '\u{b}' || cj == '\u{c}'
            || cj == ',' || cj == '[' || cj == ']' || cj == '{' || cj == '}' || cj == '(' || cj
            == ')' || cj == '\'' || cj == '"' || cj == '`' || cj == ';' {
            return j;
        }
        j = j + 1;
    }
    n
}

/// A decimal digit.
pub open spec fn is_digit(c: char) -> bool {
    '0' <= c && c <= '9'
}

/// The value of a digit string, most significant digit first.
pub open spec fn digits_val(t: Seq<char>) -> int
    decreases t.len(),
{
    if t.len() == 0 {
        0
    } else {
        digits_val(t.drop_last()) * 10 + (t.last() as int - 48)
    }
}

/// Whether every character is a digit.
pub open spec fn all_digits(t: Seq<char>) -> bool {
    forall|i: int| 0 <= i < t.len() ==> is_digit(#[trigger] t[i])
}

/// The digit part of an integer token, past any sign.
pub open spec fn int_body(t: Seq<char>) -> Seq<char> {
    if t.len() > 0 && (t[0] == '-' || t[0] == '+') {
        t.skip(1)
    } else {
        t
    }
}

/// Whether a token has the shape of a signed decimal integer.
pub open spec fn int_shape(t: Seq<char>) -> bool {
    int_body(t).len() > 0 && all_digits(int_body(t))
}

/// The mathematical value of an integer-shaped token.
pub open spec fn int_val(t: Seq<char>) -> int {
    if t.len() > 0 && t[0] == '-' {
        -digits_val(int_body(t))
    } else {
        digits_val(int_body(t))
    }
}

/// Whether a token reads as a fixed-width integer: an integer shape whose
/// value fits.
pub open spec fn is_int_token(t: Seq<char>) -> bool {
    int_shape(t) && -2147483648 <= int_val(t) <= 2147483647
}

/// A digit string's value is nonnegative and no prefix exceeds the whole.
pub proof fn lemma_digits_val_prefix(t: Seq<char>, i: int)
    requires
        0 <= i <= t.len(),
        all_digits(t),
    ensures
        0 <= digits_val(t.take(i)) <= digits_val(t),
{
    assert(all_digits(t.take(i))) by {
        assert forall|j: int| 0 <= j < t.take(i).len() implies is_digit(
            #[trigger] t.take(i)[j],
        ) by {
            assert(t.take(i)[j] == t[j]);
        }
    }
    lemma_digits_val_nonneg(t.take(i));
    if i < t.len() {
        lemma_digits_val_prefix_step(t, i);
    } else {
        assert(t.take(i) =~= t);
    }
}

proof fn lemma_digits_val_prefix_step(t: Seq<char>, i: int)
    requires
        0 <= i < t.len(),
        all_digits(t),
    ensures
        digits_val(t.take(i)) <= digits_val(t),
    decreases t.len() - i,
{
    assert(t.take(i + 1).drop_last() =~= t.take(i));
    assert(t.take(i + 1).last() == t[i]);
    lemma_digits_val_nonneg(t.take(i));
    assert(digits_val(t.take(i)) <= digits_val(t.take(i + 1)));
    if i + 1 < t.len() {
        lemma_digits_val_prefix_step(t, i + 1);
    } else {
        assert(t.take(i + 1) =~= t);
    }
}

/// A digit string's value is nonnegative.
pub proof fn lemma_digits_val_nonneg(t: Seq<char>)
    requires
        all_digits(t),
    ensures
        digits_val(t) >= 0,
    decreases t.len(),
{
    if t.len() > 0 {
        assert(all_digits(t.drop_last())) by {
            assert forall|i: int| 0 <= i < t.drop_last().len() implies is_digit(
                #[trigger] t.drop_last()[i],
            ) by {
                assert(t.drop_last()[i] == t[i]);
            }
        }
        lemma_digits_val_nonneg(t.drop_last());
    }
}

/// Parse a token as a fixed-width integer, if it has that shape and fits.
#[verifier::loop_isolation(false)]
pub fn parse_int_token(t: &str) -> (r: Option<i32>)
    ensures
        match r {
            Some(v) => is_int_token(t@) && v as int == int_val(t@),
            None => !is_int_token(t@),
        },
{
    let chars = str_to_chars(t);
    let n = chars.len();
    let neg: bool;
    let start: usize;
    if n > 0 && (chars[0] == '-' || chars[0] == '+') {
        neg = chars[0] == '-';
        start = 1;
    } else {
        neg = false;
        start = 0;
    }
    let ghost body = int_body(t@);
    proof {
        assert(body =~= t@.skip(start as int));
    }
    if n == start {
        return None;
    }
    let mut acc: i64 = 0;
    let mut i = start;
    while i < n
        invariant
            start <= i <= n,
            0 <= acc <= 2147483648,
            acc == digits_val(body.take(i - start)),
            forall|j: int| 0 <= j < i - start ==> is_digit(#[trigger] body[j]),
        decreases n - i,
    {
        let c = chars[i];
        if !('0' <= c && c <= '9') {
            proof {
                assert(body[i - start] == t@[i as int]);
                assert(!is_digit(body[i - start]));
            }
            return None;
        }
        let d: i64 = ((c as u32) - 48) as i64;
        proof {
            assert(body.take(i - start + 1).drop_last() =~= body.take(i - start));
            assert(body.take(i - start + 1).last() == body[i - start]);
            assert(body[i - start] == t@[i as int]);
        }
        acc = acc * 10 + d;
        if acc > 2147483648i64 {
            proof {
                if all_digits(body) {
                    lemma_digits_val_prefix(body, i - start + 1);
                }
            }
            return None;
        }
        i = i + 1;
    }
    proof {
        assert(body.take(i - start) =~= body);
        assert(all_digits(body));
        assert(int_shape(t@));
    }
    if neg {
        proof {
            assert(int_val(t@) == -digits_val(body));
        }
        Some((-acc) as i32)
    } else {
        if acc > 2147483647i64 {
            return None;
        }
        Some(acc as i32)
    }
}


/// The elements of a quoted-string token: ordinary characters one by one,
/// recognised escape pairs whole, and stray backslashes dropped.
pub open spec fn quoted_elems(s: Seq<char>) -> Seq<Seq<char>>
    decreases s.len(),
{
    if s.len() == 0 {
        Seq::empty()
    } else if s[0] == '\\' {
        if s.len() >= 2 && (s[1] == '"' || s[1] == 'n' || s[1] == '\\') {
            seq![s.take(2)] + quoted_elems(s.skip(2))
        } else {
            quoted_elems(s.skip(1))
        }
    } else {
        seq![s.take(1)] + quoted_elems(s.skip(1))
    }
}

/// The character an element denotes: itself for a single character, the
/// escaped character for a recognised escape pair.
pub open spec fn elem_char(e: Seq<char>) -> char {
    if e.len() == 2 {
        if e[1] == 'n' {
            '\n'
        } else {
            e[1]
        }
    } else if e.len() == 1 {
        e[0]
    } else {
        ' '
    }
}

/// The characters denoted by a sequence of elements.
pub open spec fn unescape_elems(es: Seq<Seq<char>>) -> Seq<char>
    decreases es.len(),
{
    if es.len() == 0 {
        Seq::empty()
    } else {
        unescape_elems(es.drop_last()).push(elem_char(es.last()))
    }
}

/// Whether a token is a balanced quoted string: at least two elements, the
/// first and last being bare quotes.
pub open spec fn unescape_ok(s: Seq<char>) -> bool {
    let es = quoted_elems(s);
    es.len() >= 2 && es.first() == seq!['"'] && es.last() == seq!['"']
}

/// The string body a balanced quoted token denotes.
pub open spec fn unescape_val(s: Seq<char>) -> Seq<char> {
    let es = quoted_elems(s);
    unescape_elems(es.subrange(1, es.len() - 1))
}

/// Split a quoted-string token into its elements: single characters,
/// recognised escape pairs, and quotes.
#[verifier::loop_isolation(false)]
pub fn tokenize_quoted_string(string: &str) -> (r: Vec<String>)
    ensures
        strs_view(r@) == quoted_elems(string@),
{
    let chars = str_to_chars(string);
    let n = chars.len();
    let mut out: Vec<String> = Vec::new();
    let mut i: usize = 0;
    proof {
        assert(string@.skip(0) =~= string@);
        assert(strs_view(out@) + quoted_elems(string@.skip(0)) =~= quoted_elems(string@));
    }
    while i < n
        invariant
            0 <= i <= n,
            n == chars@.len(),
            chars@ == string@,
            quoted_elems(string@) == strs_view(out@) + quoted_elems(string@.skip(i as int)),
        decreases n - i,
    {
        let ghost rem = string@.skip(i as int);
        proof {
            assert(rem[0] == string@[i as int]);
        }
        let c = chars[i];
        if c == '\\' {
            if i + 1 < n && (chars[i + 1] == '"' || chars[i + 1] == 'n' || chars[i + 1] == '\\') {
                let mut e = String::new();
                e.push('\\');
                e.push(chars[i + 1]);
                let ghost opre = out@;
                out.push(e);
                proof {
                    assert(rem.len() >= 2 && rem[1] == string@[i as int + 1]);
                    assert(e@ =~= rem.take(2));
                    assert(rem.skip(2) =~= string@.skip(i as int + 2));
                    assert(strs_view(out@) =~= strs_view(opre).push(e@));
                    assert(strs_view(out@) + quoted_elems(string@.skip(i as int + 2)) =~= strs_view(
                        opre,
                    ) + (seq![rem.take(2)] + quoted_elems(rem.skip(2))));
                }
                i = i + 2;
            } else {
                proof {
                    assert(!(rem.len() >= 2 && (rem[1] == '"' || rem[1] == 'n' || rem[1]
                        == '\\')));
                    assert(rem.skip(1) =~= string@.skip(i as int + 1));
                }
                i = i + 1;
            }
        } else {
            let mut e = String::new();
            e.push(c);
            let ghost opre = out@;
            out.push(e);
            proof {
                assert(e@ =~= rem.take(1));
                assert(rem.skip(1) =~= string@.skip(i as int + 1));
                assert(strs_view(out@) =~= strs_view(opre).push(e@));
                assert(strs_view(out@) + quoted_elems(string@.skip(i as int + 1)) =~= strs_view(
                    opre,
                ) + (seq![rem.take(1)] + quoted_elems(rem.skip(1))));
            }
            i = i + 1;
        }
    }
    proof {
        assert(quoted_elems(string@.skip(i as int)) =~= Seq::<Seq<char>>::empty());
        assert(strs_view(out@) =~= strs_view(out@) + quoted_elems(string@.skip(i as int)));
    }
    out
}

/// The character a string element denotes: a single character stands for
/// itself, and the three recognised escape pairs for quote, newline and
/// backslash.
pub fn escaped_to_char(string: &str) -> (r: Result<char, String>)
    ensures
        match r {
            Ok(c) => (string@.len() == 1 && c == string@[0]) || (string@.len() == 2 && string@[0]
                == '\\' && (string@[1] == '"' || string@[1] == 'n' || string@[1] == '\\') && c
                == elem_char(string@)),
            Err(m) => !(string@.len() == 1 || (string@.len() == 2 && string@[0] == '\\' && (
            string@[1] == '"' || string@[1] == 'n' || string@[1] == '\\'))) && m@
                == "invalid escape sequence "@ + string@,
        },
{
    let chars = str_to_chars(string);
    if chars.len() == 1 {
        Ok(chars[0])
    } else if chars.len() == 2 && chars[0] == '\\' && chars[1] == '"' {
        Ok('"')
    } else if chars.len() == 2 && chars[0] == '\\' && chars[1] == 'n' {
        Ok('\n')
    } else if chars.len() == 2 && chars[0] == '\\' && chars[1] == '\\' {
        Ok('\\')
    } else {
        let mut m = String::from_str("invalid escape sequence ");
        m.append(string);
        Err(m)
    }
}

/// Every element a quoted-string token splits into is a single character or
/// a recognised escape pair.
pub proof fn lemma_quoted_elems_shape(s: Seq<char>)
    ensures
        forall|k: int|
            0 <= k < quoted_elems(s).len() ==> {
                let e = #[trigger] quoted_elems(s)[k];
                e.len() == 1 || (e.len() == 2 && e[0] == '\\' && (e[1] == '"' || e[1] == 'n'
                    || e[1] == '\\'))
            },
    decreases s.len(),
{
    if s.len() == 0 {
    } else if s[0] == '\\' {
        if s.len() >= 2 && (s[1] == '"' || s[1] == 'n' || s[1] == '\\') {
            lemma_quoted_elems_shape(s.skip(2));
            assert forall|k: int| 0 <= k < quoted_elems(s).len() implies {
                let e = #[trigger] quoted_elems(s)[k];
                e.len() == 1 || (e.len() == 2 && e[0] == '\\' && (e[1] == '"' || e[1] == 'n'
                    || e[1] == '\\'))
            } by {
                if k == 0 {
                    assert(quoted_elems(s)[0] == s.take(2));
                    assert(s.take(2).len() == 2 && s.take(2)[0] == s[0] && s.take(2)[1] == s[1]);
                } else {
                    assert(quoted_elems(s)[k] == quoted_elems(s.skip(2))[k - 1]);
                }
            }
        } else {
            lemma_quoted_elems_shape(s.skip(1));
            assert forall|k: int| 0 <= k < quoted_elems(s).len() implies {
                let e = #[trigger] quoted_elems(s)[k];
                e.len() == 1 || (e.len() == 2 && e[0] == '\\' && (e[1] == '"' || e[1] == 'n'
                    || e[1] == '\\'))
            } by {
                assert(quoted_elems(s)[k] == quoted_elems(s.skip(1))[k]);
            }
        }
    } else {
        lemma_quoted_elems_shape(s.skip(1));
        assert forall|k: int| 0 <= k < quoted_elems(s).len() implies {
            let e = #[trigger] quoted_elems(s)[k];
            e.len() == 1 || (e.len() == 2 && e[0] == '\\' && (e[1] == '"' || e[1] == 'n' || e[1]
                == '\\'))
        } by {
            if k == 0 {
                assert(quoted_elems(s)[0] == s.take(1));
                assert(s.take(1).len() == 1);
            } else {
                assert(quoted_elems(s)[k] == quoted_elems(s.skip(1))[k - 1]);
            }
        }
    }
}

/// Undo the quoting and escapes of a string token; fail with a message when
/// the token is not a balanced quoted string.
#[verifier::loop_isolation(false)]
pub fn unescape_string(string: &str) -> (r: Result<String, String>)
    ensures
        match r {
            Ok(v) => unescape_ok(string@) && v@ == unescape_val(string@),
            Err(m) => !unescape_ok(string@) && m@ == "invalid or unbalanced string "@ + string@,
        },
{
    let tokens = tokenize_quoted_string(string);
    let ghost es = quoted_elems(string@);
    let n = tokens.len();
    let mut balanced = n >= 2;
    if balanced {
        balanced = str_eq(tokens[0].as_str(), "\"") && str_eq(tokens[n - 1].as_str(), "\"");
        proof {
            assert(strs_view(tokens@)[0] == tokens@[0]@);
            assert(strs_view(tokens@)[n - 1] == tokens@[n - 1]@);
            assert(es.first() == es[0]);
            assert(es.last() == es[n - 1]);
            reveal_strlit("\"");
            assert("\""@ =~= seq!['"']);
        }
    }
    if !balanced {
        let mut m = String::from_str("invalid or unbalanced string ");
        m.append(string);
        return Err(m);
    }
    let ghost mid = es.subrange(1, es.len() - 1);
    let mut out = String::new();
    let mut i: usize = 1;
    proof {
        lemma_quoted_elems_shape(string@);
        assert(mid.take(0).len() == 0);
    }
    while i < n - 1
        invariant
            1 <= i <= n - 1,
            n == tokens@.len(),
            n >= 2,
            es == quoted_elems(string@),
            strs_view(tokens@) == es,
            mid == es.subrange(1, es.len() - 1),
            out@ == unescape_elems(mid.take(i - 1)),
        decreases n - i,
    {
        proof {
            assert(strs_view(tokens@)[i as int] == tokens@[i as int]@);
            assert(mid[i - 1] == es[i as int]);
            lemma_quoted_elems_shape(string@);
        }
        match escaped_to_char(tokens[i].as_str()) {
            Ok(c) => {
                out.push(c);
                proof {
                    assert(mid.take(i as int).drop_last() =~= mid.take(i - 1));
                    assert(mid.take(i as int).last() == mid[i - 1]);
                    assert(c == elem_char(mid[i - 1]));
                }
            },
            Err(_) => {
                proof {
                    assert(false);
                }
                let mut m = String::from_str("invalid or unbalanced string ");
                m.append(string);
                return Err(m);
            },
        }
        i = i + 1;
    }
    proof {
        assert(mid.take(i - 1) =~= mid);
    }
    Ok(out)
}


/// How a single non-delimiter token reads as a value: an integer when it has
/// integer shape and fits, the three literals, a string (whose unescape may
/// fail), a keyword after a leading colon, and otherwise a symbol.
pub open spec fn spec_atom(t: Seq<char>) -> Result<ValView, Seq<char>> {
    if is_int_token(t) {
        Ok(ValView::Int(int_val(t) as i32))
    } else if t.len() == 0 {
        Err("internal error: empty token"@)
    } else if t[0] == '"' {
        if unescape_ok(t) {
            Ok(ValView::Str(unescape_val(t)))
        } else {
            Err("invalid or unbalanced string "@ + t)
        }
    } else if t[0] == ':' {
        Ok(ValView::Keyword(t.skip(1)))
    } else if t == "nil"@ {
        Ok(ValView::Nil)
    } else if t == "true"@ {
        Ok(ValView::Boolean(true))
    } else if t == "false"@ {
        Ok(ValView::Boolean(false))
    } else {
        Ok(ValView::Symbol(t))
    }
}

/// The reader-sigil expansion: a quoting token wraps the following form in a
/// two-element list headed by the matching symbol.
pub open spec fn sigil_name(t: Seq<char>) -> Seq<char> {
    if t == "'"@ {
        "quote"@
    } else if t == "`"@ {
        "quasiquote"@
    } else if t == "~"@ {
        "unquote"@
    } else if t == "~@"@ {
        "splice-unquote"@
    } else {
        "deref"@
    }
}

/// Whether a token is one of the reader sigils.
pub open spec fn is_sigil(t: Seq<char>) -> bool {
    t == "'"@ || t == "`"@ || t == "~"@ || t == "~@"@ || t == "@"@
}

/// Parse one form from the token stream at position `i`: the parsed value
/// and the position just after it, or a parse error message.
pub open spec fn spec_parse_form(toks: Seq<Seq<char>>, i: int) -> Result<(ValView, int), Seq<char>>
    decreases toks.len() - i, 0int,
{
    if i < 0 || i >= toks.len() {
        Err("unexpected EOF"@)
    } else {
        let t = toks[i];
        if t == "("@ {
            match spec_parse_seq(toks, i + 1, ")"@) {
                Ok((elems, j)) => Ok((ValView::List(elems), j)),
                Err(m) => Err(m),
            }
        } else if t == "["@ {
            match spec_parse_seq(toks, i + 1, "]"@) {
                Ok((elems, j)) => Ok((ValView::Vector(elems), j)),
                Err(m) => Err(m),
            }
        } else if t == "{"@ {
            match spec_parse_seq(toks, i + 1, "}"@) {
                Ok((elems, j)) => Ok((ValView::HashTable(elems), j)),
                Err(m) => Err(m),
            }
        } else if is_sigil(t) {
            match spec_parse_form(toks, i + 1) {
                Ok((v, j)) => Ok((
                    ValView::List(seq![ValView::Symbol(sigil_name(t)), v]),
                    j,
                )),
                Err(m) => Err(m),
            }
        } else {
            match spec_atom(t) {
                Ok(v) => Ok((v, i + 1)),
                Err(m) => Err(m),
            }
        }
    }
}

/// Parse forms until the closing token: the elements and the position just
/// after the closer. Hitting the end of input, or a different closing
/// delimiter, is an error.
pub open spec fn spec_parse_seq(toks: Seq<Seq<char>>, i: int, close: Seq<char>) -> Result<
    (Seq<ValView>, int),
    Seq<char>,
>
    decreases toks.len() - i, 1int,
{
    if i < 0 || i >= toks.len() {
        Err("EOF while reading sequence"@)
    } else if toks[i] == close {
        Ok((Seq::empty(), i + 1))
    } else if toks[i] == ")"@ || toks[i] == "]"@ || toks[i] == "}"@ {
        Err("mismatched delimiter in sequence"@)
    } else {
        match spec_parse_form(toks, i) {
            Ok((v, j)) => {
                let j2 = if i < j <= toks.len() {
                    j
                } else {
                    i + 1
                };
                match spec_parse_seq(toks, j2, close) {
                    Ok((rest, k)) => Ok((seq![v] + rest, k)),
                    Err(m) => Err(m),
                }
            },
            Err(m) => Err(m),
        }
    }
}

/// A successful parse consumes at least one token and lands inside the
/// stream, and parses only well-formed pure data.
pub proof fn lemma_parse_progress(toks: Seq<Seq<char>>, i: int)
    ensures
        spec_parse_form(toks, i) matches Ok((v, j)) ==> i < j <= toks.len() && wf_val(v, 0, 0),
    decreases toks.len() - i, 0int,
{
    if 0 <= i < toks.len() {
        let t = toks[i];
        if t == "("@ || t == "["@ || t == "{"@ {
            let close = if t == "("@ {
                ")"@
            } else if t == "["@ {
                "]"@
            } else {
                "}"@
            };
            lemma_parse_seq_progress(toks, i + 1, close);
            match spec_parse_seq(toks, i + 1, close) {
                Ok((es, j)) => {
                    crate::types::lemma_wf_seq(es, 0, 0);
                },
                Err(_) => {},
            }
        } else if is_sigil(t) {
            lemma_parse_progress(toks, i + 1);
            match spec_parse_form(toks, i + 1) {
                Ok((v, j)) => {
                    let es = seq![ValView::Symbol(sigil_name(t)), v];
                    assert forall|k: int| 0 <= k < es.len() implies wf_val(#[trigger] es[k], 0, 0)
                        by {}
                    crate::types::lemma_wf_seq(es, 0, 0);
                    assert(wf_val(ValView::List(es), 0, 0));
                },
                Err(_) => {},
            }
        } else {
            match spec_atom(t) {
                Ok(v) => {
                    assert(wf_val(v, 0, 0));
                },
                Err(_) => {},
            }
        }
    }
}

/// A successful sequence parse makes progress and parses well-formed data.
pub proof fn lemma_parse_seq_progress(toks: Seq<Seq<char>>, i: int, close: Seq<char>)
    ensures
        spec_parse_seq(toks, i, close) matches Ok((es, j)) ==> i < j <= toks.len() && forall|
            k: int,
        | 0 <= k < es.len() ==> wf_val(#[trigger] es[k], 0, 0),
    decreases toks.len() - i, 1int,
{
    if 0 <= i < toks.len() && toks[i] != close && !(toks[i] == ")"@ || toks[i] == "]"@ || toks[i]
        == "}"@) {
        lemma_parse_progress(toks, i);
        match spec_parse_form(toks, i) {
            Ok((v, j)) => {
                let j2 = if i < j <= toks.len() {
                    j
                } else {
                    i + 1
                };
                lemma_parse_seq_progress(toks, j2, close);
                match spec_parse_seq(toks, j2, close) {
                    Ok((rest, k)) => {
                        assert forall|q: int| 0 <= q < (seq![v] + rest).len() implies wf_val(
                            #[trigger] (seq![v] + rest)[q],
                            0,
                            0,
                        ) by {
                            if q == 0 {
                                assert((seq![v] + rest)[0] == v);
                            } else {
                                assert((seq![v] + rest)[q] == rest[q - 1]);
                            }
                        }
                    },
                    Err(_) => {},
                }
            },
            Err(_) => {},
        }
    }
}

/// The parse of a whole input: its tokens must hold exactly one form.
pub open spec fn spec_read_str(s: Seq<char>) -> Result<ValView, Seq<char>> {
    let toks = spec_tokens(s, 0);
    match spec_parse_form(toks, 0) {
        Ok((v, j)) => if j == toks.len() {
            Ok(v)
        } else {
            Err("unexpected trailing tokens"@)
        },
        Err(m) => Err(m),
    }
}

/// The views of the delimiter and sigil tokens, for telling them apart.
pub proof fn lemma_delims()
    ensures
        "("@ == seq!['('],
        ")"@ == seq![')'],
        "["@ == seq!['['],
        "]"@ == seq![']'],
        "{"@ == seq!['{'],
        "}"@ == seq!['}'],
        "'"@ == seq!['\''],
        "`"@ == seq!['`'],
        "~"@ == seq!['~'],
        "~@"@ == seq!['~', '@'],
        "@"@ == seq!['@'],
{
    reveal_strlit("(");
    reveal_strlit(")");
    reveal_strlit("[");
    reveal_strlit("]");
    reveal_strlit("{");
    reveal_strlit("}");
    reveal_strlit("'");
    reveal_strlit("`");
    reveal_strlit("~");
    reveal_strlit("~@");
    reveal_strlit("@");
    assert("("@ =~= seq!['(']);
    assert(")"@ =~= seq![')']);
    assert("["@ =~= seq!['[']);
    assert("]"@ =~= seq![']']);
    assert("{"@ =~= seq!['{']);
    assert("}"@ =~= seq!['}']);
    assert("'"@ =~= seq!['\'']);
    assert("`"@ =~= seq!['`']);
    assert("~"@ =~= seq!['~']);
    assert("~@"@ =~= seq!['~', '@']);
    assert("@"@ =~= seq!['@']);
}

/// A stream of tokens and a cursor over them.
#[derive(Debug)]
pub struct Reader {
    pub tokens: Vec<String>,
    pub index: usize,
}

impl Reader {
    /// The token views.
    pub open spec fn toks(self) -> Seq<Seq<char>> {
        strs_view(self.tokens@)
    }

    /// Return the current token and advance past it.
    pub fn next(&mut self) -> (r: Option<String>)
        ensures
            final(self).tokens@ == old(self).tokens@,
            if old(self).index < old(self).tokens@.len() {
                &&& final(self).index == old(self).index + 1
                &&& r matches Some(t) && t@ == old(self).toks()[old(self).index as int]
            } else {
                final(self).index == old(self).index && r is None
            },
    {
        if self.tokens.len() > self.index {
            self.index = self.index + 1;
            let result = self.tokens[self.index - 1].clone();
            proof {
                assert(self.toks()[self.index - 1] == self.tokens@[self.index - 1]@);
            }
            Some(result)
        } else {
            None
        }
    }

    /// Look at the current token without advancing.
    pub fn peek(&self) -> (r: Option<String>)
        ensures
            if self.index < self.tokens@.len() {
                r matches Some(t) && t@ == self.toks()[self.index as int]
            } else {
                r is None
            },
    {
        if self.tokens.len() > self.index {
            let result = self.tokens[self.index].clone();
            proof {
                assert(self.toks()[self.index as int] == self.tokens@[self.index as int]@);
            }
            Some(result)
        } else {
            None
        }
    }
}

/// Read a single atom token as a value.
pub fn read_atom(reader: &mut Reader) -> (r: MalRet)
    requires
        old(reader).index <= old(reader).tokens@.len(),
    ensures
        final(reader).tokens@ == old(reader).tokens@,
        old(reader).index <= final(reader).index <= final(reader).tokens@.len(),
        match r {
            Ok(v) => {
                &&& old(reader).index < old(reader).toks().len()
                &&& spec_atom(old(reader).toks()[old(reader).index as int]) == Ok::<_, Seq<char>>(
                    val_view(v),
                )
                &&& final(reader).index == old(reader).index + 1
                &&& wf_val(val_view(v), 0, 0)
            },
            Err(m) => if old(reader).index < old(reader).toks().len() {
                spec_atom(old(reader).toks()[old(reader).index as int]) == Err::<ValView, _>(m@)
            } else {
                m@ == "EOF while reading atom"@
            },
        },
{
    match reader.next() {
        Some(token) => {
            let ghost t = token@;
            if let Some(number) = parse_int_token(token.as_str()) {
                return Ok(MalExpression::Int(number));
            }
            let chars = str_to_chars(token.as_str());
            if chars.len() == 0 {
                return Err("internal error: empty token".to_owned());
            }
            let c0 = chars[0];
            if c0 == '"' {
                match unescape_string(token.as_str()) {
                    Ok(s) => Ok(MalExpression::String(s)),
                    Err(e) => Err(e),
                }
            } else if c0 == ':' {
                let rest = chars_range_to_string(&chars, 1, chars.len());
                Ok(MalExpression::Keyword(rest))
            } else if str_eq(token.as_str(), "nil") {
                Ok(MalExpression::Nil())
            } else if str_eq(token.as_str(), "true") {
                Ok(MalExpression::Boolean(true))
            } else if str_eq(token.as_str(), "false") {
                Ok(MalExpression::Boolean(false))
            } else {
                Ok(MalExpression::Symbol(token))
            }
        },
        None => Err("EOF while reading atom".to_owned()),
    }
}

/// Read one form: a sequence after an opening delimiter, a wrapped form
/// after a reader sigil, otherwise an atom.
pub fn read_form(reader: &mut Reader) -> (r: MalRet)
    requires
        old(reader).index <= old(reader).tokens@.len(),
    ensures
        final(reader).tokens@ == old(reader).tokens@,
        old(reader).index <= final(reader).index <= final(reader).tokens@.len(),
        match r {
            Ok(v) => spec_parse_form(old(reader).toks(), old(reader).index as int) == Ok::<
                _,
                Seq<char>,
            >((val_view(v), final(reader).index as int)) && old(reader).index < final(reader).index && wf_val(val_view(v), 0, 0),
            Err(m) => spec_parse_form(old(reader).toks(), old(reader).index as int) == Err::<
                (ValView, int),
                _,
            >(m@),
        },
    decreases old(reader).tokens@.len() - old(reader).index, 3int,
{
    let peek = reader.peek();
    match peek {
        Some(token) => {
            if str_eq(token.as_str(), "(") {
                read_list(reader)
            } else if str_eq(token.as_str(), "[") {
                read_vector(reader)
            } else if str_eq(token.as_str(), "{") {
                read_hash_table(reader)
            } else if str_eq(token.as_str(), "'") {
                read_quote(reader)
            } else if str_eq(token.as_str(), "`") {
                read_quasiquote(reader)
            } else if str_eq(token.as_str(), "~@") {
                read_splice_unquote(reader)
            } else if str_eq(token.as_str(), "~") {
                read_unquote(reader)
            } else if str_eq(token.as_str(), "@") {
                read_deref(reader)
            } else {
                read_atom(reader)
            }
        },
        None => Err("unexpected EOF".to_owned()),
    }
}

/// Read a parenthesised list.
fn read_list(reader: &mut Reader) -> (r: MalRet)
    requires
        old(reader).index < old(reader).tokens@.len(),
        old(reader).toks()[old(reader).index as int] == "("@,
    ensures
        final(reader).tokens@ == old(reader).tokens@,
        old(reader).index <= final(reader).index <= final(reader).tokens@.len(),
        match r {
            Ok(v) => spec_parse_form(old(reader).toks(), old(reader).index as int) == Ok::<
                _,
                Seq<char>,
            >((val_view(v), final(reader).index as int)) && old(reader).index < final(reader).index && wf_val(val_view(v), 0, 0),
            Err(m) => spec_parse_form(old(reader).toks(), old(reader).index as int) == Err::<
                (ValView, int),
                _,
            >(m@),
        },
    decreases old(reader).tokens@.len() - old(reader).index, 2int,
{
    match read_sequence(reader, "(", ")") {
        Ok(sequence) => {
            proof {
                seq_view_props(sequence@);
                crate::types::lemma_wf_seq(seq_view(sequence@), 0, 0);
                assert(wf_val(val_view(MalExpression::List(sequence)), 0, 0));
            }
            Ok(MalExpression::List(sequence))
        },
        Err(e) => Err(e),
    }
}

/// Read a bracketed vector.
fn read_vector(reader: &mut Reader) -> (r: MalRet)
    requires
        old(reader).index < old(reader).tokens@.len(),
        old(reader).toks()[old(reader).index as int] == "["@,
    ensures
        final(reader).tokens@ == old(reader).tokens@,
        old(reader).index <= final(reader).index <= final(reader).tokens@.len(),
        match r {
            Ok(v) => spec_parse_form(old(reader).toks(), old(reader).index as int) == Ok::<
                _,
                Seq<char>,
            >((val_view(v), final(reader).index as int)) && old(reader).index < final(reader).index && wf_val(val_view(v), 0, 0),
            Err(m) => spec_parse_form(old(reader).toks(), old(reader).index as int) == Err::<
                (ValView, int),
                _,
            >(m@),
        },
    decreases old(reader).tokens@.len() - old(reader).index, 2int,
{
    proof {
        lemma_delims();
    }
    match read_sequence(reader, "[", "]") {
        Ok(sequence) => {
            proof {
                seq_view_props(sequence@);
                crate::types::lemma_wf_seq(seq_view(sequence@), 0, 0);
                assert(wf_val(val_view(MalExpression::Vector(sequence)), 0, 0));
            }
            Ok(MalExpression::Vector(sequence))
        },
        Err(e) => Err(e),
    }
}

/// Read a braced table.
fn read_hash_table(reader: &mut Reader) -> (r: MalRet)
    requires
        old(reader).index < old(reader).tokens@.len(),
        old(reader).toks()[old(reader).index as int] == "{"@,
    ensures
        final(reader).tokens@ == old(reader).tokens@,
        old(reader).index <= final(reader).index <= final(reader).tokens@.len(),
        match r {
            Ok(v) => spec_parse_form(old(reader).toks(), old(reader).index as int) == Ok::<
                _,
                Seq<char>,
            >((val_view(v), final(reader).index as int)) && old(reader).index < final(reader).index && wf_val(val_view(v), 0, 0),
            Err(m) => spec_parse_form(old(reader).toks(), old(reader).index as int) == Err::<
                (ValView, int),
                _,
            >(m@),
        },
    decreases old(reader).tokens@.len() - old(reader).index, 2int,
{
    proof {
        lemma_delims();
    }
    match read_sequence(reader, "{", "}") {
        Ok(sequence) => {
            proof {
                seq_view_props(sequence@);
                crate::types::lemma_wf_seq(seq_view(sequence@), 0, 0);
                assert(wf_val(val_view(MalExpression::HashTable(sequence)), 0, 0));
            }
            Ok(MalExpression::HashTable(sequence))
        },
        Err(e) => Err(e),
    }
}

/// Read the forms between the current opening token and its closer.
#[verifier::loop_isolation(false)]
fn read_sequence(reader: &mut Reader, opening_token: &str, closing_token: &str) -> (r: Result<
    Vec<MalExpression>,
    String,
>)
    requires
        old(reader).index < old(reader).tokens@.len(),
        old(reader).toks()[old(reader).index as int] == opening_token@,
        closing_token@ == ")"@ || closing_token@ == "]"@ || closing_token@ == "}"@,
    ensures
        final(reader).tokens@ == old(reader).tokens@,
        old(reader).index <= final(reader).index <= final(reader).tokens@.len(),
        match r {
            Ok(v) => spec_parse_seq(old(reader).toks(), old(reader).index + 1, closing_token@)
                == Ok::<_, Seq<char>>((seq_view(v@), final(reader).index as int)) && old(reader).index < final(reader).index && (forall|k: int|
                0 <= k < seq_view(v@).len() ==> wf_val(#[trigger] seq_view(v@)[k], 0, 0)),
            Err(m) => spec_parse_seq(old(reader).toks(), old(reader).index + 1, closing_token@)
                == Err::<(Seq<ValView>, int), _>(m@),
        },
    decreases old(reader).tokens@.len() - old(reader).index, 1int,
{
    let ghost toks = old(reader).toks();
    let mut list_vec: Vec<MalExpression> = Vec::new();
    match reader.peek() {
        Some(token) => {
            if str_eq(token.as_str(), opening_token) {
                reader.next();
            } else {
                return Err("internal error: opening token incorrect in read_sequence".to_owned());
            }
        },
        None => {
            return Err(
                "internal error: EOF while reading opening token in read_sequence".to_owned(),
            );
        },
    }
    proof {
        assert(seq_view(list_vec@) =~= Seq::<ValView>::empty());
        match spec_parse_seq(toks, reader.index as int, closing_token@) {
            Ok((rest, k)) => {
                assert(seq_view(list_vec@) + rest =~= rest);
            },
            Err(_) => {},
        }
    }
    loop
        invariant
            reader.tokens@ == old(reader).tokens@,
            old(reader).index < reader.index <= reader.tokens@.len(),
            forall|k: int| 0 <= k < seq_view(list_vec@).len() ==> wf_val(
                #[trigger] seq_view(list_vec@)[k],
                0,
                0,
            ),
            spec_parse_seq(toks, old(reader).index + 1, closing_token@) == (
            match spec_parse_seq(toks, reader.index as int, closing_token@) {
                Ok((rest, k)) => Ok::<_, Seq<char>>((seq_view(list_vec@) + rest, k)),
                Err(m) => Err::<(Seq<ValView>, int), _>(m),
            }),
        decreases reader.tokens@.len() - reader.index,
    {
        let ghost cur = reader.index as int;
        match reader.peek() {
            Some(token) => {
                if str_eq(token.as_str(), closing_token) {
                    reader.next();
                    proof {
                        assert(toks[cur] == closing_token@);
                        assert(spec_parse_seq(toks, cur, closing_token@) == Ok::<_, Seq<char>>((
                            Seq::<ValView>::empty(),
                            cur + 1,
                        )));
                        assert(seq_view(list_vec@) + Seq::<ValView>::empty() =~= seq_view(
                            list_vec@,
                        ));
                    }
                    return Ok(list_vec);
                }
                if str_eq(token.as_str(), ")") || str_eq(token.as_str(), "]") || str_eq(
                    token.as_str(),
                    "}",
                ) {
                    proof {
                        assert(toks[cur] != closing_token@);
                        assert(toks[cur] == ")"@ || toks[cur] == "]"@ || toks[cur] == "}"@);
                    }
                    return Err("mismatched delimiter in sequence".to_owned());
                }
                proof {
                    assert(toks[cur] != closing_token@);
                    assert(!(toks[cur] == ")"@ || toks[cur] == "]"@ || toks[cur] == "}"@));
                }
                match read_form(reader) {
                    Ok(expression) => {
                        let ghost lpre = list_vec@;
                        let ghost vv = val_view(expression);
                        let ghost jj = reader.index as int;
                        list_vec.push(expression);
                        proof {
                            lemma_seq_view_push(lpre, expression);
                            assert forall|k: int| 0 <= k < seq_view(list_vec@).len() implies
                                wf_val(#[trigger] seq_view(list_vec@)[k], 0, 0) by {
                                if k < seq_view(lpre).len() {
                                    assert(seq_view(list_vec@)[k] == seq_view(lpre)[k]);
                                } else {
                                    assert(seq_view(list_vec@)[k] == vv);
                                }
                            }
                            assert(spec_parse_seq(toks, cur, closing_token@) == (
                            match spec_parse_seq(toks, jj, closing_token@) {
                                Ok((rest, k)) => Ok::<_, Seq<char>>((seq![vv] + rest, k)),
                                Err(m) => Err::<(Seq<ValView>, int), _>(m),
                            }));
                            match spec_parse_seq(toks, jj, closing_token@) {
                                Ok((rest, k)) => {
                                    assert(seq_view(lpre) + (seq![vv] + rest) =~= seq_view(
                                        list_vec@,
                                    ) + rest);
                                },
                                Err(_) => {},
                            }
                        }
                    },
                    Err(e) => {
                        return Err(e);
                    },
                }
            },
            None => {
                proof {
                    assert(spec_parse_seq(toks, cur, closing_token@) == Err::<
                        (Seq<ValView>, int),
                        _,
                    >("EOF while reading sequence"@));
                }
                return Err("EOF while reading sequence".to_owned());
            },
        }
    }
}

/// Read a quoting sigil and wrap the following form.
fn read_sigil_form(reader: &mut Reader, name: &str) -> (r: MalRet)
    requires
        old(reader).index < old(reader).tokens@.len(),
        is_sigil(old(reader).toks()[old(reader).index as int]),
        name@ == sigil_name(old(reader).toks()[old(reader).index as int]),
    ensures
        final(reader).tokens@ == old(reader).tokens@,
        old(reader).index <= final(reader).index <= final(reader).tokens@.len(),
        match r {
            Ok(v) => spec_parse_form(old(reader).toks(), old(reader).index as int) == Ok::<
                _,
                Seq<char>,
            >((val_view(v), final(reader).index as int)) && old(reader).index < final(reader).index && wf_val(val_view(v), 0, 0),
            Err(m) => spec_parse_form(old(reader).toks(), old(reader).index as int) == Err::<
                (ValView, int),
                _,
            >(m@),
        },
    decreases old(reader).tokens@.len() - old(reader).index, 1int,
{
    let ghost t = old(reader).toks()[old(reader).index as int];
    proof {
        lemma_delims();
    }
    reader.next();
    match read_form(reader) {
        Ok(x) => {
            let mut items: Vec<MalExpression> = Vec::new();
            let sym = MalExpression::Symbol(name.to_owned());
            let ghost symg = sym;
            items.push(sym);
            let ghost e1 = items@;
            proof {
                lemma_seq_view_push(Seq::<MalExpression>::empty(), symg);
                assert(Seq::<MalExpression>::empty().push(symg) =~= items@);
            }
            items.push(x);
            proof {
                lemma_seq_view_push(e1, x);
                assert(seq_view(items@) =~= seq![ValView::Symbol(sigil_name(t)), val_view(x)]);
                let es = seq_view(items@);
                assert forall|k: int| 0 <= k < es.len() implies wf_val(#[trigger] es[k], 0, 0)
                    by {}
                crate::types::lemma_wf_seq(es, 0, 0);
            }
            Ok(MalExpression::List(items))
        },
        Err(e) => Err(e),
    }
}

/// Read a `'` quote form.
fn read_quote(reader: &mut Reader) -> (r: MalRet)
    requires
        old(reader).index < old(reader).tokens@.len(),
        old(reader).toks()[old(reader).index as int] == "'"@,
    ensures
        final(reader).tokens@ == old(reader).tokens@,
        old(reader).index <= final(reader).index <= final(reader).tokens@.len(),
        match r {
            Ok(v) => spec_parse_form(old(reader).toks(), old(reader).index as int) == Ok::<
                _,
                Seq<char>,
            >((val_view(v), final(reader).index as int)) && old(reader).index < final(reader).index && wf_val(val_view(v), 0, 0),
            Err(m) => spec_parse_form(old(reader).toks(), old(reader).index as int) == Err::<
                (ValView, int),
                _,
            >(m@),
        },
    decreases old(reader).tokens@.len() - old(reader).index, 2int,
{
    read_sigil_form(reader, "quote")
}

/// Read a backquote quasiquote form.
fn read_quasiquote(reader: &mut Reader) -> (r: MalRet)
    requires
        old(reader).index < old(reader).tokens@.len(),
        old(reader).toks()[old(reader).index as int] == "`"@,
    ensures
        final(reader).tokens@ == old(reader).tokens@,
        old(reader).index <= final(reader).index <= final(reader).tokens@.len(),
        match r {
            Ok(v) => spec_parse_form(old(reader).toks(), old(reader).index as int) == Ok::<
                _,
                Seq<char>,
            >((val_view(v), final(reader).index as int)) && old(reader).index < final(reader).index && wf_val(val_view(v), 0, 0),
            Err(m) => spec_parse_form(old(reader).toks(), old(reader).index as int) == Err::<
                (ValView, int),
                _,
            >(m@),
        },
    decreases old(reader).tokens@.len() - old(reader).index, 2int,
{
    proof {
        lemma_delims();
    }
    read_sigil_form(reader, "quasiquote")
}

/// Read a `~` unquote form.
fn read_unquote(reader: &mut Reader) -> (r: MalRet)
    requires
        old(reader).index < old(reader).tokens@.len(),
        old(reader).toks()[old(reader).index as int] == "~"@,
    ensures
        final(reader).tokens@ == old(reader).tokens@,
        old(reader).index <= final(reader).index <= final(reader).tokens@.len(),
        match r {
            Ok(v) => spec_parse_form(old(reader).toks(), old(reader).index as int) == Ok::<
                _,
                Seq<char>,
            >((val_view(v), final(reader).index as int)) && old(reader).index < final(reader).index && wf_val(val_view(v), 0, 0),
            Err(m) => spec_parse_form(old(reader).toks(), old(reader).index as int) == Err::<
                (ValView, int),
                _,
            >(m@),
        },
    decreases old(reader).tokens@.len() - old(reader).index, 2int,
{
    proof {
        lemma_delims();
    }
    read_sigil_form(reader, "unquote")
}

/// Read a `~@` splice-unquote form.
fn read_splice_unquote(reader: &mut Reader) -> (r: MalRet)
    requires
        old(reader).index < old(reader).tokens@.len(),
        old(reader).toks()[old(reader).index as int] == "~@"@,
    ensures
        final(reader).tokens@ == old(reader).tokens@,
        old(reader).index <= final(reader).index <= final(reader).tokens@.len(),
        match r {
            Ok(v) => spec_parse_form(old(reader).toks(), old(reader).index as int) == Ok::<
                _,
                Seq<char>,
            >((val_view(v), final(reader).index as int)) && old(reader).index < final(reader).index && wf_val(val_view(v), 0, 0),
            Err(m) => spec_parse_form(old(reader).toks(), old(reader).index as int) == Err::<
                (ValView, int),
                _,
            >(m@),
        },
    decreases old(reader).tokens@.len() - old(reader).index, 2int,
{
    proof {
        lemma_delims();
    }
    read_sigil_form(reader, "splice-unquote")
}

/// Read an `@` deref form.
fn read_deref(reader: &mut Reader) -> (r: MalRet)
    requires
        old(reader).index < old(reader).tokens@.len(),
        old(reader).toks()[old(reader).index as int] == "@"@,
    ensures
        final(reader).tokens@ == old(reader).tokens@,
        old(reader).index <= final(reader).index <= final(reader).tokens@.len(),
        match r {
            Ok(v) => spec_parse_form(old(reader).toks(), old(reader).index as int) == Ok::<
                _,
                Seq<char>,
            >((val_view(v), final(reader).index as int)) && old(reader).index < final(reader).index && wf_val(val_view(v), 0, 0),
            Err(m) => spec_parse_form(old(reader).toks(), old(reader).index as int) == Err::<
                (ValView, int),
                _,
            >(m@),
        },
    decreases old(reader).tokens@.len() - old(reader).index, 2int,
{
    proof {
        lemma_delims();
    }
    read_sigil_form(reader, "deref")
}

/// Read a whole input line as one form; trailing tokens are an error.
pub fn read_str(line: &str) -> (r: MalRet)
    ensures
        match r {
            Ok(v) => spec_read_str(line@) == Ok::<_, Seq<char>>(val_view(v)) && wf_val(
                val_view(v),
                0,
                0,
            ),
            Err(m) => spec_read_str(line@) == Err::<ValView, _>(m@),
        },
{
    let tokenized = tokenize(line);
    let mut reader = Reader { tokens: tokenized, index: 0 };
    match read_form(&mut reader) {
        Ok(form) => {
            if reader.index < reader.tokens.len() {
                Err("unexpected trailing tokens".to_owned())
            } else {
                Ok(form)
            }
        },
        Err(e) => Err(e),
    }
}


/// Digits print as digit characters carrying their value.
pub proof fn lemma_dec_digits(n: nat)
    ensures
        crate::printer::dec_digits(n).len() >= 1,
        all_digits(crate::printer::dec_digits(n)),
        is_digit(crate::printer::dec_digits(n)[0]),
        digits_val(crate::printer::dec_digits(n)) == n,
    decreases n,
{
    let ds = crate::printer::dec_digits(n);
    if n < 10 {
        assert(ds =~= seq![crate::printer::dec_digit(n)]);
        assert(crate::printer::dec_digit(n) as int == 48 + n);
        assert(ds.drop_last().len() == 0);
        assert(digits_val(ds) == digits_val(ds.drop_last()) * 10 + (ds.last() as int - 48));
    } else {
        lemma_dec_digits(n / 10);
        let pre = crate::printer::dec_digits(n / 10);
        assert(ds == pre.push(crate::printer::dec_digit(n % 10)));
        assert(ds.drop_last() =~= pre);
        assert(ds.last() == crate::printer::dec_digit(n % 10));
        assert(crate::printer::dec_digit(n % 10) as int == 48 + n % 10);
        assert(digits_val(ds) == digits_val(pre) * 10 + (n % 10));
        assert(digits_val(ds) == (n / 10) * 10 + (n % 10));
        assert((n / 10) * 10 + (n % 10) == n) by (nonlinear_arith);
        assert forall|i: int| 0 <= i < ds.len() implies is_digit(#[trigger] ds[i]) by {
            if i < pre.len() {
                assert(ds[i] == pre[i]);
            }
        }
        assert(ds[0] == pre[0]);
    }
}

/// Half of the print/read round trip for integers: the token an integer
/// prints to reads back as the same integer.
pub proof fn lemma_int_round_trip(i: i32)
    ensures
        is_int_token(crate::printer::int_to_dec(i as int)),
        int_val(crate::printer::int_to_dec(i as int)) == i as int,
        spec_atom(crate::printer::int_to_dec(i as int)) == Ok::<_, Seq<char>>(ValView::Int(i)),
{
    let t = crate::printer::int_to_dec(i as int);
    if i < 0 {
        lemma_dec_digits((-(i as int)) as nat);
        let ds = crate::printer::dec_digits((-(i as int)) as nat);
        assert(t == seq!['-'] + ds);
        assert(t[0] == '-');
        assert(int_body(t) =~= t.skip(1));
        assert(t.skip(1) =~= ds);
        assert(int_val(t) == -digits_val(ds));
    } else {
        lemma_dec_digits(i as nat);
        let ds = crate::printer::dec_digits(i as nat);
        assert(t == ds);
        assert(is_digit(t[0]));
        assert(t[0] != '-' && t[0] != '+');
        assert(int_body(t) == t);
        assert(int_val(t) == digits_val(ds));
    }
}


/// Escaping processes the first character and then the rest.
pub proof fn lemma_escape_first(s: Seq<char>)
    requires
        s.len() > 0,
    ensures
        crate::printer::escape_spec(s) == crate::printer::esc_char(s[0])
            + crate::printer::escape_spec(s.skip(1)),
    decreases s.len(),
{
    if s.len() == 1 {
        assert(s.drop_last().len() == 0);
        assert(s.skip(1).len() == 0);
        assert(s.last() == s[0]);
        assert(crate::printer::escape_spec(s) == crate::printer::escape_spec(s.drop_last())
            + crate::printer::esc_char(s.last()));
        assert(crate::printer::escape_spec(s.drop_last()) =~= Seq::<char>::empty());
        assert(crate::printer::escape_spec(s.skip(1)) =~= Seq::<char>::empty());
        assert(crate::printer::esc_char(s[0]) + Seq::<char>::empty() =~= crate::printer::esc_char(
            s[0],
        ));
        assert(Seq::<char>::empty() + crate::printer::esc_char(s[0]) =~= crate::printer::esc_char(
            s[0],
        ));
    } else {
        lemma_escape_first(s.drop_last());
        assert(s.drop_last()[0] == s[0]);
        assert(s.skip(1).drop_last() =~= s.drop_last().skip(1));
        assert(s.skip(1).last() == s.last());
        assert(crate::printer::escape_spec(s) == crate::printer::escape_spec(s.drop_last())
            + crate::printer::esc_char(s.last()));
        assert(crate::printer::escape_spec(s.skip(1)) == crate::printer::escape_spec(
            s.skip(1).drop_last(),
        ) + crate::printer::esc_char(s.skip(1).last()));
        assert((crate::printer::esc_char(s[0]) + crate::printer::escape_spec(s.drop_last().skip(1)))
            + crate::printer::esc_char(s.last()) =~= crate::printer::esc_char(s[0]) + (
        crate::printer::escape_spec(s.drop_last().skip(1)) + crate::printer::esc_char(s.last())));
    }
}

/// The escaped form of each character of a string, elementwise.
pub open spec fn esc_elems(s: Seq<char>) -> Seq<Seq<char>> {
    Seq::new(s.len(), |i: int| crate::printer::esc_char(s[i]))
}

/// Splitting an escaped string body followed by a closing quote yields one
/// element per original character and then the bare quote.
pub proof fn lemma_quoted_elems_of_escaped(s: Seq<char>)
    ensures
        quoted_elems(crate::printer::escape_spec(s) + seq!['"']) == esc_elems(s).push(seq!['"']),
    decreases s.len(),
{
    let w = crate::printer::escape_spec(s) + seq!['"'];
    if s.len() == 0 {
        assert(w =~= seq!['"']);
        assert(w[0] == '"');
        assert(w.take(1) =~= seq!['"']);
        assert(w.skip(1) =~= Seq::<char>::empty());
        assert(quoted_elems(w) == seq![w.take(1)] + quoted_elems(w.skip(1)));
        assert(quoted_elems(w) =~= esc_elems(s).push(seq!['"']));
    } else {
        let c = s[0];
        let rest = s.skip(1);
        lemma_escape_first(s);
        lemma_quoted_elems_of_escaped(rest);
        let e = crate::printer::esc_char(c);
        let tail = crate::printer::escape_spec(rest) + seq!['"'];
        assert(w =~= e + tail);
        if c == '\\' || c == '"' || c == '\n' {
            assert(e.len() == 2 && e[0] == '\\' && (e[1] == '"' || e[1] == 'n' || e[1]
                == '\\'));
            assert(w[0] == '\\');
            assert(w.len() >= 2 && w[1] == e[1]);
            assert(quoted_elems(w) == seq![w.take(2)] + quoted_elems(w.skip(2)));
            assert(w.take(2) =~= e);
            assert(w.skip(2) =~= tail);
            assert(quoted_elems(w) =~= esc_elems(s).push(seq!['"'])) by {
                assert forall|k: int|
                    0 <= k < quoted_elems(w).len() implies quoted_elems(w)[k] == esc_elems(
                    s,
                ).push(seq!['"'])[k] by {
                    if k == 0 {
                        assert(quoted_elems(w)[0] == e);
                        assert(esc_elems(s)[0] == e);
                    } else {
                        assert(quoted_elems(w)[k] == quoted_elems(tail)[k - 1]);
                        assert(quoted_elems(tail)[k - 1] == esc_elems(rest).push(
                            seq!['"'],
                        )[k - 1]);
                        if k - 1 < esc_elems(rest).len() {
                            assert(esc_elems(rest)[k - 1] == crate::printer::esc_char(
                                rest[k - 1],
                            ));
                            assert(rest[k - 1] == s[k]);
                        }
                    }
                }
            }
        } else {
            assert(e =~= seq![c]);
            assert(w[0] == c);
            assert(c != '\\');
            assert(quoted_elems(w) == seq![w.take(1)] + quoted_elems(w.skip(1)));
            assert(w.take(1) =~= e);
            assert(w.skip(1) =~= tail);
            assert(quoted_elems(w) =~= esc_elems(s).push(seq!['"'])) by {
                assert forall|k: int|
                    0 <= k < quoted_elems(w).len() implies quoted_elems(w)[k] == esc_elems(
                    s,
                ).push(seq!['"'])[k] by {
                    if k == 0 {
                        assert(quoted_elems(w)[0] == e);
                        assert(esc_elems(s)[0] == e);
                    } else {
                        assert(quoted_elems(w)[k] == quoted_elems(tail)[k - 1]);
                        assert(quoted_elems(tail)[k - 1] == esc_elems(rest).push(
                            seq!['"'],
                        )[k - 1]);
                        if k - 1 < esc_elems(rest).len() {
                            assert(esc_elems(rest)[k - 1] == crate::printer::esc_char(
                                rest[k - 1],
                            ));
                            assert(rest[k - 1] == s[k]);
                        }
                    }
                }
            }
        }
    }
}

/// Undoing the escape of each character gives the character back.
pub proof fn lemma_unescape_esc_elems(s: Seq<char>)
    ensures
        unescape_elems(esc_elems(s)) == s,
    decreases s.len(),
{
    if s.len() == 0 {
        assert(esc_elems(s).len() == 0);
        assert(unescape_elems(esc_elems(s)) =~= s);
    } else {
        lemma_unescape_esc_elems(s.drop_last());
        assert(esc_elems(s).drop_last() =~= esc_elems(s.drop_last())) by {
            assert forall|k: int|
                0 <= k < s.len() - 1 implies esc_elems(s).drop_last()[k] == #[trigger] esc_elems(
                s.drop_last(),
            )[k] by {
                assert(esc_elems(s)[k] == crate::printer::esc_char(s[k]));
                assert(s.drop_last()[k] == s[k]);
            }
        }
        assert(esc_elems(s).last() == crate::printer::esc_char(s.last()));
        assert(elem_char(crate::printer::esc_char(s.last())) == s.last());
        assert(unescape_elems(esc_elems(s)) == unescape_elems(esc_elems(s).drop_last()).push(
            elem_char(esc_elems(s).last()),
        ));
        assert(unescape_elems(esc_elems(s)) =~= s);
    }
}

/// Half of the print/read round trip for strings: the token a string value
/// prints to readably reads back as the same string.
pub proof fn lemma_string_round_trip(s: Seq<char>)
    ensures
        unescape_ok(crate::printer::str_render_spec(s, true)),
        unescape_val(crate::printer::str_render_spec(s, true)) == s,
        spec_atom(crate::printer::str_render_spec(s, true)) == Ok::<_, Seq<char>>(ValView::Str(s)),
{
    let w = crate::printer::str_render_spec(s, true);
    let body = crate::printer::escape_spec(s) + seq!['"'];
    assert(w =~= seq!['"'] + body);
    assert(w[0] == '"');
    assert(w.take(1) =~= seq!['"']);
    assert(w.skip(1) =~= body);
    assert(quoted_elems(w) == seq![w.take(1)] + quoted_elems(w.skip(1)));
    lemma_quoted_elems_of_escaped(s);
    let es = quoted_elems(w);
    assert(es =~= seq![seq!['"']] + esc_elems(s).push(seq!['"']));
    assert(es.len() == s.len() + 2);
    assert(es.first() == seq!['"']);
    assert(es.last() == seq!['"']);
    assert(es.subrange(1, es.len() - 1) =~= esc_elems(s)) by {
        assert forall|k: int|
            0 <= k < s.len() implies es.subrange(1, es.len() - 1)[k] == #[trigger] esc_elems(
            s,
        )[k] by {
            assert(es[k + 1] == esc_elems(s).push(seq!['"'])[k]);
        }
    }
    lemma_unescape_esc_elems(s);
    assert(!is_int_token(w)) by {
        assert(w.len() > 0 && w[0] == '"');
        assert(int_body(w) == w);
        assert(!is_digit(w[0]));
    }
}


/// Half of the print/read round trip for keywords: the token a keyword
/// prints to reads back as the same keyword.
pub proof fn lemma_keyword_round_trip(s: Seq<char>)
    ensures
        spec_atom(seq![':'] + s) == Ok::<_, Seq<char>>(ValView::Keyword(s)),
{
    let t = seq![':'] + s;
    assert(t[0] == ':');
    assert(!is_int_token(t)) by {
        assert(int_body(t) == t);
        assert(!is_digit(t[0]));
    }
    assert(t.skip(1) =~= s);
}

/// The three literal tokens read back as their values.
pub proof fn lemma_literal_atoms()
    ensures
        spec_atom("nil"@) == Ok::<_, Seq<char>>(ValView::Nil),
        spec_atom("true"@) == Ok::<_, Seq<char>>(ValView::Boolean(true)),
        spec_atom("false"@) == Ok::<_, Seq<char>>(ValView::Boolean(false)),
{
    reveal_strlit("nil");
    reveal_strlit("true");
    reveal_strlit("false");
    assert("nil"@ =~= seq!['n', 'i', 'l']);
    assert("true"@ =~= seq!['t', 'r', 'u', 'e']);
    assert("false"@ =~= seq!['f', 'a', 'l', 's', 'e']);
    assert(!is_int_token("nil"@)) by {
        assert(int_body("nil"@) == "nil"@);
        assert(!is_digit("nil"@[0]));
    }
    assert(!is_int_token("true"@)) by {
        assert(int_body("true"@) == "true"@);
        assert(!is_digit("true"@[0]));
    }
    assert(!is_int_token("false"@)) by {
        assert(int_body("false"@) == "false"@);
        assert(!is_digit("false"@[0]));
    }
}

/// A symbol run with no terminating characters extends to the end.
pub proof fn lemma_sym_end_all(s: Seq<char>, i: int)
    requires
        0 <= i <= s.len(),
        forall|j: int| i <= j < s.len() ==> !is_sym_term(#[trigger] s[j]),
    ensures
        sym_end(s, i) == s.len(),
    decreases s.len() - i,
{
    if i < s.len() {
        lemma_sym_end_all(s, i + 1);
    }
}

/// A text that is one symbol-like token tokenizes to that single token.
pub proof fn lemma_single_token(s: Seq<char>)
    requires
        s.len() >= 1,
        !is_ws(s[0]),
        s[0] != ';',
        s[0] != '~',
        !is_special(s[0]),
        s[0] != '"',
        forall|j: int| 1 <= j < s.len() ==> !is_sym_term(#[trigger] s[j]),
    ensures
        spec_tokens(s, 0) == seq![s],
{
    assert(skip_trivia(s, 0) == 0);
    assert(token_end(s, 0) == sym_end(s, 1));
    lemma_sym_end_all(s, 1);
    assert(s.subrange(0, s.len() as int) =~= s);
    assert(skip_trivia(s, s.len() as int) == s.len());
    assert(spec_tokens(s, s.len() as int) =~= Seq::<Seq<char>>::empty());
    assert(spec_tokens(s, 0) =~= seq![s]);
}

/// A single atom token parses as that atom alone.
pub proof fn lemma_parse_single_atom(t: Seq<char>)
    requires
        t.len() >= 1,
        t != "("@,
        t != "["@,
        t != "{"@,
        !is_sigil(t),
    ensures
        (match spec_atom(t) {
            Ok(v) => spec_parse_form(seq![t], 0) == Ok::<_, Seq<char>>((v, 1int)),
            Err(m) => spec_parse_form(seq![t], 0) == Err::<(ValView, int), _>(m),
        }),
{
    let toks = seq![t];
    assert(toks[0] == t);
}

/// The whole print/read round trip for integer values: the text an integer
/// prints to reads back as the same integer.
pub proof fn lemma_read_print_int(i: i32)
    ensures
        spec_read_str(crate::printer::pr_spec(ValView::Int(i), true)) == Ok::<_, Seq<char>>(
            ValView::Int(i),
        ),
{
    let t = crate::printer::int_to_dec(i as int);
    lemma_int_round_trip(i);
    assert(t.len() >= 1 && (is_digit(t[0]) || t[0] == '-')) by {
        if i < 0 {
            lemma_dec_digits((-(i as int)) as nat);
            assert(t == seq!['-'] + crate::printer::dec_digits((-(i as int)) as nat));
        } else {
            lemma_dec_digits(i as nat);
        }
    }
    assert(forall|j: int| 1 <= j < t.len() ==> is_digit(#[trigger] t[j])) by {
        assert(all_digits(int_body(t)));
        if i < 0 {
            assert forall|j: int| 1 <= j < t.len() implies is_digit(#[trigger] t[j]) by {
                assert(int_body(t) == t.skip(1));
                assert(t.skip(1)[j - 1] == t[j]);
            }
        } else {
            lemma_dec_digits(i as nat);
            assert(t[0] != '-' && t[0] != '+');
            assert(int_body(t) == t);
        }
    }
    assert forall|j: int| 1 <= j < t.len() implies !is_sym_term(#[trigger] t[j]) by {
        assert(is_digit(t[j]));
    }
    lemma_single_token(t);
    lemma_delims();
    assert(t != "("@ && t != "["@ && t != "{"@ && !is_sigil(t)) by {
        assert(!is_digit('(') && '-' != '(');
        assert(!is_digit('[') && '-' != '[');
        assert(!is_digit('{') && '-' != '{');
        assert(!is_digit('\'') && '-' != '\'');
        assert(!is_digit('`') && '-' != '`');
        assert(!is_digit('~') && '-' != '~');
        assert(!is_digit('@') && '-' != '@');
    }
    lemma_parse_single_atom(t);
}

/// The whole print/read round trip for the three literals.
pub proof fn lemma_read_print_literals()
    ensures
        spec_read_str(crate::printer::pr_spec(ValView::Nil, true)) == Ok::<_, Seq<char>>(
            ValView::Nil,
        ),
        spec_read_str(crate::printer::pr_spec(ValView::Boolean(true), true)) == Ok::<
            _,
            Seq<char>,
        >(ValView::Boolean(true)),
        spec_read_str(crate::printer::pr_spec(ValView::Boolean(false), true)) == Ok::<
            _,
            Seq<char>,
        >(ValView::Boolean(false)),
{
    lemma_literal_atoms();
    lemma_delims();
    reveal_strlit("nil");
    reveal_strlit("true");
    reveal_strlit("false");
    assert("nil"@ =~= seq!['n', 'i', 'l']);
    assert("true"@ =~= seq!['t', 'r', 'u', 'e']);
    assert("false"@ =~= seq!['f', 'a', 'l', 's', 'e']);
    lemma_single_token("nil"@);
    lemma_single_token("true"@);
    lemma_single_token("false"@);
    lemma_parse_single_atom("nil"@);
    lemma_parse_single_atom("true"@);
    lemma_parse_single_atom("false"@);
}


/// Scanning a string token over an escaped body runs to the closing quote
/// at the very end.
pub proof fn lemma_string_end_escaped(w: Seq<char>, p: int, s: Seq<char>)
    requires
        0 <= p <= w.len(),
        w.skip(p) == crate::printer::escape_spec(s) + seq!['"'],
    ensures
        string_end(w, p) == w.len(),
    decreases s.len(),
{
    assert(w.skip(p).len() == w.len() - p);
    if s.len() == 0 {
        assert(crate::printer::escape_spec(s) =~= Seq::<char>::empty());
        assert(w.skip(p).len() == 1);
        assert(w[p] == w.skip(p)[0]);
        assert(w[p] == '"');
    } else {
        lemma_escape_first(s);
        let c = s[0];
        let e = crate::printer::esc_char(c);
        let tail = crate::printer::escape_spec(s.skip(1)) + seq!['"'];
        assert(w.skip(p) =~= e + tail);
        if c == '\\' || c == '"' || c == '\n' {
            assert(e.len() == 2 && e[0] == '\\');
            assert(w[p] == w.skip(p)[0]);
            assert(w[p] == '\\');
            assert(p + 1 < w.len());
            assert forall|q: int| 0 <= q < w.len() - p - 2 implies w.skip(p + 2)[q]
                == #[trigger] tail[q] by {
                assert(w.skip(p + 2)[q] == w[p + 2 + q]);
                assert(w.skip(p)[2 + q] == w[p + 2 + q]);
                assert((e + tail)[2 + q] == tail[q]);
            }
            assert(w.skip(p + 2) =~= tail);
            lemma_string_end_escaped(w, p + 2, s.skip(1));
        } else {
            assert(e =~= seq![c]);
            assert(w[p] == w.skip(p)[0]);
            assert(w[p] == c);
            assert(c != '\\' && c != '"');
            assert forall|q: int| 0 <= q < w.len() - p - 1 implies w.skip(p + 1)[q]
                == #[trigger] tail[q] by {
                assert(w.skip(p + 1)[q] == w[p + 1 + q]);
                assert(w.skip(p)[1 + q] == w[p + 1 + q]);
                assert((e + tail)[1 + q] == tail[q]);
            }
            assert(w.skip(p + 1) =~= tail);
            lemma_string_end_escaped(w, p + 1, s.skip(1));
        }
    }
}

/// The whole print/read round trip for string values: the text a string
/// prints to readably reads back as the same string.
pub proof fn lemma_read_print_str(s: Seq<char>)
    ensures
        spec_read_str(crate::printer::pr_spec(ValView::Str(s), true)) == Ok::<_, Seq<char>>(
            ValView::Str(s),
        ),
{
    let w = crate::printer::str_render_spec(s, true);
    assert(w =~= seq!['"'] + (crate::printer::escape_spec(s) + seq!['"']));
    assert(w[0] == '"');
    assert(skip_trivia(w, 0) == 0);
    assert(w.skip(1) =~= crate::printer::escape_spec(s) + seq!['"']);
    lemma_string_end_escaped(w, 1, s);
    assert(token_end(w, 0) == w.len());
    assert(w.subrange(0, w.len() as int) =~= w);
    assert(skip_trivia(w, w.len() as int) == w.len());
    assert(spec_tokens(w, w.len() as int) =~= Seq::<Seq<char>>::empty());
    assert(spec_tokens(w, 0) =~= seq![w]);
    lemma_delims();
    assert(w != "("@ && w != "["@ && w != "{"@ && !is_sigil(w));
    lemma_string_round_trip(s);
    lemma_parse_single_atom(w);
}


/// The print/read round trip for keywords whose name contains no delimiter
/// characters; a name with whitespace or a bracket in it would not lex as
/// one token, so such names are left out.
pub proof fn lemma_read_print_keyword(s: Seq<char>)
    requires
        forall|j: int| 0 <= j < s.len() ==> !is_sym_term(#[trigger] s[j]),
    ensures
        spec_read_str(crate::printer::pr_spec(ValView::Keyword(s), true)) == Ok::<_, Seq<char>>(
            ValView::Keyword(s),
        ),
{
    let w = seq![':'] + s;
    assert(w[0] == ':');
    assert(!is_ws(':') && ':' != ';' && ':' != '~' && !is_special(':') && ':' != '"');
    assert forall|j: int| 1 <= j < w.len() implies !is_sym_term(#[trigger] w[j]) by {
        assert(w[j] == s[j - 1]);
    }
    lemma_single_token(w);
    lemma_delims();
    assert(w != "("@ && w != "["@ && w != "{"@ && !is_sigil(w));
    lemma_keyword_round_trip(s);
    lemma_parse_single_atom(w);
}

/// The print/read round trip for symbols: a name that contains no delimiter
/// characters, does not begin like another atom kind, and is not an integer
/// or literal token reads back as the same symbol.
pub proof fn lemma_read_print_symbol(s: Seq<char>)
    requires
        s.len() >= 1,
        forall|j: int| 0 <= j < s.len() ==> !is_sym_term(#[trigger] s[j]),
        !is_special(s[0]),
        s[0] != '~',
        s[0] != ':',
        !is_int_token(s),
        s != "nil"@,
        s != "true"@,
        s != "false"@,
    ensures
        spec_read_str(crate::printer::pr_spec(ValView::Symbol(s), true)) == Ok::<_, Seq<char>>(
            ValView::Symbol(s),
        ),
{
    assert(!is_ws(s[0]) && s[0] != ';' && s[0] != '"');
    lemma_single_token(s);
    lemma_delims();
    assert(s != "("@ && s != "["@ && s != "{"@ && !is_sigil(s)) by {
        assert(!is_special(s[0]) && s[0] != '~');
        if s == "("@ {
            assert(s[0] == '(');
        }
        if s == "["@ {
            assert(s[0] == '[');
        }
        if s == "{"@ {
            assert(s[0] == '{');
        }
        if s == "'"@ {
            assert(s[0] == '\'');
        }
        if s == "`"@ {
            assert(s[0] == '`');
        }
        if s == "~"@ || s == "~@"@ {
            assert(s[0] == '~');
        }
        if s == "@"@ {
            assert(s[0] == '@');
        }
    }
    lemma_parse_single_atom(s);
}


} // verus!
