//! The grammar of one line of a trace log.
//!
//! A line is either an invocation record,
//! `execve("<path>", [<strings>], [<key=value strings>]) = <code>`,
//! or a footer record, `+++ exited with <code> +++`. A quoted string is a
//! double quote, one or more characters other than a double quote, and a
//! double quote: there is no escaping. The elements of an array are separated
//! by `", "`. A return code is a run of decimal digits whose value fits in a
//! byte. A record spans the whole line: a line with text after a complete
//! record is no record. The parsers of the parts of a record hand back the
//! text that follows what they read.

use vstd::prelude::*;
use crate::exec::{Exec, ExecView};
use crate::text::{chars_of, decimal_text, digit_char, has_at, has_token, string_of};

verus! {

// ---------------------------------------------------------------- grammar

/// A decimal digit.
pub open spec fn is_digit_char(c: char) -> bool {
    '0' <= c && c <= '9'
}

/// The value of a string of decimal digits.
pub open spec fn decimal_value(d: Seq<char>) -> nat
    decreases d.len(),
{
    if d.len() == 0 {
        0
    } else {
        decimal_value(d.drop_last()) * 10 + ((d.last() as nat) - ('0' as nat)) as nat
    }
}

/// The end of the run of digits that starts at `i`.
pub open spec fn digits_end(s: Seq<char>, i: int) -> int
    decreases s.len() - i,
{
    if 0 <= i < s.len() && is_digit_char(s[i]) {
        digits_end(s, i + 1)
    } else {
        i
    }
}

/// A return code at `i`, with the position that follows it.
pub open spec fn spec_retcode(s: Seq<char>, i: int) -> Option<(u8, int)> {
    let j = digits_end(s, i);
    if i < j && decimal_value(s.subrange(i, j)) <= 255 {
        Some((decimal_value(s.subrange(i, j)) as u8, j))
    } else {
        None
    }
}

/// The first double quote at or after `i`, or the end of `s`.
pub open spec fn quote_end(s: Seq<char>, i: int) -> int
    decreases s.len() - i,
{
    if 0 <= i < s.len() && s[i] != '"' {
        quote_end(s, i + 1)
    } else {
        i
    }
}

/// A quoted string at `i`: its content, with the position that follows it.
pub open spec fn spec_string(s: Seq<char>, i: int) -> Option<(Seq<char>, int)> {
    if 0 <= i < s.len() && s[i] == '"' {
        let j = quote_end(s, i + 1);
        if i + 1 < j < s.len() {
            Some((s.subrange(i + 1, j), j + 1))
        } else {
            None
        }
    } else {
        None
    }
}

/// The text of a quoted string whose content is `c`.
pub open spec fn quoted(c: Seq<char>) -> Seq<char> {
    seq!['"'] + c + seq!['"']
}

/// The separator between array elements.
pub open spec fn sep() -> Seq<char> {
    seq![',', ' ']
}

/// The quoted strings that start at `i` and run to a closing `]`, with the
/// position after the bracket.
pub open spec fn spec_str_items(s: Seq<char>, i: int) -> Option<(Seq<Seq<char>>, int)>
    decreases s.len() - i,
{
    match spec_string(s, i) {
        Some((x, j)) => if has_at(s, j, sep()) {
            match spec_str_items(s, j + 2) {
                Some((xs, k)) => Some((seq![x] + xs, k)),
                None => None,
            }
        } else if 0 <= j < s.len() && s[j] == ']' {
            Some((seq![x], j + 1))
        } else {
            None
        },
        None => None,
    }
}

/// An array of strings at `i`, with the position that follows it.
pub open spec fn spec_arr_of_str(s: Seq<char>, i: int) -> Option<(Seq<Seq<char>>, int)> {
    if has_at(s, i, seq!['[', ']']) {
        Some((seq![], i + 2))
    } else if has_at(s, i, seq!['[']) {
        spec_str_items(s, i + 1)
    } else {
        None
    }
}

/// The position of the first `=` of `c` at or after `k`, or the length of `c`.
pub open spec fn eq_index(c: Seq<char>, k: int) -> int
    decreases c.len() - k,
{
    if 0 <= k < c.len() && c[k] != '=' {
        eq_index(c, k + 1)
    } else {
        k
    }
}

/// `c` split at its first `=`, if it has one.
pub open spec fn split_key_value(c: Seq<char>) -> Option<(Seq<char>, Seq<char>)> {
    let e = eq_index(c, 0);
    if e < c.len() {
        Some((c.subrange(0, e), c.subrange(e + 1, c.len() as int)))
    } else {
        None
    }
}

/// A quoted `key=value` string at `i`, with the position that follows it.
pub open spec fn spec_env_var(s: Seq<char>, i: int) -> Option<((Seq<char>, Seq<char>), int)> {
    match spec_string(s, i) {
        Some((c, j)) => match split_key_value(c) {
            Some(kv) => Some((kv, j)),
            None => None,
        },
        None => None,
    }
}

/// The `key=value` strings that start at `i` and run to a closing `]`, with
/// the position after the bracket.
pub open spec fn spec_env_items(s: Seq<char>, i: int) -> Option<
    (Seq<(Seq<char>, Seq<char>)>, int),
>
    decreases s.len() - i,
{
    match spec_env_var(s, i) {
        Some((x, j)) => if has_at(s, j, sep()) {
            match spec_env_items(s, j + 2) {
                Some((xs, k)) => Some((seq![x] + xs, k)),
                None => None,
            }
        } else if 0 <= j < s.len() && s[j] == ']' {
            Some((seq![x], j + 1))
        } else {
            None
        },
        None => None,
    }
}

/// An array of `key=value` strings at `i`, with the position that follows it.
pub open spec fn spec_arr_of_env_var(s: Seq<char>, i: int) -> Option<
    (Seq<(Seq<char>, Seq<char>)>, int),
> {
    if has_at(s, i, seq!['[', ']']) {
        Some((seq![], i + 2))
    } else if has_at(s, i, seq!['[']) {
        spec_env_items(s, i + 1)
    } else {
        None
    }
}

/// An invocation record at the start of `s`, with the position that follows it.
pub open spec fn spec_execve(s: Seq<char>) -> Option<(ExecView, int)> {
    let open = "execve("@;
    let close = ") = "@;
    if has_at(s, 0, open) {
        match spec_string(s, open.len() as int) {
            Some((path, j)) => if has_at(s, j, sep()) {
                match spec_arr_of_str(s, j + 2) {
                    Some((args, k)) => if has_at(s, k, sep()) {
                        match spec_arr_of_env_var(s, k + 2) {
                            Some((env, m)) => if has_at(s, m, close) {
                                match spec_retcode(s, m + close.len()) {
                                    Some((retcode, n)) => Some(
                                        (ExecView { path, args, env, retcode }, n),
                                    ),
                                    None => None,
                                }
                            } else {
                                None
                            },
                            None => None,
                        }
                    } else {
                        None
                    },
                    None => None,
                }
            } else {
                None
            },
            None => None,
        }
    } else {
        None
    }
}

/// A footer record at the start of `s`: its code, with the position that
/// follows it.
pub open spec fn spec_footer(s: Seq<char>) -> Option<(u8, int)> {
    let open = "+++ exited with "@;
    let close = " +++"@;
    if has_at(s, 0, open) {
        match spec_retcode(s, open.len() as int) {
            Some((code, j)) => if has_at(s, j, close) {
                Some((code, j + close.len()))
            } else {
                None
            },
            None => None,
        }
    } else {
        None
    }
}

/// What a line holds: `Some(None)` for a footer record, `Some(Some(e))` for an
/// invocation record, `None` for a line that is neither. A record must end
/// where the line ends.
pub open spec fn spec_line(s: Seq<char>) -> Option<Option<ExecView>> {
    if spec_footer(s) matches Some((_, n)) && n == s.len() {
        Some(None)
    } else {
        match spec_execve(s) {
            Some((e, n)) => if n == s.len() {
                Some(Some(e))
            } else {
                None
            },
            None => None,
        }
    }
}

// ---------------------------------------------------------------- views of results

/// A parsed string with the position that follows it, as a value.
pub open spec fn str_at_view(r: Option<(String, usize)>) -> Option<(Seq<char>, int)> {
    match r {
        Some((x, j)) => Some((x@, j as int)),
        None => None,
    }
}

/// A parsed list of strings with the position that follows it, as a value.
pub open spec fn strs_at_view(r: Option<(Vec<String>, usize)>) -> Option<(Seq<Seq<char>>, int)> {
    match r {
        Some((x, j)) => Some((x.deep_view(), j as int)),
        None => None,
    }
}

/// A parsed `key=value` pair with the position that follows it, as a value.
pub open spec fn kv_at_view(r: Option<((String, String), usize)>) -> Option<
    ((Seq<char>, Seq<char>), int),
> {
    match r {
        Some((x, j)) => Some(((x.0@, x.1@), j as int)),
        None => None,
    }
}

/// A parsed list of `key=value` pairs with the position that follows it, as a value.
pub open spec fn kvs_at_view(r: Option<(Vec<(String, String)>, usize)>) -> Option<
    (Seq<(Seq<char>, Seq<char>)>, int),
> {
    match r {
        Some((x, j)) => Some((x.deep_view(), j as int)),
        None => None,
    }
}

/// `r` with `xs` put before the list it holds.
pub open spec fn prepend<T>(xs: Seq<T>, r: Option<(Seq<T>, int)>) -> Option<(Seq<T>, int)> {
    match r {
        Some((ys, k)) => Some((xs + ys, k)),
        None => None,
    }
}

// ---------------------------------------------------------------- positional parsers

/// Whether `c` is a decimal digit.
pub fn is_digit(c: char) -> (r: bool)
    ensures
        r == is_digit_char(c),
{
    '0' <= c && c <= '9'
}

/// The value of the digits `v[from..to]`, if it fits in a byte.
pub fn from_dec(v: &Vec<char>, from: usize, to: usize) -> (r: Option<u8>)
    requires
        from <= to <= v.len(),
        forall|t: int| from <= t < to ==> is_digit_char(#[trigger] v@[t]),
    ensures
        r is Some <==> (from < to && decimal_value(v@.subrange(from as int, to as int)) <= 255),
        r is Some ==> r->0 == decimal_value(v@.subrange(from as int, to as int)),
{
    if from == to {
        return None;
    }
    let mut acc: u32 = 0;
    let mut i: usize = from;
    while i < to
        invariant
            from <= i <= to <= v.len(),
            forall|t: int| from <= t < to ==> is_digit_char(#[trigger] v@[t]),
            acc == decimal_value(v@.subrange(from as int, i as int)),
            acc <= 255,
        decreases to - i,
    {
        let d: u32 = (v[i] as u32) - ('0' as u32);
        assert(v@.subrange(from as int, i + 1).drop_last() =~= v@.subrange(from as int, i as int));
        acc = acc * 10 + d;
        i = i + 1;
        if acc > 255 {
            proof { lemma_decimal_prefix_bound(v@.subrange(from as int, to as int), i - from); }
            assert(v@.subrange(from as int, to as int).subrange(0, i - from) =~= v@.subrange(
                from as int,
                i as int,
            ));
            return None;
        }
    }
    Some(acc as u8)
}

/// A prefix of a digit string is worth no more than the whole string.
proof fn lemma_decimal_prefix_bound(d: Seq<char>, n: int)
    requires
        0 <= n <= d.len(),
        forall|t: int| 0 <= t < d.len() ==> is_digit_char(#[trigger] d[t]),
    ensures
        decimal_value(d.subrange(0, n)) <= decimal_value(d),
    decreases d.len() - n,
{
    if n < d.len() {
        lemma_decimal_prefix_bound(d, n + 1);
        assert(d.subrange(0, n + 1).drop_last() =~= d.subrange(0, n));
    } else {
        assert(d.subrange(0, n) =~= d);
    }
}

/// The end of the run of digits that starts at `i`.
fn digits_end_at(v: &Vec<char>, i: usize) -> (j: usize)
    requires
        i <= v.len(),
    ensures
        j == digits_end(v@, i as int),
        i <= j <= v.len(),
        forall|t: int| i <= t < j ==> is_digit_char(#[trigger] v@[t]),
{
    let mut j: usize = i;
    while j < v.len() && is_digit(v[j])
        invariant
            i <= j <= v.len(),
            digits_end(v@, i as int) == digits_end(v@, j as int),
            forall|t: int| i <= t < j ==> is_digit_char(#[trigger] v@[t]),
        decreases v.len() - j,
    {
        j = j + 1;
    }
    j
}

/// A return code at `i`.
fn retcode_at(v: &Vec<char>, i: usize) -> (r: Option<(u8, usize)>)
    requires
        i <= v.len(),
    ensures
        match r {
            Some((_, j)) => j <= v.len(),
            None => true,
        },
        match r {
            Some((c, j)) => spec_retcode(v@, i as int) == Some((c, j as int)),
            None => spec_retcode(v@, i as int) is None,
        },
{
    let j = digits_end_at(v, i);
    match from_dec(v, i, j) {
        Some(c) => Some((c, j)),
        None => None,
    }
}

/// The first double quote at or after `i`, or the end of `v`.
fn quote_end_at(v: &Vec<char>, i: usize) -> (j: usize)
    requires
        i <= v.len(),
    ensures
        j == quote_end(v@, i as int),
        i <= j <= v.len(),
{
    let mut j: usize = i;
    while j < v.len() && v[j] != '"'
        invariant
            i <= j <= v.len(),
            quote_end(v@, i as int) == quote_end(v@, j as int),
        decreases v.len() - j,
    {
        j = j + 1;
    }
    j
}

/// A quoted string at `i`.
fn string_at(v: &Vec<char>, i: usize) -> (r: Option<(String, usize)>)
    requires
        i <= v.len(),
    ensures
        match r {
            Some((_, j)) => j <= v.len(),
            None => true,
        },
        str_at_view(r) == spec_string(v@, i as int),
{
    if i < v.len() && v[i] == '"' {
        let j = quote_end_at(v, i + 1);
        if i + 1 < j && j < v.len() {
            Some((string_of(v, i + 1, j), j + 1))
        } else {
            None
        }
    } else {
        None
    }
}

/// The quoted strings that start at `i` and run to a closing `]`.
fn str_items_at(v: &Vec<char>, i: usize) -> (r: Option<(Vec<String>, usize)>)
    requires
        i <= v.len(),
    ensures
        match r {
            Some((_, j)) => j <= v.len(),
            None => true,
        },
        strs_at_view(r) == spec_str_items(v@, i as int),
{
    let sep_tok: Vec<char> = vec![',', ' '];
    assert(sep_tok@ =~= sep());
    let mut out: Vec<String> = Vec::new();
    let mut pos: usize = i;
    loop
        invariant
            i <= pos <= v.len(),
            sep_tok@ == sep(),
            spec_str_items(v@, i as int) == prepend(out.deep_view(), spec_str_items(v@, pos as int)),
        decreases v.len() - pos,
    {
        match string_at(v, pos) {
            None => {
                return None;
            },
            Some((x, j)) => {
                let ghost before = out.deep_view();
                out.push(x);
                assert(out.deep_view() =~= before + seq![x@]);
                if has_token(v, j, &sep_tok) {
                    let ghost rest = spec_str_items(v@, j + 2);
                    assert(prepend(before, prepend(seq![x@], rest)) == prepend(out.deep_view(), rest))
                        by {
                        if let Some((ys, k)) = rest {
                            assert(before + (seq![x@] + ys) =~= out.deep_view() + ys);
                        }
                    }
                    pos = j + 2;
                } else if j < v.len() && v[j] == ']' {
                    assert(before + seq![x@] =~= out.deep_view());
                    return Some((out, j + 1));
                } else {
                    return None;
                }
            },
        }
    }
}

/// An array of strings at `i`.
fn arr_of_str_at(v: &Vec<char>, i: usize) -> (r: Option<(Vec<String>, usize)>)
    requires
        i <= v.len(),
    ensures
        match r {
            Some((_, j)) => j <= v.len(),
            None => true,
        },
        strs_at_view(r) == spec_arr_of_str(v@, i as int),
{
    let empty: Vec<char> = vec!['[', ']'];
    let open: Vec<char> = vec!['['];
    assert(empty@ =~= seq!['[', ']']);
    assert(open@ =~= seq!['[']);
    if has_token(v, i, &empty) {
        let out: Vec<String> = Vec::new();
        assert(out.deep_view() =~= seq![]);
        Some((out, i + 2))
    } else if has_token(v, i, &open) {
        str_items_at(v, i + 1)
    } else {
        None
    }
}

/// The first `=` in `v[from..to]`, or `to`.
fn eq_index_at(v: &Vec<char>, from: usize, to: usize) -> (e: usize)
    requires
        from <= to <= v.len(),
    ensures
        from + eq_index(v@.subrange(from as int, to as int), 0) == e,
        from <= e <= to,
{
    let ghost c = v@.subrange(from as int, to as int);
    let mut e: usize = from;
    while e < to && v[e] != '='
        invariant
            from <= e <= to <= v.len(),
            c == v@.subrange(from as int, to as int),
            eq_index(c, 0) == eq_index(c, e - from),
        decreases to - e,
    {
        assert(c[e - from] == v@[e as int]);
        e = e + 1;
    }
    e
}

/// A quoted `key=value` string at `i`.
fn env_var_at(v: &Vec<char>, i: usize) -> (r: Option<((String, String), usize)>)
    requires
        i <= v.len(),
    ensures
        match r {
            Some((_, j)) => j <= v.len(),
            None => true,
        },
        kv_at_view(r) == spec_env_var(v@, i as int),
{
    if i < v.len() && v[i] == '"' {
        let q = quote_end_at(v, i + 1);
        if i + 1 < q && q < v.len() {
            let e = eq_index_at(v, i + 1, q);
            let ghost c = v@.subrange(i + 1, q as int);
            if e < q {
                let key = string_of(v, i + 1, e);
                let value = string_of(v, e + 1, q);
                assert(key@ =~= c.subrange(0, e - (i + 1)));
                assert(value@ =~= c.subrange(e - (i + 1) + 1, c.len() as int));
                Some(((key, value), q + 1))
            } else {
                None
            }
        } else {
            None
        }
    } else {
        None
    }
}

/// The `key=value` strings that start at `i` and run to a closing `]`.
fn env_items_at(v: &Vec<char>, i: usize) -> (r: Option<(Vec<(String, String)>, usize)>)
    requires
        i <= v.len(),
    ensures
        match r {
            Some((_, j)) => j <= v.len(),
            None => true,
        },
        kvs_at_view(r) == spec_env_items(v@, i as int),
{
    let sep_tok: Vec<char> = vec![',', ' '];
    assert(sep_tok@ =~= sep());
    let mut out: Vec<(String, String)> = Vec::new();
    let mut pos: usize = i;
    loop
        invariant
            i <= pos <= v.len(),
            sep_tok@ == sep(),
            spec_env_items(v@, i as int) == prepend(out.deep_view(), spec_env_items(v@, pos as int)),
        decreases v.len() - pos,
    {
        match env_var_at(v, pos) {
            None => {
                return None;
            },
            Some((x, j)) => {
                let ghost before = out.deep_view();
                let ghost xv = (x.0@, x.1@);
                out.push(x);
                assert(out.deep_view() =~= before + seq![xv]);
                if has_token(v, j, &sep_tok) {
                    let ghost rest = spec_env_items(v@, j + 2);
                    assert(prepend(before, prepend(seq![xv], rest)) == prepend(out.deep_view(), rest))
                        by {
                        if let Some((ys, k)) = rest {
                            assert(before + (seq![xv] + ys) =~= out.deep_view() + ys);
                        }
                    }
                    pos = j + 2;
                } else if j < v.len() && v[j] == ']' {
                    assert(before + seq![xv] =~= out.deep_view());
                    return Some((out, j + 1));
                } else {
                    return None;
                }
            },
        }
    }
}

/// An array of `key=value` strings at `i`.
fn arr_of_env_var_at(v: &Vec<char>, i: usize) -> (r: Option<(Vec<(String, String)>, usize)>)
    requires
        i <= v.len(),
    ensures
        match r {
            Some((_, j)) => j <= v.len(),
            None => true,
        },
        kvs_at_view(r) == spec_arr_of_env_var(v@, i as int),
{
    let empty: Vec<char> = vec!['[', ']'];
    let open: Vec<char> = vec!['['];
    assert(empty@ =~= seq!['[', ']']);
    assert(open@ =~= seq!['[']);
    if has_token(v, i, &empty) {
        let out: Vec<(String, String)> = Vec::new();
        assert(out.deep_view() =~= seq![]);
        Some((out, i + 2))
    } else if has_token(v, i, &open) {
        env_items_at(v, i + 1)
    } else {
        None
    }
}

/// An invocation record at the start of `v`.
fn execve_at(v: &Vec<char>) -> (r: Option<(Exec, usize)>)
    ensures
        match r {
            Some((_, j)) => j <= v.len(),
            None => true,
        },
        match r {
            Some((e, n)) => spec_execve(v@) == Some((e@, n as int)),
            None => spec_execve(v@) is None,
        },
{
    let open = chars_of("execve(");
    let close = chars_of(") = ");
    let sep_tok: Vec<char> = vec![',', ' '];
    assert(sep_tok@ =~= sep());
    if !has_token(v, 0, &open) {
        return None;
    }
    let (path, j) = match string_at(v, open.len()) {
        Some(p) => p,
        None => {
            return None;
        },
    };
    if !has_token(v, j, &sep_tok) {
        return None;
    }
    let (args, k) = match arr_of_str_at(v, j + 2) {
        Some(p) => p,
        None => {
            return None;
        },
    };
    if !has_token(v, k, &sep_tok) {
        return None;
    }
    let (env, m) = match arr_of_env_var_at(v, k + 2) {
        Some(p) => p,
        None => {
            return None;
        },
    };
    if !has_token(v, m, &close) {
        return None;
    }
    match retcode_at(v, m + close.len()) {
        Some((retcode, n)) => Some((Exec { path, args, env, retcode }, n)),
        None => None,
    }
}

/// A footer record at the start of `v`.
fn footer_at(v: &Vec<char>) -> (r: Option<(u8, usize)>)
    ensures
        match r {
            Some((_, j)) => j <= v.len(),
            None => true,
        },
        match r {
            Some((c, n)) => spec_footer(v@) == Some((c, n as int)),
            None => spec_footer(v@) is None,
        },
{
    let open = chars_of("+++ exited with ");
    let close = chars_of(" +++");
    if !has_token(v, 0, &open) {
        return None;
    }
    match retcode_at(v, open.len()) {
        Some((c, j)) => if has_token(v, j, &close) {
            Some((c, j + close.len()))
        } else {
            None
        },
        None => None,
    }
}

// ---------------------------------------------------------------- productions on text

/// A quoted string at the start of `input`: the text that follows it, and
/// its content.
pub fn string(input: &str) -> (r: Option<(String, String)>)
    ensures
        match (spec_string(input@, 0), r) {
            (Some((c, j)), Some((rest, x))) => rest@ == input@.subrange(j, input@.len() as int)
                && x@ == c,
            (None, None) => true,
            _ => false,
        },
{
    let v = chars_of(input);
    match string_at(&v, 0) {
        Some((c, j)) => Some((string_of(&v, j, v.len()), c)),
        None => None,
    }
}

/// An array of strings at the start of `input`: the text that follows it,
/// and its elements.
pub fn arr_of_str(input: &str) -> (r: Option<(String, Vec<String>)>)
    ensures
        match (spec_arr_of_str(input@, 0), r) {
            (Some((xs, j)), Some((rest, x))) => rest@ == input@.subrange(j, input@.len() as int)
                && x.deep_view() == xs,
            (None, None) => true,
            _ => false,
        },
{
    let v = chars_of(input);
    match arr_of_str_at(&v, 0) {
        Some((xs, j)) => Some((string_of(&v, j, v.len()), xs)),
        None => None,
    }
}

/// A return code at the start of `input`: the text that follows it, and its
/// value.
pub fn retcode(input: &str) -> (r: Option<(String, u8)>)
    ensures
        match (spec_retcode(input@, 0), r) {
            (Some((c, j)), Some((rest, x))) => rest@ == input@.subrange(j, input@.len() as int)
                && x == c,
            (None, None) => true,
            _ => false,
        },
{
    let v = chars_of(input);
    match retcode_at(&v, 0) {
        Some((c, j)) => Some((string_of(&v, j, v.len()), c)),
        None => None,
    }
}

/// A quoted `key=value` string at the start of `input`: the text that
/// follows it, and the key and value.
pub fn env_var(input: &str) -> (r: Option<(String, (String, String))>)
    ensures
        match (spec_env_var(input@, 0), r) {
            (Some((kv, j)), Some((rest, x))) => rest@ == input@.subrange(j, input@.len() as int)
                && (x.0@, x.1@) == kv,
            (None, None) => true,
            _ => false,
        },
{
    let v = chars_of(input);
    match env_var_at(&v, 0) {
        Some((kv, j)) => Some((string_of(&v, j, v.len()), kv)),
        None => None,
    }
}

/// An array of `key=value` strings at the start of `input`: the text that
/// follows it, and its pairs.
pub fn arr_of_env_var(input: &str) -> (r: Option<(String, Vec<(String, String)>)>)
    ensures
        match (spec_arr_of_env_var(input@, 0), r) {
            (Some((xs, j)), Some((rest, x))) => rest@ == input@.subrange(j, input@.len() as int)
                && x.deep_view() == xs,
            (None, None) => true,
            _ => false,
        },
{
    let v = chars_of(input);
    match arr_of_env_var_at(&v, 0) {
        Some((xs, j)) => Some((string_of(&v, j, v.len()), xs)),
        None => None,
    }
}

/// An invocation record at the start of `input`: the text that follows it,
/// and the invocation.
pub fn execve(input: &str) -> (r: Option<(String, Exec)>)
    ensures
        match (spec_execve(input@), r) {
            (Some((e, j)), Some((rest, x))) => rest@ == input@.subrange(j, input@.len() as int)
                && x@ == e,
            (None, None) => true,
            _ => false,
        },
{
    let v = chars_of(input);
    match execve_at(&v) {
        Some((e, j)) => Some((string_of(&v, j, v.len()), e)),
        None => None,
    }
}

/// A footer record at the start of `input`: the text that follows it, and
/// its code.
pub fn footer(input: &str) -> (r: Option<(String, u8)>)
    ensures
        match (spec_footer(input@), r) {
            (Some((c, j)), Some((rest, x))) => rest@ == input@.subrange(j, input@.len() as int)
                && x == c,
            (None, None) => true,
            _ => false,
        },
{
    let v = chars_of(input);
    match footer_at(&v) {
        Some((c, j)) => Some((string_of(&v, j, v.len()), c)),
        None => None,
    }
}

/// The text of the error for a line that is no record.
pub open spec fn parse_error_text(line: Seq<char>) -> Seq<char> {
    "failed to parse:\n "@ + line
}

/// Parses one line of a trace log: `Ok(Some(e))` for an invocation record,
/// `Ok(None)` for a footer record, and an error naming the line for any
/// other line, also for a record followed by more text.
pub fn parseln(input: &str) -> (r: Result<Option<Exec>, String>)
    ensures
        match spec_line(input@) {
            Some(Some(e)) => r is Ok && r->Ok_0 is Some && r->Ok_0->0@ == e,
            Some(None) => r == Ok::<Option<Exec>, String>(None),
            None => r is Err && r->Err_0@ == parse_error_text(input@),
        },
{
    let v = chars_of(input);
    if let Some((_, n)) = footer_at(&v) {
        if n == v.len() {
            return Ok(None);
        }
    }
    if let Some((e, n)) = execve_at(&v) {
        if n == v.len() {
            return Ok(Some(e));
        }
    }
    let mut msg = "failed to parse:\n ".to_owned();
    msg.append(input);
    Err(msg)
}

// ---------------------------------------------------------------- laws

/// Where the search for a closing quote stops: no quote lies before it, and
/// a quote lies at it unless it is the end.
pub proof fn lemma_quote_end(s: Seq<char>, i: int)
    requires
        0 <= i <= s.len(),
    ensures
        i <= quote_end(s, i) <= s.len(),
        quote_end(s, i) < s.len() ==> s[quote_end(s, i)] == '"',
        forall|t: int| i <= t < quote_end(s, i) ==> s[t] != '"',
    decreases s.len() - i,
{
    if i < s.len() && s[i] != '"' {
        lemma_quote_end(s, i + 1);
    }
}

/// A quoted string is read back as its content, whatever text follows it.
pub proof fn lemma_quoted_parses(c: Seq<char>, rest: Seq<char>)
    requires
        plain(c),
    ensures
        spec_string(quoted(c) + rest, 0) == Some((c, c.len() + 2int)),
{
    let s = quoted(c) + rest;
    assert(s.subrange(0, quoted(c).len() as int) =~= quoted(c));
    lemma_string_at(s, 0, c);
}

/// The text that a quoted string was read from is written back by quoting
/// its content.
pub proof fn lemma_string_reserializes(s: Seq<char>, i: int)
    requires
        spec_string(s, i) is Some,
    ensures
        ({
            let (c, j) = spec_string(s, i).unwrap();
            quoted(c) == s.subrange(i, j) && plain(c)
        }),
{
    lemma_quote_end(s, i + 1);
    let (c, j) = spec_string(s, i).unwrap();
    assert(quoted(c) =~= s.subrange(i, j));
    assert(!c.contains('"')) by {
        if c.contains('"') {
            let t = choose|t: int| 0 <= t < c.len() && c[t] == '"';
            assert(s[i + 1 + t] == '"');
        }
    }
}

// ---------------------------------------------------------------- written records

/// Content that a quoted string can hold: one or more characters, none a
/// double quote.
pub open spec fn plain(c: Seq<char>) -> bool {
    c.len() > 0 && !c.contains('"')
}

/// The elements of an array of strings from its first one on, each quoted,
/// separated by `", "`, then `]`.
pub open spec fn str_items_text(xs: Seq<Seq<char>>) -> Seq<char>
    decreases xs.len(),
{
    if xs.len() == 0 {
        seq![']']
    } else if xs.len() == 1 {
        quoted(xs[0]) + seq![']']
    } else {
        quoted(xs[0]) + sep() + str_items_text(xs.drop_first())
    }
}

/// The text of an array of strings.
pub open spec fn str_array_text(xs: Seq<Seq<char>>) -> Seq<char> {
    seq!['['] + str_items_text(xs)
}

/// The content of the string for a `key=value` pair.
pub open spec fn kv_content(kv: (Seq<char>, Seq<char>)) -> Seq<char> {
    kv.0 + seq!['='] + kv.1
}

/// A pair that is written and read back as itself: a key without `=`, and
/// neither part holding a double quote.
pub open spec fn plain_kv(kv: (Seq<char>, Seq<char>)) -> bool {
    !kv.0.contains('=') && !kv.0.contains('"') && !kv.1.contains('"')
}

/// The elements of an array of pairs from its first one on, then `]`.
pub open spec fn env_items_text(xs: Seq<(Seq<char>, Seq<char>)>) -> Seq<char>
    decreases xs.len(),
{
    if xs.len() == 0 {
        seq![']']
    } else if xs.len() == 1 {
        quoted(kv_content(xs[0])) + seq![']']
    } else {
        quoted(kv_content(xs[0])) + sep() + env_items_text(xs.drop_first())
    }
}

/// The text of an array of pairs.
pub open spec fn env_array_text(xs: Seq<(Seq<char>, Seq<char>)>) -> Seq<char> {
    seq!['['] + env_items_text(xs)
}

/// The text of the invocation record for `e`.
pub open spec fn execve_text(e: ExecView) -> Seq<char> {
    "execve("@ + quoted(e.path) + sep() + str_array_text(e.args) + sep() + env_array_text(e.env)
        + ") = "@ + decimal_text(e.retcode as nat)
}

/// An invocation that its record gives back: a plain path and plain
/// arguments, and pairs that are written and read back as themselves.
pub open spec fn writable(e: ExecView) -> bool {
    &&& plain(e.path)
    &&& forall|k: int| 0 <= k < e.args.len() ==> plain(#[trigger] e.args[k])
    &&& forall|k: int| 0 <= k < e.env.len() ==> plain_kv(#[trigger] e.env[k])
}

/// Where `a + b` occurs, `a` occurs, and `b` right after it.
proof fn lemma_has_at_split(s: Seq<char>, i: int, a: Seq<char>, b: Seq<char>)
    requires
        has_at(s, i, a + b),
    ensures
        has_at(s, i, a),
        has_at(s, i + a.len(), b),
{
    assert forall|t: int| 0 <= t < a.len() implies s[i + t] == a[t] by {
        assert(s.subrange(i, i + (a + b).len())[t] == (a + b)[t]);
    }
    assert forall|t: int| 0 <= t < b.len() implies s[i + a.len() + t] == b[t] by {
        assert(s.subrange(i, i + (a + b).len())[a.len() + t] == (a + b)[a.len() + t]);
    }
    assert(s.subrange(i, i + a.len()) =~= a);
    assert(s.subrange(i + a.len(), i + a.len() + b.len()) =~= b);
}

/// A quoted string is read where its text stands.
pub proof fn lemma_string_at(s: Seq<char>, i: int, c: Seq<char>)
    requires
        plain(c),
        has_at(s, i, quoted(c)),
    ensures
        spec_string(s, i) == Some((c, i + c.len() + 2)),
{
    let n = c.len() as int;
    assert forall|t: int| 0 <= t < n + 2 implies s[i + t] == quoted(c)[t] by {
        assert(s.subrange(i, i + n + 2)[t] == quoted(c)[t]);
    }
    assert forall|t: int| i + 1 <= t <= i + n implies s[t] != '"' by {
        assert(s[t] == quoted(c)[t - i]);
        assert(quoted(c)[t - i] == c[t - i - 1]);
    }
    assert(s[i] == quoted(c)[0]);
    assert(s[i + n + 1] == quoted(c)[n + 1]);
    lemma_quote_end(s, i + 1);
    let q = quote_end(s, i + 1);
    assert(q == i + n + 1) by {
        if q < i + n + 1 {
            assert(s[q] == '"');
        }
    }
    assert(s.subrange(i + 1, q) =~= c) by {
        assert forall|t: int| 0 <= t < n implies s.subrange(i + 1, q)[t] == c[t] by {
            assert(s[i + 1 + t] == quoted(c)[1 + t]);
        }
    }
}

/// The elements of an array of strings are read where their text stands.
proof fn lemma_str_items_at(s: Seq<char>, i: int, xs: Seq<Seq<char>>)
    requires
        xs.len() > 0,
        forall|k: int| 0 <= k < xs.len() ==> plain(#[trigger] xs[k]),
        has_at(s, i, str_items_text(xs)),
    ensures
        spec_str_items(s, i) == Some((xs, i + str_items_text(xs).len())),
    decreases xs.len(),
{
    let x = xs[0];
    assert(plain(x));
    let j = i + x.len() + 2;
    if xs.len() == 1 {
        lemma_has_at_split(s, i, quoted(x), seq![']']);
        lemma_string_at(s, i, x);
        assert(s.subrange(j, j + 1)[0] == ']');
        assert(s[j] == ']');
        assert(!has_at(s, j, sep())) by {
            if has_at(s, j, sep()) {
                assert(s.subrange(j, j + 2)[0] == ',');
            }
        }
        assert(seq![x] =~= xs);
    } else {
        let rest = xs.drop_first();
        lemma_has_at_split(s, i, quoted(x) + sep(), str_items_text(rest));
        lemma_has_at_split(s, i, quoted(x), sep());
        lemma_string_at(s, i, x);
        assert forall|k: int| 0 <= k < rest.len() implies plain(#[trigger] rest[k]) by {
            assert(rest[k] == xs[k + 1]);
        }
        lemma_str_items_at(s, j + 2, rest);
        assert(seq![x] + rest =~= xs);
    }
}

/// An array of strings is read where its text stands.
pub proof fn lemma_str_array_at(s: Seq<char>, i: int, xs: Seq<Seq<char>>)
    requires
        forall|k: int| 0 <= k < xs.len() ==> plain(#[trigger] xs[k]),
        has_at(s, i, str_array_text(xs)),
    ensures
        spec_arr_of_str(s, i) == Some((xs, i + str_array_text(xs).len())),
{
    lemma_has_at_split(s, i, seq!['['], str_items_text(xs));
    if xs.len() == 0 {
        assert(str_array_text(xs) =~= seq!['[', ']']);
        assert(xs =~= seq![]);
    } else {
        assert(plain(xs[0]));
        if xs.len() == 1 {
            lemma_has_at_split(s, i + 1, quoted(xs[0]), seq![']']);
        } else {
            lemma_has_at_split(s, i + 1, quoted(xs[0]) + sep(), str_items_text(xs.drop_first()));
            lemma_has_at_split(s, i + 1, quoted(xs[0]), sep());
        }
        assert(s.subrange(i + 1, i + 1 + quoted(xs[0]).len())[0] == '"');
        assert(!has_at(s, i, seq!['[', ']'])) by {
            if has_at(s, i, seq!['[', ']']) {
                assert(s.subrange(i, i + 2)[1] == ']');
            }
        }
        lemma_str_items_at(s, i + 1, xs);
    }
}

/// The first `=` of a pair's content is the one after its key.
proof fn lemma_eq_index_kv(kv: (Seq<char>, Seq<char>), t: int)
    requires
        plain_kv(kv),
        0 <= t <= kv.0.len(),
    ensures
        eq_index(kv_content(kv), t) == kv.0.len(),
    decreases kv.0.len() - t,
{
    let c = kv_content(kv);
    if t < kv.0.len() {
        assert(c[t] == kv.0[t]);
        lemma_eq_index_kv(kv, t + 1);
    } else {
        assert(c[t] == '=');
    }
}

/// A pair's string is read back as the pair.
proof fn lemma_env_var_at(s: Seq<char>, i: int, kv: (Seq<char>, Seq<char>))
    requires
        plain_kv(kv),
        has_at(s, i, quoted(kv_content(kv))),
    ensures
        spec_env_var(s, i) == Some((kv, i + kv_content(kv).len() + 2)),
{
    let c = kv_content(kv);
    assert(!c.contains('"')) by {
        if c.contains('"') {
            let t = choose|t: int| 0 <= t < c.len() && c[t] == '"';
            if t < kv.0.len() {
                assert(kv.0[t] == '"');
            } else if t > kv.0.len() {
                assert(kv.1[t - kv.0.len() - 1] == '"');
            }
        }
    }
    assert(c[kv.0.len() as int] == '=');
    lemma_string_at(s, i, c);
    lemma_eq_index_kv(kv, 0);
    assert(c.subrange(0, kv.0.len() as int) =~= kv.0);
    assert(c.subrange(kv.0.len() as int + 1, c.len() as int) =~= kv.1);
}

/// The elements of an array of pairs are read where their text stands.
proof fn lemma_env_items_at(s: Seq<char>, i: int, xs: Seq<(Seq<char>, Seq<char>)>)
    requires
        xs.len() > 0,
        forall|k: int| 0 <= k < xs.len() ==> plain_kv(#[trigger] xs[k]),
        has_at(s, i, env_items_text(xs)),
    ensures
        spec_env_items(s, i) == Some((xs, i + env_items_text(xs).len())),
    decreases xs.len(),
{
    let x = xs[0];
    assert(plain_kv(x));
    let c = kv_content(x);
    let j = i + c.len() + 2;
    if xs.len() == 1 {
        lemma_has_at_split(s, i, quoted(c), seq![']']);
        lemma_env_var_at(s, i, x);
        assert(s.subrange(j, j + 1)[0] == ']');
        assert(!has_at(s, j, sep())) by {
            if has_at(s, j, sep()) {
                assert(s.subrange(j, j + 2)[0] == ',');
            }
        }
        assert(seq![x] =~= xs);
    } else {
        let rest = xs.drop_first();
        lemma_has_at_split(s, i, quoted(c) + sep(), env_items_text(rest));
        lemma_has_at_split(s, i, quoted(c), sep());
        lemma_env_var_at(s, i, x);
        assert forall|k: int| 0 <= k < rest.len() implies plain_kv(#[trigger] rest[k]) by {
            assert(rest[k] == xs[k + 1]);
        }
        lemma_env_items_at(s, j + 2, rest);
        assert(seq![x] + rest =~= xs);
    }
}

/// An array of pairs is read where its text stands.
pub proof fn lemma_env_array_at(s: Seq<char>, i: int, xs: Seq<(Seq<char>, Seq<char>)>)
    requires
        forall|k: int| 0 <= k < xs.len() ==> plain_kv(#[trigger] xs[k]),
        has_at(s, i, env_array_text(xs)),
    ensures
        spec_arr_of_env_var(s, i) == Some((xs, i + env_array_text(xs).len())),
{
    lemma_has_at_split(s, i, seq!['['], env_items_text(xs));
    if xs.len() == 0 {
        assert(env_array_text(xs) =~= seq!['[', ']']);
        assert(xs =~= seq![]);
    } else {
        let c = kv_content(xs[0]);
        if xs.len() == 1 {
            lemma_has_at_split(s, i + 1, quoted(c), seq![']']);
        } else {
            lemma_has_at_split(s, i + 1, quoted(c) + sep(), env_items_text(xs.drop_first()));
            lemma_has_at_split(s, i + 1, quoted(c), sep());
        }
        assert(s.subrange(i + 1, i + 1 + quoted(c).len())[0] == '"');
        assert(!has_at(s, i, seq!['[', ']'])) by {
            if has_at(s, i, seq!['[', ']']) {
                assert(s.subrange(i, i + 2)[1] == ']');
            }
        }
        lemma_env_items_at(s, i + 1, xs);
    }
}

/// The digit for a number below ten is a digit worth that number.
proof fn lemma_digit_char(d: nat)
    requires
        d < 10,
    ensures
        is_digit_char(digit_char(d)),
        (digit_char(d) as nat) - ('0' as nat) == d,
{
    if d == 0 {
    } else if d == 1 {
    } else if d == 2 {
    } else if d == 3 {
    } else if d == 4 {
    } else if d == 5 {
    } else if d == 6 {
    } else if d == 7 {
    } else if d == 8 {
    } else {
    }
}

/// The decimal text of a number is made of digits and is worth the number.
proof fn lemma_decimal_text(n: nat)
    ensures
        decimal_text(n).len() > 0,
        forall|t: int| 0 <= t < decimal_text(n).len() ==> is_digit_char(#[trigger] decimal_text(n)[t]),
        decimal_value(decimal_text(n)) == n,
    decreases n,
{
    if n < 10 {
        lemma_digit_char(n);
        assert(seq![digit_char(n)].drop_last() =~= Seq::<char>::empty());
        assert(decimal_value(Seq::<char>::empty()) == 0);
    } else {
        lemma_decimal_text(n / 10);
        lemma_digit_char(n % 10);
        let d = decimal_text(n);
        assert(d.drop_last() =~= decimal_text(n / 10));
        assert(forall|t: int| 0 <= t < d.len() - 1 ==> d[t] == decimal_text(n / 10)[t]);
        assert(n == (n / 10) * 10 + n % 10);
        assert(d.last() == digit_char(n % 10));
        assert(decimal_value(d) == decimal_value(decimal_text(n / 10)) * 10 + n % 10);
    }
}

/// A return code is read where its decimal text stands, when no digit
/// follows it.
pub proof fn lemma_retcode_at(s: Seq<char>, i: int, n: u8)
    requires
        has_at(s, i, decimal_text(n as nat)),
        i + decimal_text(n as nat).len() < s.len() ==> !is_digit_char(
            s[i + decimal_text(n as nat).len()],
        ),
    ensures
        spec_retcode(s, i) == Some((n, i + decimal_text(n as nat).len())),
{
    let d = decimal_text(n as nat);
    lemma_decimal_text(n as nat);
    let e = i + d.len();
    assert forall|t: int| i <= t < e implies is_digit_char(#[trigger] s[t]) by {
        assert(s.subrange(i, e)[t - i] == d[t - i]);
    }
    lemma_digits_end_over(s, i, e);
    assert(s.subrange(i, e) =~= d);
}

/// The run of digits from `t` ends at `e` where all of `s[t..e]` are digits
/// and none stands at `e`.
proof fn lemma_digits_end_over(s: Seq<char>, t: int, e: int)
    requires
        0 <= t <= e <= s.len(),
        forall|k: int| t <= k < e ==> is_digit_char(#[trigger] s[k]),
        e < s.len() ==> !is_digit_char(s[e]),
    ensures
        digits_end(s, t) == e,
    decreases e - t,
{
    if t < e {
        lemma_digits_end_over(s, t + 1, e);
    }
}

/// An invocation record is read where its parts stand, one after another.
proof fn lemma_execve_parts(s: Seq<char>, e: ExecView, b: int, d: int, g: int)
    requires
        writable(e),
        has_at(s, 0, "execve("@),
        has_at(s, "execve("@.len() as int, quoted(e.path)),
        b == "execve("@.len() + quoted(e.path).len() + 2,
        has_at(s, b - 2, sep()),
        has_at(s, b, str_array_text(e.args)),
        d == b + str_array_text(e.args).len() + 2,
        has_at(s, d - 2, sep()),
        has_at(s, d, env_array_text(e.env)),
        g == d + env_array_text(e.env).len() + ") = "@.len(),
        has_at(s, g - ") = "@.len(), ") = "@),
        spec_retcode(s, g) == Some((e.retcode, g + decimal_text(e.retcode as nat).len())),
    ensures
        spec_execve(s) == Some((e, g + decimal_text(e.retcode as nat).len())),
{
    lemma_string_at(s, "execve("@.len() as int, e.path);
    lemma_str_array_at(s, b, e.args);
    lemma_env_array_at(s, d, e.env);
}

/// Where eight texts stand one after another, each stands at the sum of
/// the lengths of those before it.
proof fn lemma_layout(
    s: Seq<char>,
    x1: Seq<char>,
    x2: Seq<char>,
    x3: Seq<char>,
    x4: Seq<char>,
    x5: Seq<char>,
    x6: Seq<char>,
    x7: Seq<char>,
    x8: Seq<char>,
)
    requires
        has_at(s, 0, x1 + x2 + x3 + x4 + x5 + x6 + x7 + x8),
    ensures
        has_at(s, 0, x1),
        has_at(s, x1.len() as int, x2),
        has_at(s, (x1.len() + x2.len()) as int, x3),
        has_at(s, (x1.len() + x2.len() + x3.len()) as int, x4),
        has_at(s, (x1.len() + x2.len() + x3.len() + x4.len()) as int, x5),
        has_at(s, (x1.len() + x2.len() + x3.len() + x4.len() + x5.len()) as int, x6),
        has_at(s, (x1.len() + x2.len() + x3.len() + x4.len() + x5.len() + x6.len()) as int, x7),
        has_at(s, (x1.len() + x2.len() + x3.len() + x4.len() + x5.len() + x6.len() + x7.len()) as int, x8),
{
    lemma_has_at_split(s, 0, x1 + x2 + x3 + x4 + x5 + x6 + x7, x8);
    lemma_has_at_split(s, 0, x1 + x2 + x3 + x4 + x5 + x6, x7);
    lemma_has_at_split(s, 0, x1 + x2 + x3 + x4 + x5, x6);
    lemma_has_at_split(s, 0, x1 + x2 + x3 + x4, x5);
    lemma_has_at_split(s, 0, x1 + x2 + x3, x4);
    lemma_has_at_split(s, 0, x1 + x2, x3);
    lemma_has_at_split(s, 0, x1, x2);
}

/// An invocation record is read back as the invocation it was written for.
#[verifier::spinoff_prover]
#[verifier::rlimit(30)]
pub proof fn lemma_execve_round_trip(e: ExecView)
    requires
        writable(e),
    ensures
        spec_line(execve_text(e)) == Some(Some(e)),
{
    let s = execve_text(e);
    let num = decimal_text(e.retcode as nat);
    assert(s.subrange(0, s.len() as int) =~= s);
    lemma_layout(
        s,
        "execve("@,
        quoted(e.path),
        sep(),
        str_array_text(e.args),
        sep(),
        env_array_text(e.env),
        ") = "@,
        num,
    );
    let b: int = "execve("@.len() + quoted(e.path).len() + 2int;
    let d: int = b + str_array_text(e.args).len() + 2int;
    let g: int = d + env_array_text(e.env).len() + ") = "@.len() as int;
    assert(g + num.len() == s.len());
    lemma_retcode_at(s, g, e.retcode);
    lemma_execve_parts(s, e, b, d, g);
    lemma_not_footer(s);
}

/// A line that begins as an invocation record is no footer record.
proof fn lemma_not_footer(s: Seq<char>)
    requires
        has_at(s, 0, "execve("@),
    ensures
        spec_footer(s) is None,
{
    reveal_strlit("execve(");
    reveal_strlit("+++ exited with ");
    assert(s.subrange(0, 7)[0] == 'e');
    if has_at(s, 0, "+++ exited with "@) {
        assert(s.subrange(0, 16)[0] == '+');
    }
}

} // verus!
