//! Small verified helpers on characters and strings.

use vstd::prelude::*;

verus! {

/// Relies on `String::push`: the character is appended at the end.
#[verifier::external_body]
pub(crate) fn push_char(s: &mut String, c: char)
    ensures
        final(s)@ == old(s)@.push(c),
{
    s.push(c)
}

/// The characters of `s`, in order.
pub fn chars_of(s: &str) -> (r: Vec<char>)
    ensures
        r@ == s@,
{
    let mut r: Vec<char> = Vec::new();
    for c in it: s.chars()
        invariant
            r@ == it.seq().take(it.index() as int),
    {
        r.push(c);
    }
    assert(r@ =~= s@);
    r
}

/// A string holding `v[from..to]`.
pub fn string_of(v: &Vec<char>, from: usize, to: usize) -> (r: String)
    requires
        from <= to <= v.len(),
    ensures
        r@ == v@.subrange(from as int, to as int),
{
    let mut r = String::new();
    let mut i: usize = from;
    while i < to
        invariant
            from <= i <= to <= v.len(),
            r@ == v@.subrange(from as int, i as int),
        decreases to - i,
    {
        push_char(&mut r, v[i]);
        assert(r@ =~= v@.subrange(from as int, i + 1));
        i = i + 1;
    }
    r
}

/// Whether `a` and `b` hold the same characters.
pub fn same_str(a: &str, b: &str) -> (r: bool)
    ensures
        r == (a@ == b@),
{
    if a.len() != b.len() {
        return false;
    }
    a.to_owned() == b.to_owned()
}

/// Whether `t` occurs in `s` at position `i`.
pub open spec fn has_at(s: Seq<char>, i: int, t: Seq<char>) -> bool {
    0 <= i && i + t.len() <= s.len() && s.subrange(i, i + t.len()) == t
}

/// Whether `tok` occurs in `v` at position `i`.
pub fn has_token(v: &Vec<char>, i: usize, tok: &Vec<char>) -> (r: bool)
    ensures
        r == has_at(v@, i as int, tok@),
{
    if i > v.len() || tok.len() > v.len() - i {
        return false;
    }
    let mut k: usize = 0;
    while k < tok.len()
        invariant
            i + tok.len() <= v.len(),
            k <= tok.len(),
            forall|t: int| 0 <= t < k ==> v@[i + t] == tok@[t],
        decreases tok.len() - k,
    {
        if v[i + k] != tok[k] {
            assert(v@.subrange(i as int, i + tok.len())[k as int] != tok@[k as int]);
            return false;
        }
        k = k + 1;
    }
    assert(v@.subrange(i as int, i + tok.len()) =~= tok@);
    true
}

/// The digit for `d`, below ten.
pub open spec fn digit_char(d: nat) -> char {
    if d == 0 {
        '0'
    } else if d == 1 {
        '1'
    } else if d == 2 {
        '2'
    } else if d == 3 {
        '3'
    } else if d == 4 {
        '4'
    } else if d == 5 {
        '5'
    } else if d == 6 {
        '6'
    } else if d == 7 {
        '7'
    } else if d == 8 {
        '8'
    } else {
        '9'
    }
}

/// The decimal digits of `n`, without leading zeros.
pub open spec fn decimal_text(n: nat) -> Seq<char>
    decreases n,
{
    if n < 10 {
        seq![digit_char(n)]
    } else {
        decimal_text(n / 10).push(digit_char(n % 10))
    }
}

/// The digit for `d`, below ten.
fn digit(d: usize) -> (c: char)
    requires
        d < 10,
    ensures
        c == digit_char(d as nat),
{
    if d == 0 {
        '0'
    } else if d == 1 {
        '1'
    } else if d == 2 {
        '2'
    } else if d == 3 {
        '3'
    } else if d == 4 {
        '4'
    } else if d == 5 {
        '5'
    } else if d == 6 {
        '6'
    } else if d == 7 {
        '7'
    } else if d == 8 {
        '8'
    } else {
        '9'
    }
}

/// The decimal digits of `n`, without leading zeros.
pub fn decimal(n: usize) -> (r: String)
    ensures
        r@ == decimal_text(n as nat),
{
    let mut digits: Vec<char> = Vec::new();
    let mut m: usize = n;
    while m >= 10
        invariant
            decimal_text(n as nat) == decimal_text(m as nat) + digits@,
        decreases m,
    {
        let c = digit(m % 10);
        let ghost before = digits@;
        digits.insert(0, c);
        assert(decimal_text(m as nat) == decimal_text((m / 10) as nat).push(c));
        assert(decimal_text(m as nat) + before =~= decimal_text((m / 10) as nat) + digits@);
        m = m / 10;
    }
    let c = digit(m);
    let ghost before = digits@;
    digits.insert(0, c);
    assert(decimal_text(m as nat) + before =~= digits@);
    let len = digits.len();
    let r = string_of(&digits, 0, len);
    assert(digits@.subrange(0, len as int) =~= digits@);
    r
}

} // verus!
