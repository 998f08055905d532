//! Scanning primitives over the characters of the input.
use crate::grammar::{blank_line, digit_end, digits_value, has_tag, is_digit, is_space, is_upper, line_end, next_group, only_space_from, upper_end};
use vstd::prelude::*;
use vstd::std_specs::iter::IteratorSpec;

verus! {

broadcast use {vstd::string::axiom_spec_iter, vstd::string::next_postcondition};

/// Relies on `String::push`: appends one character to the string.
#[verifier::external_body]
fn push_char(s: &mut String, c: char)
    ensures
        final(s)@ == old(s)@.push(c),
{
    s.push(c)
}

/// The characters of `text`, in order.
pub fn text_chars(text: &str) -> (v: Vec<char>)
    ensures
        v@ == text@,
{
    let mut v: Vec<char> = Vec::new();
    let mut it = text.chars();
    loop
        invariant
            it.obeys_prophetic_iter_laws(),
            v@ + it.remaining() == text@,
        decreases text@.len() - v@.len(),
    {
        match it.next() {
            Some(c) => {
                v.push(c);
            },
            None => {
                return v;
            },
        }
    }
}

/// The characters `s[a..b]` as a string.
pub fn slice_string(s: &Vec<char>, a: usize, b: usize) -> (r: String)
    requires
        a <= b <= s@.len(),
    ensures
        r@ == s@.subrange(a as int, b as int),
{
    let mut r = String::new();
    let mut k: usize = a;
    while k < b
        invariant
            a <= k <= b <= s@.len(),
            r@ == s@.subrange(a as int, k as int),
        decreases b - k,
    {
        push_char(&mut r, s[k]);
        assert(r@ =~= s@.subrange(a as int, k + 1));
        k = k + 1;
    }
    r
}

/// Whether `t` stands in `s` at `p`, ending no later than `lim`.
pub fn tag_at(s: &Vec<char>, p: usize, t: &[char], lim: usize) -> (b: bool)
    requires
        lim <= s@.len(),
    ensures
        b == has_tag(s@, p as int, t@, lim as int),
{
    if t.len() > lim || p > lim - t.len() {
        return false;
    }
    let mut i: usize = 0;
    while i < t.len()
        invariant
            p + t@.len() <= lim <= s@.len(),
            i <= t@.len(),
            forall|j: int| 0 <= j < i ==> s@[p + j] == t@[j],
        decreases t.len() - i,
    {
        if s[p + i] != t[i] {
            assert(s@.subrange(p as int, p + t@.len())[i as int] != t@[i as int]);
            return false;
        }
        i = i + 1;
    }
    assert(s@.subrange(p as int, p + t@.len()) =~= t@);
    true
}

/// Index of the newline ending the line that holds `p`, or `lim`.
pub fn find_line_end(s: &Vec<char>, p: usize, lim: usize) -> (e: usize)
    requires
        p <= lim <= s@.len(),
    ensures
        e == line_end(s@, p as int, lim as int),
        p <= e <= lim,
{
    let mut q = p;
    while q < lim && s[q] != '\n'
        invariant
            p <= q <= lim <= s@.len(),
            line_end(s@, q as int, lim as int) == line_end(s@, p as int, lim as int),
        decreases lim - q,
    {
        q = q + 1;
    }
    q
}

/// Start of the line after the one holding `p`, or `lim`.
pub fn find_after_line(s: &Vec<char>, p: usize, lim: usize) -> (n: usize)
    requires
        p <= lim <= s@.len(),
    ensures
        n == crate::grammar::after_line(s@, p as int, lim as int),
        p <= n <= lim,
{
    let e = find_line_end(s, p, lim);
    if e < lim {
        e + 1
    } else {
        lim
    }
}

/// First index from `b` that starts an empty line, or the end of `s`.
pub fn find_blank_line(s: &Vec<char>, b: usize) -> (e: usize)
    requires
        b <= s@.len(),
    ensures
        e == blank_line(s@, b as int, b as int),
        b <= e <= s@.len(),
{
    let mut q = b;
    while q < s.len() && !(s[q] == '\n' && (q == b || s[q - 1] == '\n'))
        invariant
            b <= q <= s@.len(),
            blank_line(s@, b as int, q as int) == blank_line(s@, b as int, b as int),
        decreases s@.len() - q,
    {
        q = q + 1;
    }
    q
}

/// Start of the next line of the form `"### "` in `[q, e)` of a body that
/// starts at `u`; `e` where there is none.
pub fn find_next_group(s: &Vec<char>, u: usize, e: usize) -> (w: usize)
    requires
        u <= e <= s@.len(),
    ensures
        w == next_group(s@, u as int, u as int, e as int),
        u <= w <= e,
{
    let tag = ['#', '#', '#', ' '];
    assert(tag@ == seq!['#', '#', '#', ' ']);
    let mut q = u;
    while q < e && !((q == u || s[q - 1] == '\n') && tag_at(s, q, &tag, find_line_end(s, q, e)))
        invariant
            u <= q <= e <= s@.len(),
            tag@ == seq!['#', '#', '#', ' '],
            next_group(s@, u as int, q as int, e as int) == next_group(s@, u as int, u as int, e as int),
        decreases e - q,
    {
        q = q + 1;
    }
    q
}

/// End of the run of uppercase letters from `p`, not beyond `lim`.
pub fn find_upper_end(s: &Vec<char>, p: usize, lim: usize) -> (e: usize)
    requires
        p <= lim <= s@.len(),
    ensures
        e == upper_end(s@, p as int, lim as int),
        p <= e <= lim,
{
    let mut q = p;
    while q < lim && 'A' <= s[q] && s[q] <= 'Z'
        invariant
            p <= q <= lim <= s@.len(),
            upper_end(s@, q as int, lim as int) == upper_end(s@, p as int, lim as int),
        decreases lim - q,
    {
        q = q + 1;
    }
    q
}

/// The run of decimal digits from `p`, not beyond `lim`: where it ends, and
/// the number it writes, or `None` where that exceeds `u32::MAX`.
pub fn read_number(s: &Vec<char>, p: usize, lim: usize) -> (r: (usize, Option<u32>))
    requires
        p <= lim <= s@.len(),
    ensures
        r.0 == digit_end(s@, p as int, lim as int),
        p <= r.0 <= lim,
        match r.1 {
            Some(n) => n as nat == digits_value(s@, p as int, r.0 as int),
            None => digits_value(s@, p as int, r.0 as int) > u32::MAX,
        },
{
    let mut q = p;
    let mut value: u64 = 0;
    let mut over = false;
    while q < lim && '0' <= s[q] && s[q] <= '9'
        invariant
            p <= q <= lim <= s@.len(),
            digit_end(s@, q as int, lim as int) == digit_end(s@, p as int, lim as int),
            over ==> digits_value(s@, p as int, q as int) > u32::MAX,
            !over ==> value == digits_value(s@, p as int, q as int) && value <= u32::MAX,
        decreases lim - q,
    {
        let digit = (s[q] as u32 - 48) as u64;
        assert(digits_value(s@, p as int, q + 1) == digits_value(s@, p as int, q as int) * 10 + digit);
        if !over {
            let next = value * 10 + digit;
            if next > u32::MAX as u64 {
                over = true;
            } else {
                value = next;
            }
        }
        q = q + 1;
    }
    if over {
        (q, None)
    } else {
        (q, Some(value as u32))
    }
}

/// Whether only whitespace stands in `s` from `r` on.
pub fn only_space(s: &Vec<char>, r: usize) -> (b: bool)
    requires
        r <= s@.len(),
    ensures
        b == only_space_from(s@, r as int),
{
    let mut q = r;
    while q < s.len()
        invariant
            r <= q <= s@.len(),
            forall|i: int| r <= i < q ==> is_space(#[trigger] s@[i]),
        decreases s@.len() - q,
    {
        let c = s[q];
        if !(c == ' ' || c == '\t' || c == '\n' || c == '\r') {
            return false;
        }
        q = q + 1;
    }
    true
}

} // verus!
