//! Building text: decimal numbers, concatenation and joining lines.

use vstd::prelude::*;
use crate::text::{chars_of, string_of};

verus! {

/// The decimal digit for `d` (0..=9).
pub open spec fn digit_char(d: nat) -> char {
    if d == 0 {
        '0'
    } else if d == 1 {
        '1'
    } else if d == 2 {
        '2'
    } else if d == 3 {
        '3'
    } else if d == 4 {
        '4'
    } else if d == 5 {
        '5'
    } else if d == 6 {
        '6'
    } else if d == 7 {
        '7'
    } else if d == 8 {
        '8'
    } else {
        '9'
    }
}

/// The decimal representation of `n` (as `format!("{}", n)`).
pub open spec fn decimal_spec(n: nat) -> Seq<char>
    decreases n,
{
    if n < 10 {
        seq![digit_char(n)]
    } else {
        decimal_spec(n / 10).push(digit_char(n % 10))
    }
}

fn digit_exec(d: usize) -> (c: char)
    requires
        d < 10,
    ensures
        c == digit_char(d as nat),
{
    if d == 0 {
        '0'
    } else if d == 1 {
        '1'
    } else if d == 2 {
        '2'
    } else if d == 3 {
        '3'
    } else if d == 4 {
        '4'
    } else if d == 5 {
        '5'
    } else if d == 6 {
        '6'
    } else if d == 7 {
        '7'
    } else if d == 8 {
        '8'
    } else {
        '9'
    }
}

/// The decimal digits of `n`.
pub fn decimal_chars(n: usize) -> (v: Vec<char>)
    ensures
        v@ == decimal_spec(n as nat),
    decreases n,
{
    if n < 10 {
        let mut v: Vec<char> = Vec::new();
        v.push(digit_exec(n));
        assert(v@ =~= seq![digit_char(n as nat)]);
        v
    } else {
        let mut v = decimal_chars(n / 10);
        v.push(digit_exec(n % 10));
        v
    }
}

/// `n` written in decimal (`n.to_string()`).
pub fn decimal_string(n: usize) -> (s: String)
    ensures
        s@ == decimal_spec(n as nat),
{
    let v = decimal_chars(n);
    string_of(v.as_slice())
}

/// Appends the characters of `s` to `v`.
pub fn push_str(v: &mut Vec<char>, s: &str)
    ensures
        final(v)@ == old(v)@ + s@,
{
    let c = chars_of(s);
    push_chars(v, c.as_slice());
}

/// Appends `s` to `v`.
pub fn push_chars(v: &mut Vec<char>, s: &[char])
    ensures
        final(v)@ == old(v)@ + s@,
{
    let ghost start = v@;
    let mut i: usize = 0;
    while i < s.len()
        invariant
            0 <= i <= s@.len(),
            v@ == start + s@.take(i as int),
        decreases s@.len() - i,
    {
        v.push(s[i]);
        i = i + 1;
        assert(start + s@.take(i as int) =~= (start + s@.take(i - 1)).push(s@[i - 1]));
    }
    assert(s@.take(s@.len() as int) =~= s@);
}

/// The pieces joined with `sep` between them (`join`).
pub open spec fn join_spec(pieces: Seq<Seq<char>>, sep: Seq<char>) -> Seq<char>
    decreases pieces.len(),
{
    if pieces.len() == 0 {
        seq![]
    } else if pieces.len() == 1 {
        pieces[0]
    } else {
        join_spec(pieces.drop_last(), sep) + sep + pieces.last()
    }
}

/// The pieces joined with newlines (`[..].join("\n")`).
pub fn join_lines(pieces: &[Vec<char>]) -> (s: String)
    ensures
        s@ == join_spec(pieces.deep_view(), seq!['\n']),
{
    let ghost pv = pieces.deep_view();
    let mut out: Vec<char> = Vec::new();
    let mut i: usize = 0;
    while i < pieces.len()
        invariant
            0 <= i <= pieces@.len(),
            pv == pieces.deep_view(),
            out@ == join_spec(pv.take(i as int), seq!['\n']),
        decreases pieces@.len() - i,
    {
        let p = pieces[i].as_slice();
        assert(p@ == pv[i as int]);
        if i > 0 {
            out.push('\n');
        }
        push_chars(&mut out, p);
        i = i + 1;
        assert(pv.take(i as int).drop_last() =~= pv.take(i - 1));
        assert(pv.take(i as int).last() == pv[i - 1]);
        if i == 1 {
            assert(join_spec(pv.take(1), seq!['\n']) == pv[0]);
            assert(out@ =~= pv[0]);
        } else {
            assert(out@ =~= join_spec(pv.take(i - 1), seq!['\n']) + seq!['\n'] + pv[i - 1]);
        }
    }
    assert(pv.take(pv.len() as int) =~= pv);
    string_of(out.as_slice())
}

} // verus!
