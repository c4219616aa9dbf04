//! Character-level string helpers over the `Seq<char>` view of strings.
//!
//! Every operation here works on the characters of a string, which is also
//! how the spec functions below describe strings.

use vstd::prelude::*;

verus! {

/// `p` is a prefix of `s`.
pub open spec fn is_prefix_of(p: Seq<char>, s: Seq<char>) -> bool {
    p.len() <= s.len() && s.take(p.len() as int) == p
}

/// `p` is a suffix of `s`.
pub open spec fn is_suffix_of(p: Seq<char>, s: Seq<char>) -> bool {
    p.len() <= s.len() && s.skip(s.len() - p.len()) == p
}

/// `n` occurs in `s` starting at character index `i`.
pub open spec fn occurs_at(s: Seq<char>, n: Seq<char>, i: int) -> bool {
    0 <= i && i + n.len() <= s.len() && s.subrange(i, i + n.len()) == n
}

/// The first index at or after `i` at which `n` occurs in `s`.
pub open spec fn find_from(s: Seq<char>, n: Seq<char>, i: int) -> Option<int>
    decreases s.len() + 1 - i,
{
    if i < 0 || i + n.len() > s.len() {
        None
    } else if occurs_at(s, n, i) {
        Some(i)
    } else {
        find_from(s, n, i + 1)
    }
}

/// The first index at which `n` occurs in `s` (as `str::find`, counted in characters).
pub open spec fn find_first(s: Seq<char>, n: Seq<char>) -> Option<int> {
    find_from(s, n, 0)
}

/// `n` occurs somewhere in `s`.
pub open spec fn contains_seq(s: Seq<char>, n: Seq<char>) -> bool {
    find_first(s, n) is Some
}

/// `s` with every `from` replaced by `to`.
pub open spec fn replace_char_spec(s: Seq<char>, from: char, to: char) -> Seq<char> {
    s.map_values(|c: char| if c == from { to } else { c })
}

/// The pieces of `s` between occurrences of `sep` (as `str::split` with a char).
pub open spec fn split_spec(s: Seq<char>, sep: char) -> Seq<Seq<char>>
    decreases s.len(),
{
    match find_first(s, seq![sep]) {
        Some(i) => {
            if 0 <= i < s.len() {
                seq![s.take(i)] + split_spec(s.skip(i + 1), sep)
            } else {
                seq![s]
            }
        },
        None => seq![s],
    }
}

/// Facts about `find_first`: the index it gives is the leftmost occurrence.
pub proof fn lemma_find_first(s: Seq<char>, n: Seq<char>)
    ensures
        find_first(s, n) matches Some(k) ==> 0 <= k && k + n.len() <= s.len() && occurs_at(s, n, k)
            && (forall|j: int| 0 <= j < k ==> !occurs_at(s, n, j)),
        find_first(s, n) is None ==> (forall|j: int| 0 <= j ==> !occurs_at(s, n, j)),
{
    lemma_find_nonneg(s, n, 0);
}

proof fn lemma_find_nonneg(s: Seq<char>, n: Seq<char>, i: int)
    requires
        0 <= i,
    ensures
        find_from(s, n, i) matches Some(k) ==> i <= k && k + n.len() <= s.len() && occurs_at(
            s,
            n,
            k,
        ) && (forall|j: int| i <= j < k ==> !occurs_at(s, n, j)),
        find_from(s, n, i) is None ==> (forall|j: int| i <= j ==> !occurs_at(s, n, j)),
    decreases s.len() + 1 - i,
{
    if i + n.len() > s.len() {
    } else if occurs_at(s, n, i) {
    } else {
        lemma_find_nonneg(s, n, i + 1);
    }
}

/// A single character occurs at `i` exactly when `s[i]` is that character.
pub proof fn lemma_occurs_single(s: Seq<char>, c: char, i: int)
    ensures
        occurs_at(s, seq![c], i) <==> (0 <= i < s.len() && s[i] == c),
{
    if 0 <= i < s.len() && s[i] == c {
        assert(s.subrange(i, i + 1) =~= seq![c]);
    }
    if occurs_at(s, seq![c], i) {
        assert(s.subrange(i, i + 1)[0] == s[i]);
    }
}

/// `find_first` for a single character gives the first index holding it.
pub proof fn lemma_find_char(s: Seq<char>, c: char)
    ensures
        find_first(s, seq![c]) matches Some(k) ==> 0 <= k < s.len() && s[k] == c && (forall|j: int|
            0 <= j < k ==> s[j] != c),
        find_first(s, seq![c]) is None <==> !s.contains(c),
{
    lemma_find_first(s, seq![c]);
    assert forall|j: int| 0 <= j < s.len() implies (occurs_at(s, seq![c], j) <==> s[j] == c) by {
        lemma_occurs_single(s, c, j);
    }
    if let Some(k) = find_first(s, seq![c]) {
        lemma_occurs_single(s, c, k);
        assert(s.contains(c));
    } else {
        if s.contains(c) {
            let j = choose|j: int| 0 <= j < s.len() && s[j] == c;
            lemma_occurs_single(s, c, j);
        }
    }
}

/// The characters of `s`, in order.
pub fn chars_of(s: &str) -> (v: Vec<char>)
    ensures
        v@ == s@,
{
    let mut v: Vec<char> = Vec::new();
    for c in it: s.chars()
        invariant
            v@ == it.seq().take(it.index() as int),
    {
        v.push(c);
    }
    v
}

/// Appends one character to a `String` (`String::push`).
#[verifier::external_body]
fn push_char(s: &mut String, c: char)
    ensures
        final(s)@ == old(s)@.push(c),
{
    s.push(c);
}

/// A `String` holding exactly the characters of `v`.
pub fn string_of(v: &[char]) -> (s: String)
    ensures
        s@ == v@,
{
    let mut s = String::new();
    let mut i: usize = 0;
    while i < v.len()
        invariant
            0 <= i <= v@.len(),
            s@ == v@.take(i as int),
        decreases v@.len() - i,
    {
        push_char(&mut s, v[i]);
        i = i + 1;
        assert(v@.take(i as int) == v@.take(i - 1).push(v@[i - 1]));
    }
    assert(v@.take(v@.len() as int) == v@);
    s
}

/// Whether `s` starts with `p` (`str::starts_with`).
pub fn starts_with(s: &[char], p: &[char]) -> (r: bool)
    ensures
        r == is_prefix_of(p@, s@),
{
    if p.len() > s.len() {
        return false;
    }
    let mut j: usize = 0;
    while j < p.len()
        invariant
            p@.len() <= s@.len(),
            0 <= j <= p@.len(),
            forall|k: int| 0 <= k < j ==> s@[k] == p@[k],
        decreases p@.len() - j,
    {
        if s[j] != p[j] {
            assert(s@.take(p@.len() as int)[j as int] != p@[j as int]);
            return false;
        }
        j = j + 1;
    }
    assert(s@.take(p@.len() as int) =~= p@);
    true
}

/// Whether `s` ends with `p` (`str::ends_with`).
pub fn ends_with(s: &[char], p: &[char]) -> (r: bool)
    ensures
        r == is_suffix_of(p@, s@),
{
    if p.len() > s.len() {
        return false;
    }
    let off = s.len() - p.len();
    let mut j: usize = 0;
    while j < p.len()
        invariant
            p@.len() <= s@.len(),
            off == s@.len() - p@.len(),
            s@.len() <= usize::MAX,
            0 <= j <= p@.len(),
            forall|k: int| 0 <= k < j ==> s@[off + k] == p@[k],
        decreases p@.len() - j,
    {
        assert(off + j < s@.len());
        if s[off + j] != p[j] {
            assert(s@.skip(off as int)[j as int] != p@[j as int]);
            return false;
        }
        j = j + 1;
    }
    assert(s@.skip(off as int) =~= p@);
    true
}

/// Whether the two character sequences are equal.
pub fn eq_chars(a: &[char], b: &[char]) -> (r: bool)
    ensures
        r == (a@ == b@),
{
    if a.len() != b.len() {
        return false;
    }
    let r = starts_with(a, b);
    assert(a@.take(b@.len() as int) =~= a@);
    r
}

/// The first index at which `n` occurs in `s` (`str::find`, in characters).
pub fn find(s: &[char], n: &[char]) -> (r: Option<usize>)
    ensures
        match r {
            Some(i) => find_first(s@, n@) == Some(i as int),
            None => find_first(s@, n@) is None,
        },
{
    if n.len() > s.len() {
        return None;
    }
    let last = s.len() - n.len();
    let mut i: usize = 0;
    while i <= last
        invariant
            n@.len() <= s@.len(),
            last == s@.len() - n@.len(),
            0 <= i <= last + 1,
            find_first(s@, n@) == find_from(s@, n@, i as int),
        decreases last + 1 - i,
    {
        let tail = &s[i..s.len()];
        if starts_with(tail, n) {
            assert(s@.subrange(i as int, i + n@.len()) =~= tail@.take(n@.len() as int));
            return Some(i);
        }
        assert(s@.subrange(i as int, i + n@.len()) =~= tail@.take(n@.len() as int));
        if i == last {
            assert(find_from(s@, n@, i as int + 1) is None);
            return None;
        }
        i = i + 1;
    }
    None
}

/// Whether `c` occurs in `s`.
pub fn contains_char(s: &[char], c: char) -> (r: bool)
    ensures
        r == s@.contains(c),
{
    let mut i: usize = 0;
    while i < s.len()
        invariant
            0 <= i <= s@.len(),
            forall|k: int| 0 <= k < i ==> s@[k] != c,
        decreases s@.len() - i,
    {
        if s[i] == c {
            return true;
        }
        i = i + 1;
    }
    false
}

/// `s` with every `from` replaced by `to` (`str::replace` with two chars).
pub fn replace_char(s: &[char], from: char, to: char) -> (r: Vec<char>)
    ensures
        r@ == replace_char_spec(s@, from, to),
{
    let mut r: Vec<char> = Vec::new();
    let mut i: usize = 0;
    while i < s.len()
        invariant
            0 <= i <= s@.len(),
            r@ == replace_char_spec(s@.take(i as int), from, to),
        decreases s@.len() - i,
    {
        let c = s[i];
        r.push(if c == from { to } else { c });
        i = i + 1;
        assert(replace_char_spec(s@.take(i as int), from, to) =~= replace_char_spec(
            s@.take(i - 1),
            from,
            to,
        ).push(if c == from { to } else { c }));
    }
    assert(s@.take(s@.len() as int) == s@);
    r
}

/// The pieces of `s` between occurrences of `sep` (`str::split` with a char).
pub fn split_char(s: &[char], sep: char) -> (r: Vec<Vec<char>>)
    ensures
        r.deep_view() == split_spec(s@, sep),
        r@.len() >= 1,
    decreases s@.len(),
{
    let len = s.len();
    let sep_v = [sep];
    proof {
        assert(sep_v@ =~= seq![sep]);
        lemma_find_char(s@, sep);
    }
    match find(s, &sep_v) {
        Some(i) => {
            let head = &s[0..i];
            let tail = &s[i + 1..s.len()];
            let mut r: Vec<Vec<char>> = Vec::new();
            r.push(vstd::slice::slice_to_vec(head));
            let rest = split_char(tail, sep);
            let ghost rest_v = rest.deep_view();
            let ghost r0 = r@;
            let ghost rest_seq = rest@;
            let mut rest_m = rest;
            r.append(&mut rest_m);
            proof {
                assert(head@ =~= s@.take(i as int));
                assert(tail@ =~= s@.skip(i + 1));
                assert(r@ == r0 + rest_seq);
                let want = seq![s@.take(i as int)] + split_spec(s@.skip(i + 1), sep);
                assert(r.deep_view().len() == want.len());
                assert forall|k: int| 0 <= k < want.len() implies r.deep_view()[k] == want[k] by {
                    if k > 0 {
                        assert(r@[k] == rest_seq[k - 1]);
                        assert(rest_v[k - 1] == rest_seq[k - 1]@);
                    }
                }
                assert(r.deep_view() =~= want);
            }
            r
        },
        None => {
            let mut r: Vec<Vec<char>> = Vec::new();
            r.push(vstd::slice::slice_to_vec(s));
            proof {
                assert(r.deep_view().len() == 1);
                assert(r.deep_view()[0] == r@[0]@);
                assert(r.deep_view() =~= seq![s@]);
            }
            r
        },
    }
}

/// Characters with the Unicode `White_Space` property (`char::is_whitespace`).
pub open spec fn is_whitespace(c: char) -> bool {
    let u = c as u32;
    (0x9 <= u <= 0xd) || u == 0x20 || u == 0x85 || u == 0xa0 || u == 0x1680 || (0x2000 <= u
        <= 0x200a) || u == 0x2028 || u == 0x2029 || u == 0x202f || u == 0x205f || u == 0x3000
}

/// `s` without leading whitespace (`str::trim_start`).
pub open spec fn trim_start_spec(s: Seq<char>) -> Seq<char>
    decreases s.len(),
{
    if s.len() > 0 && is_whitespace(s[0]) {
        trim_start_spec(s.drop_first())
    } else {
        s
    }
}

/// `s` without trailing whitespace (`str::trim_end`).
pub open spec fn trim_end_spec(s: Seq<char>) -> Seq<char>
    decreases s.len(),
{
    if s.len() > 0 && is_whitespace(s.last()) {
        trim_end_spec(s.drop_last())
    } else {
        s
    }
}

/// `s` without leading and trailing whitespace (`str::trim`).
pub open spec fn trim_spec(s: Seq<char>) -> Seq<char> {
    trim_end_spec(trim_start_spec(s))
}

/// `s` without trailing `c`s (`str::trim_end_matches` with a char).
pub open spec fn trim_end_char_spec(s: Seq<char>, c: char) -> Seq<char>
    decreases s.len(),
{
    if s.len() > 0 && s.last() == c {
        trim_end_char_spec(s.drop_last(), c)
    } else {
        s
    }
}

/// `s` without leading copies of `p` (`str::trim_start_matches` with a string).
pub open spec fn trim_start_seq_spec(s: Seq<char>, p: Seq<char>) -> Seq<char>
    decreases s.len(),
{
    if p.len() > 0 && is_prefix_of(p, s) {
        trim_start_seq_spec(s.skip(p.len() as int), p)
    } else {
        s
    }
}

/// A line without the `\r` that ended it.
pub open spec fn strip_cr(l: Seq<char>) -> Seq<char> {
    if l.len() > 0 && l.last() == '\r' {
        l.drop_last()
    } else {
        l
    }
}

/// The lines of `s` (`str::lines`): split at `\n`, a `\r` before the `\n` dropped,
/// and no empty line after a final `\n`.
pub open spec fn lines_spec(s: Seq<char>) -> Seq<Seq<char>>
    decreases s.len(),
{
    if s.len() == 0 {
        seq![]
    } else {
        match find_first(s, seq!['\n']) {
            Some(i) => if 0 <= i < s.len() {
                seq![strip_cr(s.take(i))] + lines_spec(s.skip(i + 1))
            } else {
                seq![s]
            },
            None => seq![s],
        }
    }
}

/// The number of bytes of `c` in UTF-8 (`char::len_utf8`).
pub open spec fn char_width(c: char) -> nat {
    let u = c as u32;
    if u < 0x80 {
        1
    } else if u < 0x800 {
        2
    } else if u < 0x10000 {
        3
    } else {
        4
    }
}

/// The number of bytes of `s` in UTF-8.
pub open spec fn byte_len(s: Seq<char>) -> nat
    decreases s.len(),
{
    if s.len() == 0 {
        0
    } else {
        char_width(s[0]) + byte_len(s.drop_first())
    }
}

/// `b` is a byte offset in `s` that falls between two characters.
pub open spec fn is_char_boundary_at(s: Seq<char>, b: int) -> bool {
    exists|k: int| 0 <= k <= s.len() && #[trigger] byte_len(s.take(k)) == b
}

/// The number of whole characters at the start of `s` that fit in `b` bytes; at a
/// character boundary, the character index of byte offset `b`.
pub open spec fn chars_within_bytes(s: Seq<char>, b: int) -> nat
    decreases s.len(),
{
    if s.len() > 0 && char_width(s[0]) <= b {
        1 + chars_within_bytes(s.drop_first(), b - char_width(s[0]))
    } else {
        0
    }
}

/// The UTF-8 width of `c` (`char::len_utf8`).
pub fn char_width_exec(c: char) -> (w: usize)
    ensures
        w == char_width(c),
{
    let u = c as u32;
    if u < 0x80 {
        1
    } else if u < 0x800 {
        2
    } else if u < 0x10000 {
        3
    } else {
        4
    }
}

/// Whether `c` is whitespace (`char::is_whitespace`).
pub fn is_whitespace_exec(c: char) -> (r: bool)
    ensures
        r == is_whitespace(c),
{
    let u = c as u32;
    (0x9 <= u && u <= 0xd) || u == 0x20 || u == 0x85 || u == 0xa0 || u == 0x1680 || (0x2000 <= u
        && u <= 0x200a) || u == 0x2028 || u == 0x2029 || u == 0x202f || u == 0x205f || u == 0x3000
}

/// `s` without leading and trailing whitespace (`str::trim`).
pub fn trim(s: &[char]) -> (r: &[char])
    ensures
        r@ == trim_spec(s@),
{
    let mut a: usize = 0;
    assert(s@.skip(0) =~= s@);
    while a < s.len() && is_whitespace_exec(s[a])
        invariant
            0 <= a <= s@.len(),
            trim_start_spec(s@) == trim_start_spec(s@.skip(a as int)),
        decreases s@.len() - a,
    {
        assert(s@.skip(a as int).drop_first() =~= s@.skip(a + 1));
        a = a + 1;
    }
    let mut b: usize = s.len();
    assert(s@.skip(a as int) =~= s@.subrange(a as int, b as int));
    while b > a && is_whitespace_exec(s[b - 1])
        invariant
            0 <= a <= b <= s@.len(),
            trim_start_spec(s@) == s@.skip(a as int),
            trim_spec(s@) == trim_end_spec(s@.subrange(a as int, b as int)),
        decreases b,
    {
        assert(s@.subrange(a as int, b as int).drop_last() =~= s@.subrange(a as int, b - 1));
        b = b - 1;
    }
    &s[a..b]
}

/// `s` without trailing `c`s (`str::trim_end_matches` with a char).
pub fn trim_end_char(s: &[char], c: char) -> (r: &[char])
    ensures
        r@ == trim_end_char_spec(s@, c),
{
    let mut b: usize = s.len();
    assert(s@.take(b as int) =~= s@);
    while b > 0 && s[b - 1] == c
        invariant
            0 <= b <= s@.len(),
            trim_end_char_spec(s@, c) == trim_end_char_spec(s@.take(b as int), c),
        decreases b,
    {
        assert(s@.take(b as int).drop_last() =~= s@.take(b - 1));
        b = b - 1;
    }
    &s[0..b]
}

/// `s` without leading copies of `p` (`str::trim_start_matches` with a string).
pub fn trim_start_seq<'a>(s: &'a [char], p: &[char]) -> (r: &'a [char])
    ensures
        r@ == trim_start_seq_spec(s@, p@),
{
    if p.len() == 0 {
        return s;
    }
    let mut a: usize = 0;
    assert(s@.skip(0) =~= s@);
    while a < s.len() && starts_with(&s[a..s.len()], p)
        invariant
            0 <= a <= s@.len(),
            p@.len() > 0,
            trim_start_seq_spec(s@, p@) == trim_start_seq_spec(s@.skip(a as int), p@),
        decreases s@.len() - a,
    {
        assert(s@.subrange(a as int, s@.len() as int) =~= s@.skip(a as int));
        assert(s@.skip(a as int).skip(p@.len() as int) =~= s@.skip(a + p@.len()));
        a = a + p.len();
    }
    if a < s.len() {
        assert(s@.subrange(a as int, s@.len() as int) =~= s@.skip(a as int));
    } else {
        assert(s@.skip(a as int).len() == 0);
        assert(!is_prefix_of(p@, s@.skip(a as int)));
    }
    &s[a..s.len()]
}

proof fn lemma_lines_step(s: Seq<char>, pos: int, i: int)
    requires
        0 <= pos < s.len(),
        pos <= i < s.len(),
        s[i] == '\n',
        forall|j: int| pos <= j < i ==> s[j] != '\n',
    ensures
        lines_spec(s.skip(pos)) == seq![strip_cr(s.subrange(pos, i))] + lines_spec(s.skip(i + 1)),
{
    let t = s.skip(pos);
    lemma_find_char(t, '\n');
    let k = i - pos;
    assert(t[k] == '\n');
    match find_first(t, seq!['\n']) {
        Some(f) => {
            assert(f == k) by {
                if f < k {
                    assert(t[f] == s[pos + f]);
                }
                if f > k {
                }
            }
        },
        None => {
            assert(t.contains('\n'));
        },
    }
    assert(t.take(k) =~= s.subrange(pos, i));
    assert(t.skip(k + 1) =~= s.skip(i + 1));
}

proof fn lemma_lines_last(s: Seq<char>, pos: int)
    requires
        0 <= pos < s.len(),
        forall|j: int| pos <= j < s.len() ==> s[j] != '\n',
    ensures
        lines_spec(s.skip(pos)) == seq![s.skip(pos)],
{
    let t = s.skip(pos);
    lemma_find_char(t, '\n');
    if t.contains('\n') {
        let j = choose|j: int| 0 <= j < t.len() && t[j] == '\n';
        assert(s[pos + j] == '\n');
    }
}

/// A line without the `\r` that ended it.
fn strip_cr_exec(l: &[char]) -> (r: &[char])
    ensures
        r@ == strip_cr(l@),
{
    if l.len() > 0 && l[l.len() - 1] == '\r' {
        &l[0..l.len() - 1]
    } else {
        l
    }
}

/// The lines of `s` (`str::lines`).
pub fn lines_of(s: &[char]) -> (r: Vec<Vec<char>>)
    ensures
        r.deep_view() == lines_spec(s@),
{
    let mut r: Vec<Vec<char>> = Vec::new();
    let mut pos: usize = 0;
    let mut i: usize = 0;
    assert(s@.skip(0) =~= s@);
    while i < s.len()
        invariant
            0 <= pos <= i <= s@.len(),
            forall|j: int| pos <= j < i ==> s@[j] != '\n',
            lines_spec(s@) == r.deep_view() + lines_spec(s@.skip(pos as int)),
        decreases s@.len() - i,
    {
        if s[i] == '\n' {
            proof {
                lemma_lines_step(s@, pos as int, i as int);
            }
            let line = strip_cr_exec(&s[pos..i]);
            let ghost before = r.deep_view();
            let ghost old_r = r@;
            r.push(vstd::slice::slice_to_vec(line));
            assert forall|k: int| 0 <= k < r@.len() implies r.deep_view()[k] == before.push(
                strip_cr(s@.subrange(pos as int, i as int)),
            )[k] by {
                if k < old_r.len() {
                    assert(r@[k] == old_r[k]);
                }
            }
            assert(r.deep_view() =~= before.push(strip_cr(s@.subrange(pos as int, i as int))));
            assert(before + (seq![strip_cr(s@.subrange(pos as int, i as int))] + lines_spec(
                s@.skip(i + 1),
            )) =~= r.deep_view() + lines_spec(s@.skip(i + 1)));
            pos = i + 1;
        }
        i = i + 1;
    }
    if pos < s.len() {
        proof {
            lemma_lines_last(s@, pos as int);
        }
        let ghost before = r.deep_view();
        let ghost old_r = r@;
        r.push(vstd::slice::slice_to_vec(&s[pos..s.len()]));
        assert(s@.subrange(pos as int, s@.len() as int) =~= s@.skip(pos as int));
        assert forall|k: int| 0 <= k < r@.len() implies r.deep_view()[k] == (before + seq![
            s@.skip(pos as int),
        ])[k] by {
            if k < old_r.len() {
                assert(r@[k] == old_r[k]);
            }
        }
        assert(r.deep_view() =~= before + seq![s@.skip(pos as int)]);
    } else {
        assert(s@.skip(pos as int).len() == 0);
        assert(r.deep_view() + lines_spec(s@.skip(pos as int)) =~= r.deep_view());
    }
    r
}

} // verus!
