//! Character-level utilities shared by the parsers: conversion between
//! `&str` and `Vec<char>`, equality and substring tests, whitespace
//! trimming, and line splitting with the same semantics as `str::lines`.

use vstd::prelude::*;
use vstd::string::StrSliceExecFns;

verus! {

/// All characters of `s`, in order.
pub fn chars_of(s: &str) -> (r: Vec<char>)
    ensures
        r@ == s@,
{
    let n: usize = s.unicode_len();
    let mut r: Vec<char> = Vec::new();
    let mut i: usize = 0;
    while i < n
        invariant
            n == s@.len(),
            i <= n,
            r@ == s@.subrange(0, i as int),
        decreases n - i,
    {
        r.push(s.get_char(i));
        i = i + 1;
        assert(r@ =~= s@.subrange(0, i as int));
    }
    assert(r@ =~= s@);
    r
}

/// Whether two strings hold the same characters.
pub fn str_eq(a: &str, b: &str) -> (r: bool)
    ensures
        r == (a@ == b@),
{
    let an: usize = a.unicode_len();
    let bn: usize = b.unicode_len();
    if an != bn {
        return false;
    }
    let mut i: usize = 0;
    while i < an
        invariant
            an == a@.len(),
            an == b@.len(),
            i <= an,
            forall|j: int| 0 <= j < i ==> a@[j] == b@[j],
        decreases an - i,
    {
        if a.get_char(i) != b.get_char(i) {
            return false;
        }
        i = i + 1;
    }
    proof {
        assert(a@ =~= b@);
    }
    true
}

/// Whether two character slices hold the same characters.
pub fn seq_eq(a: &[char], b: &[char]) -> (r: bool)
    ensures
        r == (a@ == b@),
{
    if a.len() != b.len() {
        return false;
    }
    let mut i: usize = 0;
    while i < a.len()
        invariant
            a@.len() == b@.len(),
            i <= a@.len(),
            forall|j: int| 0 <= j < i ==> a@[j] == b@[j],
        decreases a@.len() - i,
    {
        if a[i] != b[i] {
            return false;
        }
        i = i + 1;
    }
    proof {
        assert(a@ =~= b@);
    }
    true
}

/// The Unicode `White_Space` characters, the class that `str::trim` removes.
pub open spec fn is_space_char(c: char) -> bool {
    let u = c as u32;
    u == 0x09 || u == 0x0A || u == 0x0B || u == 0x0C || u == 0x0D || u == 0x20 || u == 0x85
        || u == 0xA0 || u == 0x1680 || (0x2000 <= u && u <= 0x200A) || u == 0x2028 || u == 0x2029
        || u == 0x202F || u == 0x205F || u == 0x3000
}

/// Whether `c` is a whitespace character.
pub fn is_space(c: char) -> (r: bool)
    ensures
        r == is_space_char(c),
{
    let u = c as u32;
    u == 0x09 || u == 0x0A || u == 0x0B || u == 0x0C || u == 0x0D || u == 0x20 || u == 0x85
        || u == 0xA0 || u == 0x1680 || (0x2000 <= u && u <= 0x200A) || u == 0x2028 || u == 0x2029
        || u == 0x202F || u == 0x205F || u == 0x3000
}

/// `s` with its leading whitespace removed.
pub open spec fn spec_trim_start(s: Seq<char>) -> Seq<char>
    decreases s.len(),
{
    if s.len() > 0 && is_space_char(s[0]) {
        spec_trim_start(s.drop_first())
    } else {
        s
    }
}

/// `s` with its trailing whitespace removed.
pub open spec fn spec_trim_end(s: Seq<char>) -> Seq<char>
    decreases s.len(),
{
    if s.len() > 0 && is_space_char(s.last()) {
        spec_trim_end(s.drop_last())
    } else {
        s
    }
}

/// `s` with leading and trailing whitespace removed, as `str::trim` leaves it.
pub open spec fn spec_trim(s: Seq<char>) -> Seq<char> {
    spec_trim_end(spec_trim_start(s))
}

proof fn lemma_trim_start_skip(s: Seq<char>, k: int)
    requires
        0 <= k <= s.len(),
        forall|j: int| 0 <= j < k ==> is_space_char(s[j]),
        k < s.len() ==> !is_space_char(s[k]),
    ensures
        spec_trim_start(s) == s.skip(k),
    decreases k,
{
    if k == 0 {
        assert(s.skip(0) =~= s);
    } else {
        let t = s.drop_first();
        assert(t =~= s.skip(1));
        assert(forall|j: int| 0 <= j < k - 1 ==> t[j] == s[j + 1]);
        lemma_trim_start_skip(t, k - 1);
        assert(t.skip(k - 1) =~= s.skip(k));
    }
}

proof fn lemma_trim_end_take(s: Seq<char>, k: int)
    requires
        0 <= k <= s.len(),
        forall|j: int| k <= j < s.len() ==> is_space_char(s[j]),
        k > 0 ==> !is_space_char(s[k - 1]),
    ensures
        spec_trim_end(s) == s.take(k),
    decreases s.len(),
{
    if k == s.len() {
        assert(s.take(k) =~= s);
    } else {
        let t = s.drop_last();
        lemma_trim_end_take(t, k);
        assert(t.take(k) =~= s.take(k));
    }
}

/// `s` with leading and trailing whitespace removed.
pub fn trim_chars(s: &[char]) -> (r: Vec<char>)
    ensures
        r@ == spec_trim(s@),
{
    let n: usize = s.len();
    let mut lo: usize = 0;
    while lo < n && is_space(s[lo])
        invariant
            n == s@.len(),
            lo <= n,
            forall|j: int| 0 <= j < lo ==> is_space_char(s@[j]),
        decreases n - lo,
    {
        lo = lo + 1;
    }
    let mut hi: usize = n;
    while hi > lo && is_space(s[hi - 1])
        invariant
            n == s@.len(),
            lo <= hi <= n,
            forall|j: int| hi <= j < n ==> is_space_char(s@[j]),
        decreases hi,
    {
        hi = hi - 1;
    }
    proof {
        lemma_trim_start_skip(s@, lo as int);
        let t = s@.skip(lo as int);
        assert(forall|j: int| hi - lo <= j < t.len() ==> t[j] == s@[j + lo]);
        lemma_trim_end_take(t, hi - lo);
    }
    let mut r: Vec<char> = Vec::new();
    let mut i: usize = lo;
    while i < hi
        invariant
            lo <= i <= hi <= n,
            n == s@.len(),
            r@ == s@.subrange(lo as int, i as int),
        decreases hi - i,
    {
        r.push(s[i]);
        i = i + 1;
        assert(r@ =~= s@.subrange(lo as int, i as int));
    }
    proof {
        assert(r@ =~= s@.skip(lo as int).take(hi - lo));
    }
    r
}

/// Index of the first occurrence of `c` in `s`, or `s.len()` if there is none.
pub open spec fn spec_find(s: Seq<char>, c: char) -> nat
    decreases s.len(),
{
    if s.len() == 0 {
        0
    } else if s[0] == c {
        0
    } else {
        (1 + spec_find(s.drop_first(), c)) as nat
    }
}

/// The first index at which a scan finds `c` is what `spec_find` returns.
pub proof fn lemma_find_at(s: Seq<char>, c: char, k: int)
    requires
        0 <= k <= s.len(),
        forall|j: int| 0 <= j < k ==> s[j] != c,
        k < s.len() ==> s[k] == c,
    ensures
        spec_find(s, c) == k,
    decreases k,
{
    if k > 0 {
        let t = s.drop_first();
        assert(forall|j: int| 0 <= j < k - 1 ==> t[j] == s[j + 1]);
        lemma_find_at(t, c, k - 1);
    }
}

pub proof fn lemma_find_bounds(s: Seq<char>, c: char)
    ensures
        0 <= spec_find(s, c) <= s.len(),
        spec_find(s, c) < s.len() ==> s[spec_find(s, c) as int] == c,
        forall|j: int| 0 <= j < spec_find(s, c) ==> s[j] != c,
    decreases s.len(),
{
    if s.len() > 0 && s[0] != c {
        lemma_find_bounds(s.drop_first(), c);
        assert forall|j: int| 0 <= j < spec_find(s, c) implies s[j] != c by {
            if j > 0 {
                assert(s.drop_first()[j - 1] == s[j]);
            }
        }
    }
}

/// `l` with one trailing carriage return removed, as `str::lines` strips it.
pub open spec fn strip_cr(l: Seq<char>) -> Seq<char> {
    if l.len() > 0 && l.last() == '\r' {
        l.drop_last()
    } else {
        l
    }
}

/// The lines of `s`, split as `str::lines` splits them: terminators are
/// `\n` or `\r\n`, the final terminator is optional, and a trailing `\r`
/// on the last unterminated line is kept.
pub open spec fn spec_lines(s: Seq<char>) -> Seq<Seq<char>>
    decreases s.len(),
{
    if s.len() == 0 {
        Seq::empty()
    } else {
        let i = spec_find(s, '\n');
        if i >= s.len() {
            seq![s]
        } else {
            seq![strip_cr(s.take(i as int))] + spec_lines(s.skip(i + 1 as int))
        }
    }
}

/// The lines of `s`, split as `str::lines` splits them.
pub fn split_lines(s: &[char]) -> (r: Vec<Vec<char>>)
    ensures
        r@.map_values(|l: Vec<char>| l@) == spec_lines(s@),
{
    let n: usize = s.len();
    let mut r: Vec<Vec<char>> = Vec::new();
    let mut p: usize = 0;
    proof {
        assert(s@.skip(0) =~= s@);
    }
    while p < n
        invariant
            n == s@.len(),
            p <= n,
            spec_lines(s@) == r@.map_values(|l: Vec<char>| l@) + spec_lines(s@.skip(p as int)),
        decreases n - p,
    {
        let ghost rest = s@.skip(p as int);
        let mut q: usize = p;
        while q < n && s[q] != '\n'
            invariant
                n == s@.len(),
                p <= q <= n,
                forall|j: int| p <= j < q ==> s@[j] != '\n',
            decreases n - q,
        {
            q = q + 1;
        }
        proof {
            assert(forall|j: int| 0 <= j < q - p ==> rest[j] == s@[j + p]);
            lemma_find_at(rest, '\n', q - p);
        }
        let end: usize = if q < n && q > p && s[q - 1] == '\r' {
            q - 1
        } else {
            q
        };
        let mut line: Vec<char> = Vec::new();
        let mut i: usize = p;
        while i < end
            invariant
                p <= i <= end <= n,
                n == s@.len(),
                line@ == s@.subrange(p as int, i as int),
            decreases end - i,
        {
            line.push(s[i]);
            i = i + 1;
            assert(line@ =~= s@.subrange(p as int, i as int));
        }
        proof {
            if q < n {
                assert(rest.take(q - p) =~= s@.subrange(p as int, q as int));
                assert(line@ =~= strip_cr(rest.take(q - p)));
            } else {
                assert(line@ =~= rest);
            }
        }
        r.push(line);
        let ghost prev = p as int;
        if q < n {
            p = q + 1;
        } else {
            p = n;
        }
        proof {
            if q < n {
                assert(s@.skip(prev).skip(q - prev + 1) =~= s@.skip(p as int));
                assert(spec_lines(s@.skip(prev)) == seq![line@] + spec_lines(s@.skip(p as int)));
            } else {
                assert(s@.skip(p as int) =~= Seq::<char>::empty());
                assert(spec_lines(s@.skip(prev)) == seq![line@]);
            }
            assert(r@.map_values(|l: Vec<char>| l@) =~= r@.drop_last().map_values(
                |l: Vec<char>| l@,
            ).push(line@));
            assert(r@.map_values(|l: Vec<char>| l@) + spec_lines(s@.skip(p as int))
                =~= r@.drop_last().map_values(|l: Vec<char>| l@) + spec_lines(s@.skip(prev)));
        }
    }
    proof {
        assert(s@.skip(n as int) =~= Seq::<char>::empty());
        assert(r@.map_values(|l: Vec<char>| l@) + spec_lines(s@.skip(p as int)) =~= r@.map_values(
            |l: Vec<char>| l@,
        ));
    }
    r
}

/// The number of whitespace characters at the start of `s`.
pub open spec fn ws_run(s: Seq<char>) -> nat
    decreases s.len(),
{
    if s.len() > 0 && is_space_char(s[0]) {
        (1 + ws_run(s.drop_first())) as nat
    } else {
        0
    }
}

/// The first index at which a scan finds a non-space is what `ws_run`
/// returns.
pub proof fn lemma_ws_run_at(s: Seq<char>, k: int)
    requires
        0 <= k <= s.len(),
        forall|j: int| 0 <= j < k ==> is_space_char(s[j]),
        k < s.len() ==> !is_space_char(s[k]),
    ensures
        ws_run(s) == k,
    decreases k,
{
    if k > 0 {
        let t = s.drop_first();
        assert(forall|j: int| 0 <= j < k - 1 ==> t[j] == s[j + 1]);
        lemma_ws_run_at(t, k - 1);
    }
}

/// A copy of `s[lo..hi]`.
pub fn copy_range(s: &[char], lo: usize, hi: usize) -> (r: Vec<char>)
    requires
        lo <= hi <= s@.len(),
    ensures
        r@ == s@.subrange(lo as int, hi as int),
{
    let mut r: Vec<char> = Vec::new();
    let mut i: usize = lo;
    while i < hi
        invariant
            lo <= i <= hi <= s@.len(),
            r@ == s@.subrange(lo as int, i as int),
        decreases hi - i,
    {
        r.push(s[i]);
        i = i + 1;
        assert(r@ =~= s@.subrange(lo as int, i as int));
    }
    r
}

/// A copy of `v` with the same strings.
pub(crate) fn vec_string_clone(v: &Vec<String>) -> (r: Vec<String>)
    ensures
        r@ == v@,
{
    let mut r: Vec<String> = Vec::new();
    let mut i: usize = 0;
    while i < v.len()
        invariant
            i <= v@.len(),
            r@ == v@.subrange(0, i as int),
        decreases v@.len() - i,
    {
        r.push(v[i].clone());
        i = i + 1;
        assert(r@ =~= v@.subrange(0, i as int));
    }
    assert(r@ =~= v@);
    r
}

/// Whether `p` occurs in `s` as a contiguous run.
pub open spec fn contains_seq(s: Seq<char>, p: Seq<char>) -> bool {
    exists|i: int| 0 <= i && i + p.len() <= s.len() && #[trigger] s.subrange(i, i + p.len()) == p
}

/// Whether `p` occurs in `s` as a contiguous run.
pub fn contains_chars(s: &[char], p: &[char]) -> (r: bool)
    ensures
        r == contains_seq(s@, p@),
{
    let n: usize = s.len();
    let m: usize = p.len();
    if m > n {
        return false;
    }
    if m == 0 {
        proof {
            assert(s@.subrange(0, 0 + p@.len() as int) =~= p@);
        }
        return true;
    }
    let mut i: usize = 0;
    while i <= n - m
        invariant
            1 <= m <= n,
            n == s@.len(),
            m == p@.len(),
            i <= n - m + 1,
            forall|i2: int| 0 <= i2 < i ==> #[trigger] s@.subrange(i2, i2 + p@.len()) != p@,
        decreases n - i,
    {
        let mut j: usize = 0;
        let mut hit = true;
        while j < m
            invariant_except_break
                hit,
            invariant
                i + m <= n,
                n == s@.len(),
                m == p@.len(),
                j <= m,
                forall|k: int| 0 <= k < j ==> s@[i + k] == p@[k],
            ensures
                j <= m,
                hit ==> j == m && forall|k: int| 0 <= k < j ==> s@[i + k] == p@[k],
                !hit ==> j < m && s@[i + j as int] != p@[j as int],
            decreases m - j,
        {
            if s[i + j] != p[j] {
                hit = false;
                break ;
            }
            j = j + 1;
        }
        if hit {
            proof {
                assert(s@.subrange(i as int, i + p@.len()) =~= p@);
            }
            return true;
        }
        proof {
            assert(s@.subrange(i as int, i + p@.len())[j as int] == s@[i + j as int]);
        }
        i = i + 1;
    }
    false
}

/// Whether `c` occurs in `s`.
pub fn contains_char(s: &[char], c: char) -> (r: bool)
    ensures
        r == s@.contains(c),
{
    let mut i: usize = 0;
    while i < s.len()
        invariant
            i <= s@.len(),
            forall|j: int| 0 <= j < i ==> s@[j] != c,
        decreases s@.len() - i,
    {
        if s[i] == c {
            return true;
        }
        i = i + 1;
    }
    false
}

/// Whether `s` begins with `p`.
pub fn starts_with_chars(s: &[char], p: &[char]) -> (r: bool)
    ensures
        r == p@.is_prefix_of(s@),
{
    let m: usize = p.len();
    if m > s.len() {
        return false;
    }
    let mut j: usize = 0;
    while j < m
        invariant
            m <= s@.len(),
            m == p@.len(),
            j <= m,
            forall|k: int| 0 <= k < j ==> s@[k] == p@[k],
        decreases m - j,
    {
        if s[j] != p[j] {
            assert(s@.subrange(0, p@.len() as int)[j as int] != p@[j as int]);
            return false;
        }
        j = j + 1;
    }
    proof {
        assert(p@ =~= s@.subrange(0, p@.len() as int));
    }
    true
}

/// The lines joined with a newline between each pair, as `[&str]::join("\n")`.
pub open spec fn spec_join_nl(ls: Seq<Seq<char>>) -> Seq<char>
    decreases ls.len(),
{
    if ls.len() == 0 {
        Seq::empty()
    } else if ls.len() == 1 {
        ls[0]
    } else {
        spec_join_nl(ls.drop_last()) + seq!['\n'] + ls.last()
    }
}

/// The lines joined with a newline between each pair.
pub fn join_lines(ls: &Vec<Vec<char>>) -> (r: Vec<char>)
    ensures
        r@ == spec_join_nl(ls@.map_values(|l: Vec<char>| l@)),
{
    let ghost m = ls@.map_values(|l: Vec<char>| l@);
    let mut r: Vec<char> = Vec::new();
    let mut i: usize = 0;
    proof {
        assert(m.take(0) =~= Seq::<Seq<char>>::empty());
    }
    while i < ls.len()
        invariant
            i <= ls@.len(),
            m == ls@.map_values(|l: Vec<char>| l@),
            r@ == spec_join_nl(m.take(i as int)),
        decreases ls@.len() - i,
    {
        if i > 0 {
            r.push('\n');
        }
        let line = &ls[i];
        let mut j: usize = 0;
        let ghost base = r@;
        while j < line.len()
            invariant
                j <= line@.len(),
                r@ == base + line@.subrange(0, j as int),
            decreases line@.len() - j,
        {
            r.push(line[j]);
            j = j + 1;
            assert(r@ =~= base + line@.subrange(0, j as int));
        }
        proof {
            assert(line@.subrange(0, line@.len() as int) =~= line@);
            assert(m.take(i + 1).drop_last() =~= m.take(i as int));
            assert(m.take(i + 1).last() == m[i as int]);
            if i == 0 {
                assert(r@ =~= spec_join_nl(m.take(i + 1)));
            } else {
                assert(r@ =~= spec_join_nl(m.take(i as int)) + seq!['\n'] + m[i as int]);
            }
        }
        i = i + 1;
    }
    proof {
        assert(m.take(ls@.len() as int) =~= m);
    }
    r
}

/// Relies on `String::push`: appends the given character to the end of the string.
#[verifier::external_body]
pub fn push_char(s: &mut String, c: char)
    ensures
        final(s)@ == old(s)@.push(c),
{
    s.push(c);
}

/// A `String` holding exactly the characters of `cs`.
pub fn string_of(cs: &[char]) -> (r: String)
    ensures
        r@ == cs@,
{
    let mut r = String::new();
    let mut i: usize = 0;
    while i < cs.len()
        invariant
            i <= cs@.len(),
            r@ == cs@.subrange(0, i as int),
        decreases cs@.len() - i,
    {
        push_char(&mut r, cs[i]);
        i = i + 1;
        assert(r@ =~= cs@.subrange(0, i as int));
    }
    assert(r@ =~= cs@);
    r
}

/// The decimal digits of `n`, most significant first.
pub open spec fn spec_dec_digits(n: int) -> Seq<char>
    decreases n,
{
    if n < 10 {
        seq![(((0x30 + if n >= 0 { n } else { 0 }) as u8) as char)]
    } else {
        spec_dec_digits(n / 10).push((((0x30 + n % 10) as u8) as char))
    }
}

/// The decimal representation of `n`.
pub fn dec_string(n: u64) -> (r: String)
    ensures
        r@ == spec_dec_digits(n as int),
    decreases n,
{
    if n < 10 {
        let mut s = String::new();
        push_char(&mut s, (0x30u8 + (n as u8)) as char);
        s
    } else {
        let mut s = dec_string(n / 10);
        push_char(&mut s, (0x30u8 + ((n % 10) as u8)) as char);
        s
    }
}

/// Whether `c` is an ASCII decimal digit.
pub open spec fn is_digit_char(c: char) -> bool {
    0x30 <= (c as u32) <= 0x39
}

/// The value of the ASCII decimal digit `c`.
pub open spec fn digit_val(c: char) -> int {
    (c as u32) - 0x30
}

/// Whether every character of `s` is an ASCII decimal digit.
pub open spec fn all_digits(s: Seq<char>) -> bool {
    forall|i: int| 0 <= i < s.len() ==> is_digit_char(#[trigger] s[i])
}

/// The integer denoted by the digit string `s`.
pub open spec fn digits_val(s: Seq<char>) -> int
    decreases s.len(),
{
    if s.len() == 0 {
        0
    } else {
        digits_val(s.drop_last()) * 10 + digit_val(s.last())
    }
}

proof fn lemma_digits_val_nonneg(s: Seq<char>)
    requires
        all_digits(s),
    ensures
        digits_val(s) >= 0,
    decreases s.len(),
{
    if s.len() > 0 {
        assert(forall|i: int| 0 <= i < s.len() - 1 ==> s.drop_last()[i] == s[i]);
        lemma_digits_val_nonneg(s.drop_last());
    }
}

/// `s` with one leading `+` or `-` removed.
pub open spec fn strip_sign(s: Seq<char>) -> Seq<char> {
    if s.len() > 0 && (s[0] == '+' || s[0] == '-') {
        s.drop_first()
    } else {
        s
    }
}

/// Whether `s` is a string that `str::parse::<i64>` accepts: an optional
/// sign, then at least one decimal digit, with the value in range.
pub open spec fn is_i64_literal(s: Seq<char>) -> bool {
    let body = strip_sign(s);
    body.len() > 0 && all_digits(body) && (if s.len() > 0 && s[0] == '-' {
        digits_val(body) <= 0x8000000000000000
    } else {
        digits_val(body) <= 0x7FFFFFFFFFFFFFFF
    })
}

/// Whether `s` is a string that `str::parse::<usize>` accepts, and the
/// value it denotes.
pub open spec fn is_usize_literal(s: Seq<char>) -> bool {
    let body = if s.len() > 0 && s[0] == '+' {
        s.drop_first()
    } else {
        s
    };
    body.len() > 0 && all_digits(body) && digits_val(body) <= usize::MAX as int
}

/// The value denoted by the usize literal `s`.
pub open spec fn usize_literal_val(s: Seq<char>) -> int {
    digits_val(
        if s.len() > 0 && s[0] == '+' {
            s.drop_first()
        } else {
            s
        },
    )
}

/// Scans the digits of `s` from `start` on, keeping the exact value while
/// it is at most `cap`; reports whether all characters were digits, and
/// the value or that it exceeded `cap`.
fn scan_digits(s: &[char], start: usize, cap: u64) -> (r: (bool, bool, u64))
    requires
        start <= s@.len(),
    ensures
        r.0 == (s@.len() - start > 0 && all_digits(s@.skip(start as int))),
        r.0 && !r.1 ==> r.2 as int == digits_val(s@.skip(start as int)) && r.2 <= cap,
        r.0 && r.1 ==> digits_val(s@.skip(start as int)) > cap,
{
    let n: usize = s.len();
    if n == start {
        return (false, false, 0);
    }
    let ghost body = s@.skip(start as int);
    let mut acc: u128 = 0;
    let mut too_big = false;
    let mut i: usize = start;
    proof {
        assert(s@.subrange(start as int, start as int) =~= Seq::<char>::empty());
    }
    while i < n
        invariant
            start <= i <= n,
            n == s@.len(),
            body == s@.skip(start as int),
            cap <= u64::MAX,
            forall|j: int| start <= j < i ==> is_digit_char(#[trigger] s@[j]),
            !too_big ==> acc as int == digits_val(s@.subrange(start as int, i as int)) && acc
                <= cap as u128,
            too_big ==> digits_val(s@.subrange(start as int, i as int)) > cap,
        decreases n - i,
    {
        let c = s[i];
        let u = c as u32;
        if !(0x30 <= u && u <= 0x39) {
            proof {
                assert(body.len() == n - start);
                assert(body[i as int - start as int] == s@[i as int]);
                assert(!all_digits(body));
            }
            return (false, false, 0);
        }
        let d: u128 = (u - 0x30) as u128;
        proof {
            let t = s@.subrange(start as int, i + 1);
            assert(t.drop_last() =~= s@.subrange(start as int, i as int));
            assert(t.last() == s@[i as int]);
            assert(forall|j: int| 0 <= j < i - start ==> s@.subrange(start as int, i as int)[j]
                == s@[start + j]);
            lemma_digits_val_nonneg(s@.subrange(start as int, i as int));
        }
        if !too_big {
            let na: u128 = acc * 10 + d;
            if na <= cap as u128 {
                acc = na;
            } else {
                too_big = true;
            }
        }
        i = i + 1;
    }
    proof {
        assert(s@.subrange(start as int, n as int) =~= body);
        assert(forall|j: int| 0 <= j < body.len() ==> body[j] == s@[start + j]);
    }
    (true, too_big, acc as u64)
}

/// Whether `str::parse::<i64>` accepts the characters `s`.
pub fn is_i64_chars(s: &[char]) -> (r: bool)
    ensures
        r == is_i64_literal(s@),
{
    let n: usize = s.len();
    let neg = n > 0 && s[0] == '-';
    let start: usize = if n > 0 && (s[0] == '+' || s[0] == '-') {
        1
    } else {
        0
    };
    proof {
        if start == 1 {
            assert(strip_sign(s@) =~= s@.skip(1));
        } else {
            assert(strip_sign(s@) =~= s@.skip(0));
        }
    }
    let (all, too_big, acc) = scan_digits(s, start, 0x8000000000000000u64);
    if !all {
        return false;
    }
    if too_big {
        return false;
    }
    if neg {
        true
    } else {
        acc <= 0x7FFFFFFFFFFFFFFFu64
    }
}

/// `str::parse::<usize>` on the characters `s`: the value, or `None`
/// where the parse fails.
pub fn parse_usize_chars(s: &[char]) -> (r: Option<usize>)
    ensures
        r is Some <==> is_usize_literal(s@),
        r matches Some(v) ==> v as int == usize_literal_val(s@),
{
    let n: usize = s.len();
    let start: usize = if n > 0 && s[0] == '+' {
        1
    } else {
        0
    };
    proof {
        if start == 1 {
            assert(s@.drop_first() =~= s@.skip(1));
        } else {
            assert(s@ =~= s@.skip(0));
        }
    }
    let (all, too_big, acc) = scan_digits(s, start, usize::MAX as u64);
    if !all || too_big {
        return None;
    }
    Some(acc as usize)
}

/// Index of the first occurrence of `c1` or `c2` in `s`, or `s.len()`.
pub open spec fn spec_find2(s: Seq<char>, c1: char, c2: char) -> nat
    decreases s.len(),
{
    if s.len() == 0 {
        0
    } else if s[0] == c1 || s[0] == c2 {
        0
    } else {
        (1 + spec_find2(s.drop_first(), c1, c2)) as nat
    }
}

proof fn lemma_find2_at(s: Seq<char>, c1: char, c2: char, k: int)
    requires
        0 <= k <= s.len(),
        forall|j: int| 0 <= j < k ==> s[j] != c1 && s[j] != c2,
        k < s.len() ==> s[k] == c1 || s[k] == c2,
    ensures
        spec_find2(s, c1, c2) == k,
    decreases k,
{
    if k > 0 {
        let t = s.drop_first();
        assert(forall|j: int| 0 <= j < k - 1 ==> t[j] == s[j + 1]);
        lemma_find2_at(t, c1, c2, k - 1);
    }
}

/// A digit run, a dot with digit runs on either side, or both: the
/// mantissa part of a decimal float literal, holding at least one digit.
pub open spec fn is_mantissa(m: Seq<char>) -> bool {
    let d = spec_find(m, '.');
    if d >= m.len() {
        m.len() > 0 && all_digits(m)
    } else {
        m.len() > 1 && all_digits(m.take(d as int)) && all_digits(m.skip(d + 1 as int))
    }
}

/// An optional sign followed by at least one digit: the exponent part of
/// a decimal float literal.
pub open spec fn is_exponent_part(x: Seq<char>) -> bool {
    let body = strip_sign(x);
    body.len() > 0 && all_digits(body)
}

/// Whether `s` is a finite decimal float literal as `str::parse::<f64>`
/// accepts it: sign, mantissa, optional `e`/`E` exponent. The textual
/// forms of infinities and NaN are deliberately left out; every caller
/// also demands a `.`, which those forms cannot contain.
pub open spec fn is_float_literal(s: Seq<char>) -> bool {
    let body = strip_sign(s);
    let e = spec_find2(body, 'e', 'E');
    if e >= body.len() {
        is_mantissa(body)
    } else {
        is_mantissa(body.take(e as int)) && is_exponent_part(body.skip(e + 1 as int))
    }
}

/// Whether every character of `s` in `[lo, hi)` is a decimal digit.
fn check_digit_range(s: &[char], lo: usize, hi: usize) -> (r: bool)
    requires
        lo <= hi <= s@.len(),
    ensures
        r == all_digits(s@.subrange(lo as int, hi as int)),
{
    let mut i: usize = lo;
    while i < hi
        invariant
            lo <= i <= hi <= s@.len(),
            forall|j: int| lo <= j < i ==> is_digit_char(#[trigger] s@[j]),
        decreases hi - i,
    {
        let u = s[i] as u32;
        if !(0x30 <= u && u <= 0x39) {
            proof {
                assert(s@.subrange(lo as int, hi as int)[i as int - lo as int] == s@[i as int]);
            }
            return false;
        }
        i = i + 1;
    }
    proof {
        assert(forall|j: int| 0 <= j < hi - lo ==> s@.subrange(lo as int, hi as int)[j] == s@[
            lo + j
        ]);
    }
    true
}

/// Whether `str::parse::<f64>` accepts the characters `s` as a finite
/// decimal literal.
#[verifier::rlimit(30)]
pub fn is_float_chars(s: &[char]) -> (r: bool)
    ensures
        r == is_float_literal(s@),
{
    let n: usize = s.len();
    let start: usize = if n > 0 && (s[0] == '+' || s[0] == '-') {
        1
    } else {
        0
    };
    let ghost body = strip_sign(s@);
    proof {
        if start == 1 {
            assert(body =~= s@.skip(1));
        } else {
            assert(body =~= s@.skip(0));
        }
        assert(forall|j: int| 0 <= j < body.len() ==> body[j] == s@[start + j]);
    }
    // Position of the exponent marker, if any.
    let mut e: usize = start;
    while e < n && s[e] != 'e' && s[e] != 'E'
        invariant
            start <= e <= n,
            n == s@.len(),
            forall|j: int| start <= j < e ==> s@[j] != 'e' && s@[j] != 'E',
        decreases n - e,
    {
        e = e + 1;
    }
    proof {
        lemma_find2_at(body, 'e', 'E', e - start);
    }
    let ghost mant = body.take(e - start);
    proof {
        assert(mant =~= s@.subrange(start as int, e as int));
        if e == n {
            assert(mant =~= body);
        }
        assert(forall|j: int| 0 <= j < mant.len() ==> mant[j] == s@[start + j]);
    }
    // Position of the dot inside the mantissa, if any.
    let mut d: usize = start;
    while d < e && s[d] != '.'
        invariant
            start <= d <= e <= n,
            n == s@.len(),
            forall|j: int| start <= j < d ==> s@[j] != '.',
        decreases e - d,
    {
        d = d + 1;
    }
    proof {
        lemma_find_at(mant, '.', d - start);
    }
    let mant_ok: bool = if d == e {
        e > start && check_digit_range(s, start, e)
    } else {
        proof {
            assert(mant.take(d as int - start as int) =~= s@.subrange(start as int, d as int));
            assert(mant.skip(d as int - start as int + 1) =~= s@.subrange(d + 1, e as int));
        }
        e - start > 1 && check_digit_range(s, start, d) && check_digit_range(s, d + 1, e)
    };
    if e == n {
        return mant_ok;
    }
    // Exponent part after the marker.
    let ghost expn = body.skip(e - start + 1);
    proof {
        assert(expn =~= s@.subrange(e + 1, n as int));
        assert(forall|j: int| 0 <= j < expn.len() ==> expn[j] == s@[e + 1 + j]);
    }
    let es: usize = if e + 1 < n && (s[e + 1] == '+' || s[e + 1] == '-') {
        e + 2
    } else {
        e + 1
    };
    proof {
        if es == e + 2 {
            assert(strip_sign(expn) =~= s@.subrange(e + 2, n as int));
        } else {
            assert(strip_sign(expn) =~= s@.subrange(e + 1, n as int));
        }
    }
    let exp_ok: bool = n > es && check_digit_range(s, es, n);
    mant_ok && exp_ok
}

/// Whether `c` is an ASCII hexadecimal digit.
pub open spec fn is_hex_digit_char(c: char) -> bool {
    let u = c as u32;
    (0x30 <= u && u <= 0x39) || (0x41 <= u && u <= 0x46) || (0x61 <= u && u <= 0x66)
}

/// The value of the hexadecimal digit `c`.
pub open spec fn hex_digit_val(c: char) -> int {
    let u = c as u32;
    if 0x30 <= u && u <= 0x39 {
        u - 0x30
    } else if 0x41 <= u && u <= 0x46 {
        u - 0x41 + 10
    } else {
        u - 0x61 + 10
    }
}

/// The byte denoted by two hexadecimal digits, or 0 where either
/// character is no hexadecimal digit, as `u8::from_str_radix(_, 16)`
/// under `unwrap_or(0)` gives it.
pub open spec fn hex_pair_val(a: char, b: char) -> int {
    if is_hex_digit_char(a) && is_hex_digit_char(b) {
        16 * hex_digit_val(a) + hex_digit_val(b)
    } else {
        0
    }
}

/// The byte denoted by the hexadecimal digits `a` and `b`, or 0 where
/// either is no hexadecimal digit.
pub fn hex_pair(a: char, b: char) -> (r: u32)
    ensures
        r as int == hex_pair_val(a, b),
{
    let ua = a as u32;
    let ub = b as u32;
    let va: u32 = if 0x30 <= ua && ua <= 0x39 {
        ua - 0x30
    } else if 0x41 <= ua && ua <= 0x46 {
        ua - 0x41 + 10
    } else if 0x61 <= ua && ua <= 0x66 {
        ua - 0x61 + 10
    } else {
        0xFF
    };
    let vb: u32 = if 0x30 <= ub && ub <= 0x39 {
        ub - 0x30
    } else if 0x41 <= ub && ub <= 0x46 {
        ub - 0x41 + 10
    } else if 0x61 <= ub && ub <= 0x66 {
        ub - 0x61 + 10
    } else {
        0xFF
    };
    if va == 0xFF || vb == 0xFF {
        0
    } else {
        16 * va + vb
    }
}

} // verus!
