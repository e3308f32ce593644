//! Character-level string helpers shared by the parsers and formatters.
//!
//! Strings are modelled as their character sequences (`s@`). Every helper
//! here is stated against a small recursive spec function that reads the way
//! the corresponding `str` method is documented.

use vstd::prelude::*;
use vstd::string::*;
use vstd::std_specs::iter::IteratorSpec;

verus! {

broadcast use vstd::string::group_string_axioms;

/// `String::push` appends one character to the end of the string, as its
/// documentation says; nothing else changes.
pub assume_specification[ String::push ](s: &mut String, ch: char)
    ensures
        final(s)@ == old(s)@.push(ch),
;

/// The view of an optional string.
pub open spec fn opt_view(o: Option<String>) -> Option<Seq<char>> {
    match o {
        Some(s) => Some(s@),
        None => None,
    }
}

// ---------------------------------------------------------------------------
// Whitespace and trimming
// ---------------------------------------------------------------------------

/// Unicode `White_Space`, the property `char::is_whitespace` tests.
pub open spec fn is_whitespace(c: char) -> bool {
    let u = c as u32;
    ||| 0x09 <= u <= 0x0d
    ||| u == 0x20
    ||| u == 0x85
    ||| u == 0xa0
    ||| u == 0x1680
    ||| 0x2000 <= u <= 0x200a
    ||| u == 0x2028
    ||| u == 0x2029
    ||| u == 0x202f
    ||| u == 0x205f
    ||| u == 0x3000
}

/// `s` without its leading whitespace (`str::trim_start`).
pub open spec fn trim_start(s: Seq<char>) -> Seq<char>
    decreases s.len(),
{
    if s.len() > 0 && is_whitespace(s[0]) {
        trim_start(s.drop_first())
    } else {
        s
    }
}

/// `s` without its trailing whitespace (`str::trim_end`).
pub open spec fn trim_end(s: Seq<char>) -> Seq<char>
    decreases s.len(),
{
    if s.len() > 0 && is_whitespace(s.last()) {
        trim_end(s.drop_last())
    } else {
        s
    }
}

/// `s` without leading and trailing whitespace (`str::trim`).
pub open spec fn trim(s: Seq<char>) -> Seq<char> {
    trim_end(trim_start(s))
}

/// The longest prefix of `s` that holds no whitespace.
pub open spec fn take_until_whitespace(s: Seq<char>) -> Seq<char>
    decreases s.len(),
{
    if s.len() > 0 && !is_whitespace(s[0]) {
        seq![s[0]] + take_until_whitespace(s.drop_first())
    } else {
        Seq::empty()
    }
}

/// The first whitespace-separated word of `s`
/// (`s.split_whitespace().next()`).
pub open spec fn first_word(s: Seq<char>) -> Option<Seq<char>> {
    let r = trim_start(s);
    if r.len() == 0 {
        None
    } else {
        Some(take_until_whitespace(r))
    }
}

// ---------------------------------------------------------------------------
// Searching
// ---------------------------------------------------------------------------

/// The first index at or after `i` where `pat` occurs in `s`.
pub open spec fn find_from(s: Seq<char>, pat: Seq<char>, i: int) -> Option<int>
    decreases s.len() + 1 - i,
{
    if i < 0 || i + pat.len() > s.len() {
        None
    } else if s.subrange(i, i + pat.len()) == pat {
        Some(i)
    } else {
        find_from(s, pat, i + 1)
    }
}

/// A found index is a real occurrence, at or after the start.
pub proof fn lemma_find_from_found(s: Seq<char>, pat: Seq<char>, i: int)
    ensures
        find_from(s, pat, i) matches Some(j) ==> i <= j && j + pat.len() <= s.len()
            && s.subrange(j, j + pat.len()) == pat,
    decreases s.len() + 1 - i,
{
    if i < 0 || i + pat.len() > s.len() {
    } else if s.subrange(i, i + pat.len()) == pat {
    } else {
        lemma_find_from_found(s, pat, i + 1);
    }
}

/// `pat` occurs in `s` starting at index `k`.
pub open spec fn occurs_at(s: Seq<char>, pat: Seq<char>, k: int) -> bool {
    0 <= k && k + pat.len() <= s.len() && s.subrange(k, k + pat.len()) == pat
}

/// An occurrence at or after `i` is found, no later than it.
pub proof fn lemma_find_from_occurrence(s: Seq<char>, pat: Seq<char>, i: int, k: int)
    requires
        0 <= i <= k,
        occurs_at(s, pat, k),
    ensures
        find_from(s, pat, i) matches Some(j) && j <= k,
    decreases k - i,
{
    if s.subrange(i, i + pat.len()) != pat {
        lemma_find_from_occurrence(s, pat, i + 1, k);
    }
}

/// `contains` means exactly that `pat` occurs somewhere in `s`.
pub proof fn lemma_contains_iff_occurs(s: Seq<char>, pat: Seq<char>)
    ensures
        contains(s, pat) <==> exists|k: int| occurs_at(s, pat, k),
{
    lemma_find_from_found(s, pat, 0);
    if contains(s, pat) {
        let k = find(s, pat)->0;
        assert(occurs_at(s, pat, k));
    }
    if exists|k: int| occurs_at(s, pat, k) {
        let k = choose|k: int| occurs_at(s, pat, k);
        lemma_find_from_occurrence(s, pat, 0, k);
    }
}

/// The first index where `pat` occurs in `s` (`str::find`, counted in characters).
pub open spec fn find(s: Seq<char>, pat: Seq<char>) -> Option<int> {
    find_from(s, pat, 0)
}

/// `pat` occurs somewhere in `s` (`str::contains`).
pub open spec fn contains(s: Seq<char>, pat: Seq<char>) -> bool {
    find(s, pat) is Some
}

/// `s` begins with `p` (`str::starts_with`).
pub open spec fn starts_with(s: Seq<char>, p: Seq<char>) -> bool {
    p.len() <= s.len() && s.take(p.len() as int) == p
}

// ---------------------------------------------------------------------------
// UTF-8 widths
// ---------------------------------------------------------------------------

/// Number of bytes of the UTF-8 encoding of `c` (`char::len_utf8`).
pub open spec fn utf8_width(c: char) -> nat {
    let u = c as u32;
    if u < 0x80 {
        1
    } else if u < 0x800 {
        2
    } else if u < 0x10000 {
        3
    } else {
        4
    }
}

/// Number of bytes of the UTF-8 encoding of `s` (`str::len`).
pub open spec fn byte_len(s: Seq<char>) -> nat
    decreases s.len(),
{
    if s.len() == 0 {
        0
    } else {
        utf8_width(s[0]) + byte_len(s.drop_first())
    }
}

/// The suffix of `s` that is left after dropping leading characters until at
/// most `m` bytes remain.
pub open spec fn suffix_within(s: Seq<char>, m: nat) -> Seq<char>
    decreases s.len(),
{
    if s.len() > 0 && byte_len(s) > m {
        suffix_within(s.drop_first(), m)
    } else {
        s
    }
}

// ---------------------------------------------------------------------------
// Number formatting
// ---------------------------------------------------------------------------

/// The ASCII digit for `d < 10`.
pub open spec fn digit_char(d: nat) -> char {
    (('0' as u32) + d) as char
}

/// The decimal representation of `n`, without leading zeros (`"0"` for zero).
pub open spec fn decimal(n: nat) -> Seq<char>
    decreases n,
{
    if n < 10 {
        seq![digit_char(n)]
    } else {
        decimal(n / 10).push(digit_char(n % 10))
    }
}

/// The lowercase hexadecimal digit for `d < 16`.
pub open spec fn hex_digit(d: nat) -> char {
    if d < 10 {
        digit_char(d)
    } else {
        (('a' as u32) + (d - 10)) as char
    }
}

// ---------------------------------------------------------------------------
// Executable helpers
// ---------------------------------------------------------------------------

/// The characters of `s`, in order.
pub fn chars_of(s: &str) -> (v: Vec<char>)
    ensures
        v@ == s@,
{
    let mut v: Vec<char> = Vec::new();
    let mut it = s.chars();
    loop
        invariant
            it.remaining() == s@.skip(v@.len() as int),
            v@ == s@.take(v@.len() as int),
            v@.len() <= s@.len(),
            it.obeys_prophetic_iter_laws(),
        ensures
            v@ == s@,
        decreases s@.len() - v@.len(),
    {
        match it.next() {
            Some(c) => {
                v.push(c);
            },
            None => {
                assert(v@ =~= s@);
                break;
            },
        }
    }
    v
}

/// Appends the characters `v[lo..hi]` to `out`.
pub fn push_range(out: &mut String, v: &Vec<char>, lo: usize, hi: usize)
    requires
        lo <= hi <= v@.len(),
    ensures
        final(out)@ == old(out)@ + v@.subrange(lo as int, hi as int),
{
    let mut i = lo;
    while i < hi
        invariant
            lo <= i <= hi <= v@.len(),
            out@ == old(out)@ + v@.subrange(lo as int, i as int),
        decreases hi - i,
    {
        out.push(v[i]);
        proof {
            assert(v@.subrange(lo as int, i + 1) =~= v@.subrange(lo as int, i as int).push(v@[i as int]));
        }
        i = i + 1;
    }
}

/// Appends `s` to `out`.
pub fn push_str(out: &mut String, s: &str)
    ensures
        final(out)@ == old(out)@ + s@,
{
    let v = chars_of(s);
    push_range(out, &v, 0, v.len());
    proof {
        assert(v@.subrange(0, v@.len() as int) =~= v@);
    }
}

/// A new `String` holding `v[lo..hi]`.
pub fn string_of_range(v: &Vec<char>, lo: usize, hi: usize) -> (s: String)
    requires
        lo <= hi <= v@.len(),
    ensures
        s@ == v@.subrange(lo as int, hi as int),
{
    let mut s = String::new();
    push_range(&mut s, v, lo, hi);
    proof {
        assert(s@ =~= v@.subrange(lo as int, hi as int));
    }
    s
}

/// Whether `c` is whitespace (`char::is_whitespace`).
pub fn char_is_whitespace(c: char) -> (b: bool)
    ensures
        b == is_whitespace(c),
{
    let u = c as u32;
    (0x09 <= u && u <= 0x0d) || u == 0x20 || u == 0x85 || u == 0xa0 || u == 0x1680 || (0x2000
        <= u && u <= 0x200a) || u == 0x2028 || u == 0x2029 || u == 0x202f || u == 0x205f || u
        == 0x3000
}

/// The first index in `lo..hi` that is not whitespace (or `hi`):
/// `v[r..hi]` is `v[lo..hi]` with its leading whitespace removed.
pub fn skip_whitespace(v: &Vec<char>, lo: usize, hi: usize) -> (r: usize)
    requires
        lo <= hi <= v@.len(),
    ensures
        lo <= r <= hi,
        trim_start(v@.subrange(lo as int, hi as int)) == v@.subrange(r as int, hi as int),
{
    let mut i = lo;
    while i < hi && char_is_whitespace(v[i])
        invariant
            lo <= i <= hi <= v@.len(),
            trim_start(v@.subrange(lo as int, hi as int)) == trim_start(
                v@.subrange(i as int, hi as int),
            ),
        decreases hi - i,
    {
        proof {
            let sub = v@.subrange(i as int, hi as int);
            assert(sub.drop_first() =~= v@.subrange(i + 1, hi as int));
            assert(sub[0] == v@[i as int]);
        }
        i = i + 1;
    }
    proof {
        let sub = v@.subrange(i as int, hi as int);
        if i < hi {
            assert(sub[0] == v@[i as int]);
        }
    }
    i
}

/// The last non-whitespace boundary in `lo..hi`: `v[lo..r]` is `v[lo..hi]`
/// with its trailing whitespace removed.
pub fn trim_end_index(v: &Vec<char>, lo: usize, hi: usize) -> (r: usize)
    requires
        lo <= hi <= v@.len(),
    ensures
        lo <= r <= hi,
        trim_end(v@.subrange(lo as int, hi as int)) == v@.subrange(lo as int, r as int),
{
    let mut j = hi;
    while j > lo && char_is_whitespace(v[j - 1])
        invariant
            lo <= j <= hi <= v@.len(),
            trim_end(v@.subrange(lo as int, hi as int)) == trim_end(
                v@.subrange(lo as int, j as int),
            ),
        decreases j - lo,
    {
        proof {
            let sub = v@.subrange(lo as int, j as int);
            assert(sub.drop_last() =~= v@.subrange(lo as int, j - 1));
            assert(sub.last() == v@[j - 1]);
        }
        j = j - 1;
    }
    proof {
        let sub = v@.subrange(lo as int, j as int);
        if j > lo {
            assert(sub.last() == v@[j - 1]);
        }
    }
    j
}

/// The bounds `(a, b)` of `trim(v[lo..hi])` inside `v`.
pub fn trim_bounds(v: &Vec<char>, lo: usize, hi: usize) -> (r: (usize, usize))
    requires
        lo <= hi <= v@.len(),
    ensures
        lo <= r.0 <= r.1 <= hi,
        trim(v@.subrange(lo as int, hi as int)) == v@.subrange(r.0 as int, r.1 as int),
{
    let a = skip_whitespace(v, lo, hi);
    let b = trim_end_index(v, a, hi);
    (a, b)
}

/// The end of the run of non-whitespace characters that starts at `lo`.
pub fn word_end(v: &Vec<char>, lo: usize) -> (r: usize)
    requires
        lo <= v@.len(),
    ensures
        lo <= r <= v@.len(),
        take_until_whitespace(v@.subrange(lo as int, v@.len() as int)) == v@.subrange(
            lo as int,
            r as int,
        ),
{
    let n = v.len();
    let mut k = lo;
    while k < n && !char_is_whitespace(v[k])
        invariant
            lo <= k <= n == v@.len(),
            take_until_whitespace(v@.subrange(lo as int, n as int)) == v@.subrange(lo as int, k as int)
                + take_until_whitespace(v@.subrange(k as int, n as int)),
        decreases n - k,
    {
        proof {
            let sub = v@.subrange(k as int, n as int);
            assert(sub.drop_first() =~= v@.subrange(k + 1, n as int));
            assert(sub[0] == v@[k as int]);
            assert(v@.subrange(lo as int, k + 1) =~= v@.subrange(lo as int, k as int) + seq![
                v@[k as int],
            ]);
            assert(v@.subrange(lo as int, k as int) + (seq![v@[k as int]] + take_until_whitespace(
                v@.subrange(k + 1, n as int),
            )) =~= v@.subrange(lo as int, k + 1) + take_until_whitespace(
                v@.subrange(k + 1, n as int),
            ));
        }
        k = k + 1;
    }
    proof {
        let sub = v@.subrange(k as int, n as int);
        if k < n {
            assert(sub[0] == v@[k as int]);
        }
        assert(take_until_whitespace(sub) =~= Seq::<char>::empty());
        assert(v@.subrange(lo as int, k as int) + Seq::<char>::empty() =~= v@.subrange(
            lo as int,
            k as int,
        ));
    }
    k
}

/// Whether `pat` occurs in `v` at index `i`.
pub fn occurs_at_exec(v: &Vec<char>, pat: &Vec<char>, i: usize) -> (b: bool)
    requires
        i + pat@.len() <= v@.len(),
    ensures
        b == (v@.subrange(i as int, i + pat@.len()) == pat@),
{
    let m = pat.len();
    let n = v.len();
    let mut j: usize = 0;
    while j < m
        invariant
            j <= m == pat@.len(),
            n == v@.len(),
            i + m <= n,
            forall|t: int| 0 <= t < j ==> v@[i + t] == pat@[t],
        decreases m - j,
    {
        if v[i + j] != pat[j] {
            proof {
                assert(v@.subrange(i as int, i + m)[j as int] != pat@[j as int]);
            }
            return false;
        }
        j = j + 1;
    }
    proof {
        assert(v@.subrange(i as int, i + m) =~= pat@);
    }
    true
}

/// The first index at or after `from` where `pat` occurs in `v`.
pub fn find_from_exec(v: &Vec<char>, pat: &Vec<char>, from: usize) -> (r: Option<usize>)
    requires
        from <= v@.len(),
    ensures
        match r {
            Some(i) => find_from(v@, pat@, from as int) == Some(i as int) && from <= i && i
                + pat@.len() <= v@.len() && v@.subrange(i as int, i + pat@.len()) == pat@,
            None => find_from(v@, pat@, from as int) is None,
        },
{
    proof {
        lemma_find_from_found(v@, pat@, from as int);
    }
    let n = v.len();
    let m = pat.len();
    if m > n {
        return None;
    }
    if m == 0 {
        proof {
            assert(v@.subrange(from as int, from as int) =~= pat@);
        }
        return Some(from);
    }
    let mut i = from;
    while i <= n - m
        invariant
            from <= i,
            n == v@.len(),
            m == pat@.len(),
            1 <= m <= n,
            find_from(v@, pat@, from as int) == find_from(v@, pat@, i as int),
        decreases n - i,
    {
        if occurs_at_exec(v, pat, i) {
            return Some(i);
        }
        i = i + 1;
    }
    None
}

/// Whether `v` begins with `p`.
pub fn starts_with_exec(v: &Vec<char>, p: &Vec<char>) -> (b: bool)
    ensures
        b == starts_with(v@, p@),
{
    if p.len() > v.len() {
        return false;
    }
    let b = occurs_at_exec(v, p, 0);
    proof {
        assert(v@.subrange(0, p@.len() as int) =~= v@.take(p@.len() as int));
    }
    b
}

/// Whether `pat` occurs in `s` (`str::contains`).
pub fn str_contains(s: &str, pat: &str) -> (b: bool)
    ensures
        b == contains(s@, pat@),
{
    let v = chars_of(s);
    let p = chars_of(pat);
    find_from_exec(&v, &p, 0).is_some()
}

/// Number of bytes of the UTF-8 encoding of `c`.
pub fn char_width(c: char) -> (w: u8)
    ensures
        w == utf8_width(c),
{
    let u = c as u32;
    if u < 0x80 {
        1
    } else if u < 0x800 {
        2
    } else if u < 0x10000 {
        3
    } else {
        4
    }
}

/// The decimal representation of `n`.
pub fn decimal_string(n: u64) -> (s: String)
    ensures
        s@ == decimal(n as nat),
    decreases n,
{
    let c = char_from_digit(n % 10);
    if n < 10 {
        let mut s = String::new();
        s.push(c);
        proof {
            assert(s@ =~= decimal(n as nat));
        }
        s
    } else {
        let mut s = decimal_string(n / 10);
        s.push(c);
        proof {
            lemma_decimal_step(n);
        }
        s
    }
}

proof fn lemma_decimal_step(m: u64)
    requires
        m >= 10,
    ensures
        decimal(m as nat) == decimal((m / 10) as nat).push(digit_char((m % 10) as nat)),
{
    assert((m as nat) / 10 == (m / 10) as nat);
    assert((m as nat) % 10 == (m % 10) as nat);
}

/// The lowercase hexadecimal digit for `d < 16`.
pub fn char_from_hex_digit(d: u32) -> (c: char)
    requires
        d < 16,
    ensures
        c == hex_digit(d as nat),
{
    if d < 10 {
        char_from_digit(d as u64)
    } else if d == 10 {
        'a'
    } else if d == 11 {
        'b'
    } else if d == 12 {
        'c'
    } else if d == 13 {
        'd'
    } else if d == 14 {
        'e'
    } else {
        'f'
    }
}

/// The ASCII digit for `d < 10`.
pub fn char_from_digit(d: u64) -> (c: char)
    requires
        d < 10,
    ensures
        c == digit_char(d as nat),
{
    if d == 0 {
        '0'
    } else if d == 1 {
        '1'
    } else if d == 2 {
        '2'
    } else if d == 3 {
        '3'
    } else if d == 4 {
        '4'
    } else if d == 5 {
        '5'
    } else if d == 6 {
        '6'
    } else if d == 7 {
        '7'
    } else if d == 8 {
        '8'
    } else {
        '9'
    }
}

} // verus!
