//! Where to look for Node.js and npm. The caller probes the file system for
//! each candidate in order; this module decides the candidates and their
//! order.

use vstd::prelude::*;
use vstd::string::*;

use crate::paths::{Platform, is_relative_name, join_path, spec_join};
use crate::text::{chars_of, opt_view, starts_with, starts_with_exec, string_of_range};

verus! {

broadcast use {vstd::string::group_string_axioms, vstd::seq_lib::group_to_multiset_ensures};

/// The node executable and the npm entry point that goes with it.
pub struct NodeEnv {
    /// Path to the node executable.
    pub node: String,
    /// npm entry point. On Windows this is npm-cli.js (invoked as
    /// `node <npm-cli.js>`); on Unix it is the `npm` command (invoked directly).
    pub npm_cli: String,
}

/// The views of a sequence of strings.
pub open spec fn views(v: Seq<String>) -> Seq<Seq<char>> {
    v.map_values(|s: String| s@)
}

// ---------------------------------------------------------------------------
// PATH splitting
// ---------------------------------------------------------------------------

/// Unix `split_paths`: the pieces of `s` between `:` separators, empty ones
/// included; `cur` is the piece being read at index `i`.
pub open spec fn unix_split_from(s: Seq<char>, i: int, cur: Seq<char>) -> Seq<Seq<char>>
    decreases s.len() - i,
{
    if i >= s.len() || i < 0 {
        seq![cur]
    } else if s[i] == ':' {
        seq![cur] + unix_split_from(s, i + 1, Seq::empty())
    } else {
        unix_split_from(s, i + 1, cur.push(s[i]))
    }
}

/// Windows `split_paths`: pieces separated by `;` outside double quotes, the
/// quotes themselves dropped. Like std's iterator, an empty piece that does
/// not follow a `;` ends the list (`must_yield` records that the previous
/// piece ended at a `;`).
pub open spec fn windows_split_from(
    s: Seq<char>,
    i: int,
    cur: Seq<char>,
    in_quote: bool,
    must_yield: bool,
) -> Seq<Seq<char>>
    decreases s.len() - i,
{
    if i >= s.len() || i < 0 {
        if !must_yield && cur.len() == 0 {
            Seq::empty()
        } else {
            seq![cur]
        }
    } else if s[i] == '"' {
        windows_split_from(s, i + 1, cur, !in_quote, must_yield)
    } else if s[i] == ';' && !in_quote {
        if !must_yield && cur.len() == 0 {
            Seq::empty()
        } else {
            seq![cur] + windows_split_from(s, i + 1, Seq::empty(), false, true)
        }
    } else {
        windows_split_from(s, i + 1, cur.push(s[i]), in_quote, must_yield)
    }
}

/// `std::env::split_paths` on platform `p`.
pub open spec fn spec_split_paths(p: Platform, s: Seq<char>) -> Seq<Seq<char>> {
    if p == Platform::Windows {
        windows_split_from(s, 0, Seq::empty(), false, false)
    } else {
        unix_split_from(s, 0, Seq::empty())
    }
}

/// `parts` joined with `sep` between neighbours.
pub open spec fn join_with(parts: Seq<Seq<char>>, sep: char) -> Seq<char>
    decreases parts.len(),
{
    if parts.len() == 0 {
        Seq::empty()
    } else if parts.len() == 1 {
        parts[0]
    } else {
        parts[0] + seq![sep] + join_with(parts.drop_first(), sep)
    }
}

proof fn lemma_unix_split_round_trip(s: Seq<char>, i: int, cur: Seq<char>)
    requires
        0 <= i <= s.len(),
    ensures
        join_with(unix_split_from(s, i, cur), ':') == cur + s.skip(i),
        unix_split_from(s, i, cur).len() >= 1,
    decreases s.len() - i,
{
    if i >= s.len() {
        assert(cur + s.skip(i) =~= cur);
    } else if s[i] == ':' {
        lemma_unix_split_round_trip(s, i + 1, Seq::empty());
        let rest = unix_split_from(s, i + 1, Seq::empty());
        assert((seq![cur] + rest).drop_first() =~= rest);
        assert((seq![cur] + rest)[0] == cur);
        assert(Seq::<char>::empty() + s.skip(i + 1) =~= s.skip(i + 1));
        assert(cur + seq![':'] + s.skip(i + 1) =~= cur + s.skip(i));
    } else {
        lemma_unix_split_round_trip(s, i + 1, cur.push(s[i]));
        assert(cur.push(s[i]) + s.skip(i + 1) =~= cur + s.skip(i));
    }
}

/// On Unix, splitting `PATH` loses nothing: joining the pieces with `:`
/// gives back the original value.
pub proof fn law_unix_split_round_trip(p: Platform, s: Seq<char>)
    requires
        p != Platform::Windows,
    ensures
        join_with(spec_split_paths(p, s), ':') == s,
{
    lemma_unix_split_round_trip(s, 0, Seq::empty());
    assert(Seq::<char>::empty() + s.skip(0) =~= s);
}

/// No piece holds a double quote.
pub open spec fn quote_free(pieces: Seq<Seq<char>>) -> bool {
    forall|k: int, j: int|
        0 <= k < pieces.len() && 0 <= j < pieces[k].len() ==> #[trigger] pieces[k][j] != '"'
}

proof fn lemma_windows_split_drops_quotes(
    s: Seq<char>,
    i: int,
    cur: Seq<char>,
    in_quote: bool,
    must_yield: bool,
)
    requires
        0 <= i <= s.len(),
        forall|j: int| 0 <= j < cur.len() ==> #[trigger] cur[j] != '"',
    ensures
        quote_free(windows_split_from(s, i, cur, in_quote, must_yield)),
    decreases s.len() - i,
{
    let r = windows_split_from(s, i, cur, in_quote, must_yield);
    if i >= s.len() {
    } else if s[i] == '"' {
        lemma_windows_split_drops_quotes(s, i + 1, cur, !in_quote, must_yield);
    } else if s[i] == ';' && !in_quote {
        if !must_yield && cur.len() == 0 {
        } else {
            lemma_windows_split_drops_quotes(s, i + 1, Seq::empty(), false, true);
            let rest = windows_split_from(s, i + 1, Seq::empty(), false, true);
            assert forall|k: int, j: int| 0 <= k < r.len() && 0 <= j < r[k].len() implies #[trigger] r[k][j]
                != '"' by {
                if k > 0 {
                    assert(r[k] == rest[k - 1]);
                }
            }
        }
    } else {
        let next = cur.push(s[i]);
        assert forall|j: int| 0 <= j < next.len() implies #[trigger] next[j] != '"' by {
            if j < cur.len() {
                assert(next[j] == cur[j]);
            }
        }
        lemma_windows_split_drops_quotes(s, i + 1, next, in_quote, must_yield);
    }
}

/// On Windows, the quotes that protect semicolons inside a directory never
/// end up in the directories themselves.
pub proof fn law_windows_split_drops_quotes(s: Seq<char>)
    ensures
        quote_free(spec_split_paths(Platform::Windows, s)),
{
    lemma_windows_split_drops_quotes(s, 0, Seq::empty(), false, false);
}

/// Split a `PATH` value into its directories.
pub fn split_paths(p: Platform, path_var: &str) -> (r: Vec<String>)
    ensures
        views(r@) == spec_split_paths(p, path_var@),
{
    let v = chars_of(path_var);
    let n = v.len();
    let mut out: Vec<String> = Vec::new();
    let mut cur: Vec<char> = Vec::new();
    let mut i: usize = 0;
    proof {
        assert(views(out@) =~= Seq::<Seq<char>>::empty());
    }
    if p == Platform::Windows {
        let mut in_quote = false;
        let mut must_yield = false;
        while i < n
            invariant
                n == v@.len(),
                i <= n,
                views(out@) + windows_split_from(v@, i as int, cur@, in_quote, must_yield)
                    == spec_split_paths(p, path_var@),
                p == Platform::Windows,
            decreases n - i,
        {
            let c = v[i];
            if c == '"' {
                in_quote = !in_quote;
            } else if c == ';' && !in_quote {
                if !must_yield && cur.len() == 0 {
                    proof {
                        assert(views(out@) + Seq::<Seq<char>>::empty() =~= views(out@));
                    }
                    return out;
                }
                let ghost old_out = out@;
                let piece = string_of_range(&cur, 0, cur.len());
                proof {
                    assert(cur@.subrange(0, cur@.len() as int) =~= cur@);
                }
                out.push(piece);
                cur = Vec::new();
                must_yield = true;
                in_quote = false;
                proof {
                    assert(views(out@) =~= views(old_out) + seq![piece@]);
                    assert(cur@ =~= Seq::<char>::empty());
                    assert(views(old_out) + (seq![piece@] + windows_split_from(v@, i + 1, cur@, false, true))
                        =~= views(out@) + windows_split_from(v@, i + 1, cur@, false, true));
                }
            } else {
                cur.push(c);
            }
            i = i + 1;
        }
        if !must_yield && cur.len() == 0 {
            proof {
                assert(views(out@) + Seq::<Seq<char>>::empty() =~= views(out@));
            }
            out
        } else {
            let ghost old_out = out@;
            let piece = string_of_range(&cur, 0, cur.len());
            proof {
                assert(cur@.subrange(0, cur@.len() as int) =~= cur@);
            }
            out.push(piece);
            proof {
                assert(views(out@) =~= views(old_out) + seq![piece@]);
            }
            out
        }
    } else {
        while i < n
            invariant
                n == v@.len(),
                i <= n,
                views(out@) + unix_split_from(v@, i as int, cur@) == spec_split_paths(p, path_var@),
                p != Platform::Windows,
            decreases n - i,
        {
            let c = v[i];
            if c == ':' {
                let ghost old_out = out@;
                let piece = string_of_range(&cur, 0, cur.len());
                proof {
                    assert(cur@.subrange(0, cur@.len() as int) =~= cur@);
                }
                out.push(piece);
                cur = Vec::new();
                proof {
                    assert(views(out@) =~= views(old_out) + seq![piece@]);
                    assert(cur@ =~= Seq::<char>::empty());
                    assert(views(old_out) + (seq![piece@] + unix_split_from(v@, i + 1, cur@))
                        =~= views(out@) + unix_split_from(v@, i + 1, cur@));
                }
            } else {
                cur.push(c);
            }
            i = i + 1;
        }
        let ghost old_out = out@;
        let piece = string_of_range(&cur, 0, cur.len());
        proof {
            assert(cur@.subrange(0, cur@.len() as int) =~= cur@);
        }
        out.push(piece);
        proof {
            assert(views(out@) =~= views(old_out) + seq![piece@]);
        }
        out
    }
}

// ---------------------------------------------------------------------------
// Ordering of nvm's version directories
// ---------------------------------------------------------------------------

/// `a` sorts strictly before `b`: lexicographic by code point, which for
/// UTF-8 text is the byte order that `OsString` sorts by.
pub open spec fn lex_lt(a: Seq<char>, b: Seq<char>) -> bool
    decreases a.len(),
{
    if a.len() == 0 {
        b.len() > 0
    } else if b.len() == 0 {
        false
    } else if a[0] < b[0] {
        true
    } else if a[0] == b[0] {
        lex_lt(a.drop_first(), b.drop_first())
    } else {
        false
    }
}

/// `a` may come before `b` when newer versions come first.
pub open spec fn desc_leq(a: Seq<char>, b: Seq<char>) -> bool {
    !older(a, b)
}

/// `s` is `items` arranged from the newest to the oldest.
pub open spec fn is_descending_arrangement(s: Seq<Seq<char>>, items: Seq<Seq<char>>) -> bool {
    &&& vstd::relations::sorted_by(s, |a: Seq<char>, b: Seq<char>| desc_leq(a, b))
    &&& s.to_multiset() == items.to_multiset()
}

proof fn lemma_lex_irreflexive(a: Seq<char>)
    ensures
        !lex_lt(a, a),
    decreases a.len(),
{
    if a.len() > 0 {
        lemma_lex_irreflexive(a.drop_first());
    }
}

proof fn lemma_lex_asymmetric(a: Seq<char>, b: Seq<char>)
    ensures
        lex_lt(a, b) ==> !lex_lt(b, a),
    decreases a.len(),
{
    if a.len() > 0 && b.len() > 0 && a[0] == b[0] {
        lemma_lex_asymmetric(a.drop_first(), b.drop_first());
    }
}

proof fn lemma_lex_transitive(a: Seq<char>, b: Seq<char>, c: Seq<char>)
    ensures
        lex_lt(a, b) && lex_lt(b, c) ==> lex_lt(a, c),
    decreases a.len(),
{
    if a.len() > 0 && b.len() > 0 && c.len() > 0 && a[0] == b[0] && b[0] == c[0] {
        lemma_lex_transitive(a.drop_first(), b.drop_first(), c.drop_first());
    }
}

proof fn lemma_lex_total(a: Seq<char>, b: Seq<char>)
    ensures
        a == b || lex_lt(a, b) || lex_lt(b, a),
    decreases a.len(),
{
    if a.len() > 0 && b.len() > 0 && a[0] == b[0] {
        lemma_lex_total(a.drop_first(), b.drop_first());
        if a.drop_first() == b.drop_first() {
            assert(a =~= seq![a[0]] + a.drop_first());
            assert(b =~= seq![b[0]] + b.drop_first());
        }
    } else if a.len() == 0 && b.len() == 0 {
        assert(a =~= b);
    }
}

/// Descending order is a total order, so the arrangement is unique.
pub proof fn lemma_desc_leq_total_ordering()
    ensures
        vstd::relations::total_ordering(|a: Seq<char>, b: Seq<char>| desc_leq(a, b)),
{
    let r = |a: Seq<char>, b: Seq<char>| desc_leq(a, b);
    assert forall|x: Seq<char>| #[trigger] r(x, x) by {
        lemma_older_irreflexive(x);
    }
    assert forall|x: Seq<char>, y: Seq<char>| #[trigger] r(x, y) && #[trigger] r(y, x) implies x
        == y by {
        lemma_older_total(x, y);
    }
    assert forall|x: Seq<char>, y: Seq<char>, z: Seq<char>| #[trigger] r(x, y) && #[trigger] r(
        y,
        z,
    ) implies r(x, z) by {
        lemma_older_total(x, y);
        lemma_older_total(y, z);
        lemma_older_transitive(z, y, x);
        lemma_older_asymmetric(x, z);
    }
    assert forall|x: Seq<char>, y: Seq<char>| #[trigger] r(x, y) || #[trigger] r(y, x) by {
        lemma_older_asymmetric(x, y);
    }
}

/// In a newest-first arrangement, no name is followed by a newer version.
pub proof fn law_newer_versions_first(s: Seq<Seq<char>>, items: Seq<Seq<char>>, i: int, j: int)
    requires
        is_descending_arrangement(s, items),
        0 <= i < j < s.len(),
    ensures
        !older(s[i], s[j]),
{
    let leq = |a: Seq<char>, b: Seq<char>| desc_leq(a, b);
    assert(leq(s[i], s[j]));
}

/// The descending arrangement of a collection of names is unique.
pub proof fn law_descending_arrangement_unique(
    s: Seq<Seq<char>>,
    t: Seq<Seq<char>>,
    items: Seq<Seq<char>>,
)
    requires
        is_descending_arrangement(s, items),
        is_descending_arrangement(t, items),
    ensures
        s == t,
{
    lemma_desc_leq_total_ordering();
    vstd::seq_lib::lemma_sorted_unique(s, t, |a: Seq<char>, b: Seq<char>| desc_leq(a, b));
}

/// Whether `a` sorts strictly before `b`.
pub fn lex_less(a: &Vec<char>, b: &Vec<char>) -> (r: bool)
    ensures
        r == lex_lt(a@, b@),
{
    let n = a.len();
    let m = b.len();
    let mut i: usize = 0;
    proof {
        assert(a@.skip(0) =~= a@);
        assert(b@.skip(0) =~= b@);
    }
    while i < n && i < m && a[i] == b[i]
        invariant
            i <= n == a@.len(),
            i <= m == b@.len(),
            lex_lt(a@, b@) == lex_lt(a@.skip(i as int), b@.skip(i as int)),
        decreases n - i,
    {
        proof {
            let sa = a@.skip(i as int);
            let sb = b@.skip(i as int);
            assert(sa.drop_first() =~= a@.skip(i + 1));
            assert(sb.drop_first() =~= b@.skip(i + 1));
            assert(sa[0] == a@[i as int]);
            assert(sb[0] == b@[i as int]);
        }
        i = i + 1;
    }
    let sa = Ghost(a@.skip(i as int));
    let sb = Ghost(b@.skip(i as int));
    if i == n {
        proof {
            assert(sa@.len() == 0);
        }
        i < m
    } else if i == m {
        false
    } else {
        proof {
            assert(sa@[0] == a@[i as int]);
            assert(sb@[0] == b@[i as int]);
        }
        a[i] < b[i]
    }
}

/// Whether `c` is an ASCII digit.
pub open spec fn is_digit(c: char) -> bool {
    '0' <= c && c <= '9'
}

/// The value of a group of decimal digits.
pub open spec fn digits_value(g: Seq<char>) -> nat
    decreases g.len(),
{
    if g.len() == 0 {
        0
    } else {
        digits_value(g.drop_last()) * 10 + ((g.last() as int) - ('0' as int)) as nat
    }
}

/// `10` to the power `n`.
pub open spec fn pow10(n: nat) -> nat
    decreases n,
{
    if n == 0 {
        1
    } else {
        10 * pow10((n - 1) as nat)
    }
}

/// The most digits a version component may have (so that it fits in `u64`).
pub open spec fn max_group_digits() -> nat {
    18
}

/// A finished component: one to eighteen digits.
pub open spec fn group_ok(g: Seq<char>) -> bool {
    1 <= g.len() <= max_group_digits()
}

/// The numeric components of `s[i..]`, where `cur` holds the digits of the
/// component being read: dot-separated groups of digits, or `None` when
/// anything else occurs or a group is empty or too long.
pub open spec fn version_groups(s: Seq<char>, i: int, cur: Seq<char>) -> Option<Seq<u64>>
    decreases s.len() - i,
{
    if i >= s.len() || i < 0 {
        if group_ok(cur) {
            Some(seq![digits_value(cur) as u64])
        } else {
            None
        }
    } else if s[i] == '.' {
        if group_ok(cur) {
            match version_groups(s, i + 1, Seq::empty()) {
                Some(r) => Some(seq![digits_value(cur) as u64] + r),
                None => None,
            }
        } else {
            None
        }
    } else if is_digit(s[i]) {
        version_groups(s, i + 1, cur.push(s[i]))
    } else {
        None
    }
}

/// The version numbers in an nvm directory name `v<n>.<n>…` (for example
/// `v20.10.0` gives 20, 10, 0), or `None` for a name of another form.
pub open spec fn version_parts(name: Seq<char>) -> Option<Seq<u64>> {
    if name.len() > 0 && name[0] == 'v' {
        version_groups(name, 1, Seq::empty())
    } else {
        None
    }
}

/// Component-wise numeric order of version numbers (a prefix comes first).
pub open spec fn parts_lt(a: Seq<u64>, b: Seq<u64>) -> bool
    decreases a.len(),
{
    if a.len() == 0 {
        b.len() > 0
    } else if b.len() == 0 {
        false
    } else if a[0] < b[0] {
        true
    } else if a[0] == b[0] {
        parts_lt(a.drop_first(), b.drop_first())
    } else {
        false
    }
}

/// `a` is an older nvm version directory than `b`: versions compare by
/// their numbers (`v9.11.2` is older than `v20.10.0`), equal numbers by
/// their text; names that are not versions count as older than any version
/// and compare by their text.
pub open spec fn older(a: Seq<char>, b: Seq<char>) -> bool {
    match (version_parts(a), version_parts(b)) {
        (Some(x), Some(y)) => parts_lt(x, y) || (x == y && lex_lt(a, b)),
        (None, Some(_)) => true,
        (Some(_), None) => false,
        (None, None) => lex_lt(a, b),
    }
}

proof fn lemma_parts_irreflexive(a: Seq<u64>)
    ensures
        !parts_lt(a, a),
    decreases a.len(),
{
    if a.len() > 0 {
        lemma_parts_irreflexive(a.drop_first());
    }
}

proof fn lemma_parts_asymmetric(a: Seq<u64>, b: Seq<u64>)
    ensures
        parts_lt(a, b) ==> !parts_lt(b, a),
    decreases a.len(),
{
    if a.len() > 0 && b.len() > 0 && a[0] == b[0] {
        lemma_parts_asymmetric(a.drop_first(), b.drop_first());
    }
}

proof fn lemma_parts_transitive(a: Seq<u64>, b: Seq<u64>, c: Seq<u64>)
    ensures
        parts_lt(a, b) && parts_lt(b, c) ==> parts_lt(a, c),
    decreases a.len(),
{
    if a.len() > 0 && b.len() > 0 && c.len() > 0 && a[0] == b[0] && b[0] == c[0] {
        lemma_parts_transitive(a.drop_first(), b.drop_first(), c.drop_first());
    }
}

proof fn lemma_parts_total(a: Seq<u64>, b: Seq<u64>)
    ensures
        a == b || parts_lt(a, b) || parts_lt(b, a),
    decreases a.len(),
{
    if a.len() > 0 && b.len() > 0 && a[0] == b[0] {
        lemma_parts_total(a.drop_first(), b.drop_first());
        if a.drop_first() == b.drop_first() {
            assert(a =~= seq![a[0]] + a.drop_first());
            assert(b =~= seq![b[0]] + b.drop_first());
        }
    } else if a.len() == 0 && b.len() == 0 {
        assert(a =~= b);
    }
}

proof fn lemma_older_irreflexive(a: Seq<char>)
    ensures
        !older(a, a),
{
    lemma_lex_irreflexive(a);
    if let Some(x) = version_parts(a) {
        lemma_parts_irreflexive(x);
    }
}

proof fn lemma_older_asymmetric(a: Seq<char>, b: Seq<char>)
    ensures
        older(a, b) ==> !older(b, a),
{
    lemma_lex_asymmetric(a, b);
    if let (Some(x), Some(y)) = (version_parts(a), version_parts(b)) {
        lemma_parts_asymmetric(x, y);
        lemma_parts_irreflexive(x);
    }
}

proof fn lemma_older_transitive(a: Seq<char>, b: Seq<char>, c: Seq<char>)
    ensures
        older(a, b) && older(b, c) ==> older(a, c),
{
    lemma_lex_transitive(a, b, c);
    if let (Some(x), Some(y), Some(z)) = (version_parts(a), version_parts(b), version_parts(c)) {
        lemma_parts_transitive(x, y, z);
    }
}

proof fn lemma_older_total(a: Seq<char>, b: Seq<char>)
    ensures
        a == b || older(a, b) || older(b, a),
{
    lemma_lex_total(a, b);
    if let (Some(x), Some(y)) = (version_parts(a), version_parts(b)) {
        lemma_parts_total(x, y);
    }
}

/// Whether version numbers `a` come before `b`.
fn parts_less(a: &Vec<u64>, b: &Vec<u64>) -> (r: bool)
    ensures
        r == parts_lt(a@, b@),
{
    let n = a.len();
    let m = b.len();
    let mut i: usize = 0;
    proof {
        assert(a@.skip(0) =~= a@);
        assert(b@.skip(0) =~= b@);
    }
    while i < n && i < m && a[i] == b[i]
        invariant
            i <= n == a@.len(),
            i <= m == b@.len(),
            parts_lt(a@, b@) == parts_lt(a@.skip(i as int), b@.skip(i as int)),
        decreases n - i,
    {
        proof {
            let sa = a@.skip(i as int);
            let sb = b@.skip(i as int);
            assert(sa.drop_first() =~= a@.skip(i + 1));
            assert(sb.drop_first() =~= b@.skip(i + 1));
            assert(sa[0] == a@[i as int]);
            assert(sb[0] == b@[i as int]);
        }
        i = i + 1;
    }
    let sa = Ghost(a@.skip(i as int));
    let sb = Ghost(b@.skip(i as int));
    if i == n {
        proof {
            assert(sa@.len() == 0);
        }
        i < m
    } else if i == m {
        false
    } else {
        proof {
            assert(sa@[0] == a@[i as int]);
            assert(sb@[0] == b@[i as int]);
        }
        a[i] < b[i]
    }
}

/// Parsing the rest of a component that is already too long fails.
proof fn lemma_long_group_fails(s: Seq<char>, i: int, cur: Seq<char>)
    requires
        cur.len() > max_group_digits(),
    ensures
        version_groups(s, i, cur) is None,
    decreases s.len() - i,
{
    if i >= s.len() || i < 0 {
    } else if s[i] == '.' {
    } else if is_digit(s[i]) {
        lemma_long_group_fails(s, i + 1, cur.push(s[i]));
    }
}

proof fn lemma_digits_value_bound(g: Seq<char>)
    requires
        forall|j: int| 0 <= j < g.len() ==> is_digit(#[trigger] g[j]),
    ensures
        digits_value(g) < pow10(g.len()),
    decreases g.len(),
{
    if g.len() > 0 {
        let h = g.drop_last();
        assert forall|j: int| 0 <= j < h.len() implies is_digit(#[trigger] h[j]) by {
            assert(h[j] == g[j]);
        }
        lemma_digits_value_bound(h);
        let d = ((g.last() as int) - ('0' as int)) as nat;
        assert(is_digit(g[g.len() - 1]));
        assert(d <= 9);
        let v = digits_value(h);
        let p = pow10(h.len());
        assert(v + 1 <= p);
        assert(v * 10 + d < p * 10) by (nonlinear_arith)
            requires
                v + 1 <= p,
                d <= 9,
        ;
    }
}

/// The version numbers of an nvm directory name.
fn parse_version(name: &Vec<char>) -> (r: Option<Vec<u64>>)
    ensures
        match r {
            Some(v) => version_parts(name@) == Some(v@),
            None => version_parts(name@) is None,
        },
{
    let n = name.len();
    if n == 0 || name[0] != 'v' {
        return None;
    }
    let mut out: Vec<u64> = Vec::new();
    let mut cur_val: u64 = 0;
    let mut cur_len: usize = 0;
    let ghost mut cur: Seq<char> = Seq::empty();
    let mut i: usize = 1;
    proof {
        reveal_with_fuel(pow10, 19);
        assert(pow10(17) == 100_000_000_000_000_000nat);
    }
    while i < n
        invariant
            1 <= i <= n == name@.len(),
            name@.len() > 0 && name@[0] == 'v',
            cur.len() == cur_len,
            cur_len <= 18,
            forall|j: int| 0 <= j < cur.len() ==> is_digit(#[trigger] cur[j]),
            cur_val as nat == digits_value(cur),
            pow10(17) == 100_000_000_000_000_000nat,
            version_parts(name@) == match version_groups(name@, i as int, cur) {
                Some(rest) => Some(out@ + rest),
                None => None::<Seq<u64>>,
            },
        decreases n - i,
    {
        let c = name[i];
        if c == '.' {
            if cur_len == 0 {
                return None;
            }
            let ghost before = out@;
            out.push(cur_val);
            proof {
                assert(group_ok(cur));
                match version_groups(name@, i + 1, Seq::empty()) {
                    Some(rest) => {
                        assert(before + (seq![digits_value(cur) as u64] + rest) =~= out@ + rest);
                    },
                    None => {},
                }
                cur = Seq::empty();
            }
            cur_val = 0;
            cur_len = 0;
        } else if '0' <= c && c <= '9' {
            if cur_len == 18 {
                proof {
                    lemma_long_group_fails(name@, i + 1, cur.push(c));
                }
                return None;
            }
            proof {
                lemma_digits_value_bound(cur);
                if cur_len < 17 {
                    lemma_pow10_monotone(cur_len as nat, 17);
                }
            }
            let d = (c as u32 - '0' as u32) as u64;
            proof {
                let v = cur_val as int;
                assert(v < 100_000_000_000_000_000);
                assert(v * 10 + 9 < 0x1_0000_0000_0000_0000) by (nonlinear_arith)
                    requires
                        v < 100_000_000_000_000_000,
                ;
            }
            cur_val = cur_val * 10 + d;
            proof {
                let next = cur.push(c);
                assert(next.drop_last() =~= cur);
                assert(next.last() == c);
                assert forall|j: int| 0 <= j < next.len() implies is_digit(#[trigger] next[j]) by {
                    if j < cur.len() {
                        assert(next[j] == cur[j]);
                    }
                }
                cur = next;
            }
            cur_len = cur_len + 1;
        } else {
            return None;
        }
        i = i + 1;
    }
    if cur_len == 0 {
        return None;
    }
    let ghost before = out@;
    out.push(cur_val);
    proof {
        assert(before + seq![digits_value(cur) as u64] =~= out@);
    }
    Some(out)
}

proof fn lemma_pow10_monotone(a: nat, b: nat)
    requires
        a <= b,
    ensures
        pow10(a) <= pow10(b),
    decreases b,
{
    if a < b {
        lemma_pow10_monotone(a, (b - 1) as nat);
    }
}

/// Whether directory name `a` is an older version than `b`.
pub fn is_older(a: &Vec<char>, b: &Vec<char>) -> (r: bool)
    ensures
        r == older(a@, b@),
{
    let pa = parse_version(a);
    let pb = parse_version(b);
    match (pa, pb) {
        (Some(x), Some(y)) => {
            if parts_less(&x, &y) {
                true
            } else if parts_less(&y, &x) {
                false
            } else {
                proof {
                    lemma_parts_total(x@, y@);
                }
                lex_less(a, b)
            }
        },
        (None, Some(_)) => true,
        (Some(_), None) => false,
        (None, None) => lex_less(a, b),
    }
}

/// `names` arranged from the newest version to the oldest.
pub fn sort_descending(names: &Vec<String>) -> (r: Vec<String>)
    ensures
        is_descending_arrangement(views(r@), views(names@)),
{
    let mut out: Vec<String> = Vec::new();
    let mut keys: Vec<Vec<char>> = Vec::new();
    let mut k: usize = 0;
    let ghost leq = |a: Seq<char>, b: Seq<char>| desc_leq(a, b);
    proof {
        assert(views(out@).to_multiset() =~= views(names@).take(0).to_multiset()) by {
            assert(views(out@) =~= views(names@).take(0));
        }
    }
    while k < names.len()
        invariant
            k <= names@.len(),
            keys@.len() == out@.len(),
            forall|i: int| 0 <= i < keys@.len() ==> #[trigger] keys@[i]@ == out@[i]@,
            vstd::relations::sorted_by(views(out@), leq),
            views(out@).to_multiset() == views(names@).take(k as int).to_multiset(),
            leq == (|a: Seq<char>, b: Seq<char>| desc_leq(a, b)),
        decreases names@.len() - k,
    {
        let x = names[k].clone();
        let xk = chars_of(x.as_str());
        let mut pos: usize = 0;
        while pos < out.len() && !is_older(&keys[pos], &xk)
            invariant
                pos <= out@.len() == keys@.len(),
                forall|i: int| 0 <= i < keys@.len() ==> #[trigger] keys@[i]@ == out@[i]@,
                forall|j: int| 0 <= j < pos ==> !older(#[trigger] views(out@)[j], xk@),
            decreases out@.len() - pos,
        {
            pos = pos + 1;
        }
        let ghost s = views(out@);
        proof {
            assert forall|i: int, j: int| 0 <= i < j < s.insert(pos as int, xk@).len() implies #[trigger] leq(
                s.insert(pos as int, xk@)[i],
                s.insert(pos as int, xk@)[j],
            ) by {
                let t = s.insert(pos as int, xk@);
                if j < pos {
                    assert(leq(s[i], s[j]));
                } else if j == pos {
                    assert(!older(s[i], xk@));
                } else if i < pos {
                    assert(leq(s[i], s[j - 1]));
                } else if i == pos {
                    // s[pos] < x, and s[j-1] <= s[pos]
                    if pos < s.len() {
                        assert(older(s[pos as int], xk@));
                        if pos < j - 1 {
                            assert(leq(s[pos as int], s[j - 1]));
                        }
                        lemma_older_total(s[pos as int], s[j - 1]);
                        lemma_older_transitive(s[j - 1], s[pos as int], xk@);
                        lemma_older_asymmetric(s[j - 1], xk@);
                    }
                } else {
                    assert(leq(s[i - 1], s[j - 1]));
                }
            }
        }
        out.insert(pos, x);
        keys.insert(pos, xk);
        proof {
            assert(views(out@) =~= s.insert(pos as int, xk@));
            assert(views(names@).take(k + 1) =~= views(names@).take(k as int).push(names@[k as int]@));
            assert forall|i: int| 0 <= i < keys@.len() implies #[trigger] keys@[i]@ == out@[i]@ by {
                if i < pos {
                } else if i == pos {
                } else {
                }
            }
        }
        k = k + 1;
    }
    proof {
        assert(views(names@).take(names@.len() as int) =~= views(names@));
    }
    out
}

// ---------------------------------------------------------------------------
// Candidate locations
// ---------------------------------------------------------------------------

/// Each directory joined with `name`.
pub open spec fn spec_in_each(p: Platform, dirs: Seq<Seq<char>>, name: Seq<char>) -> Seq<
    Seq<char>,
> {
    dirs.map_values(|d: Seq<char>| spec_join(p, d, name))
}

/// `dir.join(name)` for every directory in `dirs`.
pub fn join_each(p: Platform, dirs: &Vec<String>, name: &str) -> (r: Vec<String>)
    requires
        is_relative_name(p, name@),
    ensures
        views(r@) == spec_in_each(p, views(dirs@), name@),
{
    let mut out: Vec<String> = Vec::new();
    let mut i: usize = 0;
    while i < dirs.len()
        invariant
            i <= dirs@.len(),
            is_relative_name(p, name@),
            views(out@) == spec_in_each(p, views(dirs@).take(i as int), name@),
        decreases dirs@.len() - i,
    {
        let ghost old_out = out@;
        let f = join_path(p, dirs[i].as_str(), name);
        out.push(f);
        proof {
            assert(views(out@) =~= views(old_out).push(f@));
            assert(views(dirs@).take(i + 1) =~= views(dirs@).take(i as int).push(dirs@[i as int]@));
            assert(spec_in_each(p, views(dirs@).take(i + 1), name@) =~= spec_in_each(
                p,
                views(dirs@).take(i as int),
                name@,
            ).push(spec_join(p, dirs@[i as int]@, name@)));
        }
        i = i + 1;
    }
    proof {
        assert(views(dirs@).take(dirs@.len() as int) =~= views(dirs@));
    }
    out
}

/// The files to probe, in order, when looking up `name` on `PATH`.
pub fn path_candidates(p: Platform, path_var: &str, name: &str) -> (r: Vec<String>)
    requires
        is_relative_name(p, name@),
    ensures
        views(r@) == spec_in_each(p, spec_split_paths(p, path_var@), name@),
{
    let dirs = split_paths(p, path_var);
    join_each(p, &dirs, name)
}

/// The file name of the node executable on `p`.
pub open spec fn node_file_name(p: Platform) -> Seq<char> {
    if p == Platform::Windows {
        "node.exe"@
    } else {
        "node"@
    }
}

/// The name under which npm's entry point is looked up on `PATH`.
pub open spec fn npm_file_name(p: Platform) -> Seq<char> {
    if p == Platform::Windows {
        "npm-cli.js"@
    } else {
        "npm"@
    }
}

/// The file name of the node executable on `p`.
pub fn node_name(p: Platform) -> (r: &'static str)
    ensures
        r@ == node_file_name(p),
        is_relative_name(p, r@),
{
    proof {
        reveal_strlit("node.exe");
        reveal_strlit("node");
    }
    if p == Platform::Windows {
        "node.exe"
    } else {
        "node"
    }
}

/// The name under which npm's entry point is looked up on `PATH`.
pub fn npm_name(p: Platform) -> (r: &'static str)
    ensures
        r@ == npm_file_name(p),
        is_relative_name(p, r@),
{
    proof {
        reveal_strlit("npm-cli.js");
        reveal_strlit("npm");
    }
    if p == Platform::Windows {
        "npm-cli.js"
    } else {
        "npm"
    }
}

/// Where npm is expected next to node in directory `dir`: Windows
/// `<dir>\node_modules\npm\bin\npm-cli.js`, elsewhere `<dir>/npm`.
pub open spec fn spec_npm_beside(p: Platform, dir: Seq<char>) -> Seq<char> {
    if p == Platform::Windows {
        spec_join(
            p,
            spec_join(p, spec_join(p, spec_join(p, dir, "node_modules"@), "npm"@), "bin"@),
            "npm-cli.js"@,
        )
    } else {
        spec_join(p, dir, "npm"@)
    }
}

/// Where npm is expected next to node, given node's directory.
pub fn npm_beside(p: Platform, dir: &str) -> (r: String)
    ensures
        r@ == spec_npm_beside(p, dir@),
{
    proof {
        reveal_strlit("node_modules");
        reveal_strlit("npm");
        reveal_strlit("bin");
        reveal_strlit("npm-cli.js");
    }
    if p == Platform::Windows {
        let a = join_path(p, dir, "node_modules");
        let b = join_path(p, a.as_str(), "npm");
        let c = join_path(p, b.as_str(), "bin");
        join_path(p, c.as_str(), "npm-cli.js")
    } else {
        join_path(p, dir, "npm")
    }
}

/// The prefix `std::fs::canonicalize` puts on Windows paths.
pub open spec fn verbatim_prefix() -> Seq<char> {
    "\\\\?\\"@
}

/// `s` without a leading verbatim prefix, which node.js rejects in an entry
/// script path.
pub open spec fn spec_strip_verbatim(s: Seq<char>) -> Seq<char> {
    if starts_with(s, verbatim_prefix()) {
        s.skip(verbatim_prefix().len() as int)
    } else {
        s
    }
}

/// Strip a leading verbatim prefix from a canonicalized path.
pub fn strip_verbatim_prefix(path: String) -> (r: String)
    ensures
        r@ == spec_strip_verbatim(path@),
{
    let v = chars_of(path.as_str());
    let pre = chars_of("\\\\?\\");
    if starts_with_exec(&v, &pre) {
        let r = string_of_range(&v, pre.len(), v.len());
        proof {
            assert(v@.subrange(pre@.len() as int, v@.len() as int) =~= v@.skip(pre@.len() as int));
        }
        r
    } else {
        path
    }
}

/// The directories where node is looked for when it is not on `PATH`:
/// Homebrew (Apple Silicon, then Intel and the pkg installer), then, with a
/// home directory, Volta and every nvm version directory in the given order.
pub open spec fn spec_node_dirs(p: Platform, home: Option<Seq<char>>, versions: Seq<Seq<char>>) -> Seq<
    Seq<char>,
> {
    seq!["/opt/homebrew/bin"@, "/usr/local/bin"@] + match home {
        None => Seq::empty(),
        Some(h) => seq![spec_join(p, spec_join(p, h, ".volta"@), "bin"@)] + versions.map_values(
            |v: Seq<char>| spec_join(p, spec_join(p, nvm_node_dir(p, h), v), "bin"@),
        ),
    }
}

/// `<home>/.nvm/versions/node`.
pub open spec fn nvm_node_dir(p: Platform, h: Seq<char>) -> Seq<char> {
    spec_join(p, spec_join(p, spec_join(p, h, ".nvm"@), "versions"@), "node"@)
}

/// With a home directory `h`, the candidates are Homebrew's two, Volta's,
/// and then one per nvm version directory, in the given (newest-first)
/// order: `<h>/.nvm/versions/node/<v>/bin/node`; without one, only
/// Homebrew's two. This holds on every platform.
pub proof fn law_nvm_candidates(
    p: Platform,
    h: Seq<char>,
    versions: Seq<Seq<char>>,
    order: Seq<Seq<char>>,
)
    requires
        is_descending_arrangement(order, versions),
    ensures
        spec_in_each(p, spec_node_dirs(p, Some(h), order), "node"@).len() == 3 + versions.len(),
        spec_in_each(p, spec_node_dirs(p, Some(h), order), "node"@)[0] == spec_join(
            p,
            "/opt/homebrew/bin"@,
            "node"@,
        ),
        spec_in_each(p, spec_node_dirs(p, Some(h), order), "node"@)[1] == spec_join(
            p,
            "/usr/local/bin"@,
            "node"@,
        ),
        spec_in_each(p, spec_node_dirs(p, Some(h), order), "node"@)[2] == spec_join(
            p,
            spec_join(p, spec_join(p, h, ".volta"@), "bin"@),
            "node"@,
        ),
        forall|i: int|
            0 <= i < versions.len() ==> #[trigger] spec_in_each(
                p,
                spec_node_dirs(p, Some(h), order),
                "node"@,
            )[3 + i] == spec_join(
                p,
                spec_join(
                    p,
                    spec_join(
                        p,
                        spec_join(p, spec_join(p, spec_join(p, h, ".nvm"@), "versions"@), "node"@),
                        order[i],
                    ),
                    "bin"@,
                ),
                "node"@,
            ),
        spec_in_each(p, spec_node_dirs(p, None, order), "node"@).len() == 2,
{
    broadcast use vstd::seq_lib::group_to_multiset_ensures;

    assert(order.to_multiset().len() == order.len());
    assert(versions.to_multiset().len() == versions.len());
    let dirs = spec_node_dirs(p, Some(h), order);
    let nvm = order.map_values(
        |v: Seq<char>| spec_join(p, spec_join(p, nvm_node_dir(p, h), v), "bin"@),
    );
    assert(dirs == seq!["/opt/homebrew/bin"@, "/usr/local/bin"@] + (seq![
        spec_join(p, spec_join(p, h, ".volta"@), "bin"@),
    ] + nvm));
    assert forall|i: int| 0 <= i < versions.len() implies dirs[3 + i] == nvm[i] by {}
}

/// The node executables to probe, in order, when node is not on `PATH`.
/// `nvm_versions` are the entries of `<home>/.nvm/versions/node`; they are
/// tried newest version first, by their numbers (see [`older`]).
pub fn node_search_paths(p: Platform, home: &Option<String>, nvm_versions: &Vec<String>) -> (r:
    Vec<String>)
    requires
        forall|i: int| 0 <= i < nvm_versions@.len() ==> is_relative_name(p, #[trigger] nvm_versions@[i]@),
    ensures
        exists|order: Seq<Seq<char>>|
            is_descending_arrangement(order, views(nvm_versions@)) && views(r@) == spec_in_each(
                p,
                spec_node_dirs(p, opt_view(*home), order),
                "node"@,
            ),
{
    proof {
        reveal_strlit("/opt/homebrew/bin");
        reveal_strlit("/usr/local/bin");
        reveal_strlit(".volta");
        reveal_strlit("bin");
        reveal_strlit(".nvm");
        reveal_strlit("versions");
        reveal_strlit("node");
    }
    let mut dirs: Vec<String> = Vec::new();
    dirs.push("/opt/homebrew/bin".to_owned());
    dirs.push("/usr/local/bin".to_owned());
    let sorted = sort_descending(nvm_versions);
    proof {
        // every sorted name came from the input, so it is relative as well
        assert forall|i: int| 0 <= i < sorted@.len() implies is_relative_name(p, #[trigger] sorted@[i]@) by {
            let x = views(sorted@)[i];
            assert(views(sorted@).to_multiset().count(x) > 0);
            assert(views(nvm_versions@).to_multiset().count(x) > 0);
            assert(views(nvm_versions@).contains(x));
            let j = choose|j: int| 0 <= j < views(nvm_versions@).len() && views(nvm_versions@)[j] == x;
            assert(is_relative_name(p, nvm_versions@[j]@));
        }
    }
    match home {
        None => {},
        Some(h) => {
            let v = join_path(p, h.as_str(), ".volta");
            dirs.push(join_path(p, v.as_str(), "bin"));
            let a = join_path(p, h.as_str(), ".nvm");
            let b = join_path(p, a.as_str(), "versions");
            let nvm = join_path(p, b.as_str(), "node");
            let mut i: usize = 0;
            let ghost base = views(dirs@);
            while i < sorted.len()
                invariant
                    i <= sorted@.len(),
                    forall|t: int| 0 <= t < sorted@.len() ==> is_relative_name(p, #[trigger] sorted@[t]@),
                    nvm@ == nvm_node_dir(p, h@),
                    views(dirs@) == base + views(sorted@).take(i as int).map_values(
                        |v: Seq<char>| spec_join(p, spec_join(p, nvm_node_dir(p, h@), v), "bin"@),
                    ),
                decreases sorted@.len() - i,
            {
                let ghost old_dirs = views(dirs@);
                proof {
                    reveal_strlit("bin");
                }
                let d = join_path(p, nvm.as_str(), sorted[i].as_str());
                let d2 = join_path(p, d.as_str(), "bin");
                dirs.push(d2);
                proof {
                    assert(views(dirs@) =~= old_dirs.push(d2@));
                    assert(views(sorted@).take(i + 1) =~= views(sorted@).take(i as int).push(sorted@[i as int]@));
                    assert(views(sorted@).take(i + 1).map_values(
                        |v: Seq<char>| spec_join(p, spec_join(p, nvm_node_dir(p, h@), v), "bin"@),
                    ) =~= views(sorted@).take(i as int).map_values(
                        |v: Seq<char>| spec_join(p, spec_join(p, nvm_node_dir(p, h@), v), "bin"@),
                    ).push(d2@));
                    assert(views(dirs@) =~= base + views(sorted@).take(i + 1).map_values(
                        |v: Seq<char>| spec_join(p, spec_join(p, nvm_node_dir(p, h@), v), "bin"@),
                    ));
                }
                i = i + 1;
            }
            proof {
                assert(views(sorted@).take(sorted@.len() as int) =~= views(sorted@));
            }
        },
    }
    let r = join_each(p, &dirs, "node");
    proof {
        let order = views(sorted@);
        assert(views(dirs@) =~= spec_node_dirs(p, opt_view(*home), order));
    }
    r
}

} // verus!
