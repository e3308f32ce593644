//! Application data directory resolution (cross-platform), over paths held
//! as strings. The environment is read by the caller and handed in.

use vstd::prelude::*;
use vstd::string::*;

use crate::text::{chars_of, opt_view, push_range, push_str};

verus! {

broadcast use vstd::string::group_string_axioms;

/// The operating system family whose path rules apply.
#[derive(PartialEq, Eq, Structural, Clone, Copy, Debug)]
pub enum Platform {
    Windows,
    MacOs,
    /// Linux and the other Unix systems.
    OtherUnix,
}

/// Whether `c` separates path components on `p`.
pub open spec fn is_separator(p: Platform, c: char) -> bool {
    c == '/' || (p == Platform::Windows && c == '\\')
}

/// The separator `PathBuf::push` inserts on `p`.
pub open spec fn main_separator(p: Platform) -> char {
    if p == Platform::Windows {
        '\\'
    } else {
        '/'
    }
}

/// An ASCII letter.
pub open spec fn is_ascii_alpha(c: char) -> bool {
    ('a' <= c && c <= 'z') || ('A' <= c && c <= 'Z')
}

/// A bare Windows drive such as `C:`, after which `push` adds no separator.
pub open spec fn is_bare_drive(p: Platform, s: Seq<char>) -> bool {
    p == Platform::Windows && s.len() == 2 && is_ascii_alpha(s[0]) && s[1] == ':'
}

/// A relative path that `push` appends rather than substitutes: it neither
/// starts with a separator nor, on Windows, with a drive (`X:`).
pub open spec fn is_relative_name(p: Platform, name: Seq<char>) -> bool {
    name.len() == 0 || (!is_separator(p, name[0]) && !(p == Platform::Windows && name.len() >= 2
        && name[1] == ':'))
}

fn str_is_empty(s: &str) -> (b: bool)
    ensures
        b == (s@.len() == 0),
{
    s.is_empty()
}

/// Whether `name` is a relative name that `join_path` accepts.
pub fn relative_name(p: Platform, name: &str) -> (b: bool)
    ensures
        b == is_relative_name(p, name@),
{
    let v = chars_of(name);
    if v.len() == 0 {
        return true;
    }
    let sep = v[0] == '/' || (p == Platform::Windows && v[0] == '\\');
    let drive = p == Platform::Windows && v.len() >= 2 && v[1] == ':';
    !sep && !drive
}

/// `base.join(name)` for a relative `name`: a separator goes between the two
/// unless `base` is empty, already ends with a separator, or is a bare drive.
/// A non-empty `name` joined to a Windows verbatim base (`\\?\…`) makes std
/// rebuild the whole path from its components instead (see
/// [`spec_verbatim_join`]).
pub open spec fn spec_join(p: Platform, base: Seq<char>, name: Seq<char>) -> Seq<char> {
    if is_verbatim(p, base) && name.len() > 0 {
        spec_verbatim_join(base, name)
    } else if base.len() == 0 || is_separator(p, base.last()) || is_bare_drive(p, base) {
        base + name
    } else {
        base.push(main_separator(p)) + name
    }
}

/// The verbatim prefix `\\?\`.
pub open spec fn verbatim_marker() -> Seq<char> {
    seq!['\\', '\\', '?', '\\']
}

/// A Windows path that starts with the verbatim prefix `\\?\`.
pub open spec fn is_verbatim(p: Platform, s: Seq<char>) -> bool {
    p == Platform::Windows && s.len() >= 4 && s.take(4) == verbatim_marker()
}

/// The first index at or after `i` that holds a backslash, or the length.
pub open spec fn next_backslash(s: Seq<char>, i: int) -> int
    decreases s.len() - i,
{
    if i < 0 || i >= s.len() {
        s.len() as int
    } else if s[i] == '\\' {
        i
    } else {
        next_backslash(s, i + 1)
    }
}

/// The length of a verbatim path's prefix: `\\?\UNC\server\share` (the
/// share only when it is not empty; the backslash after `UNC` may also be a
/// slash), `\\?\` and an exact drive (`\\?\C:` followed by nothing or a
/// separator), or `\\?\` and the text up to the next backslash
/// (`\\?\Volume{…}`).
pub open spec fn verbatim_prefix_len(s: Seq<char>) -> int {
    if s.len() >= 8 && s[4] == 'U' && s[5] == 'N' && s[6] == 'C' && is_separator(
        Platform::Windows,
        s[7],
    ) {
        let e1 = next_backslash(s, 8);
        if e1 < s.len() {
            let e2 = next_backslash(s, e1 + 1);
            if e2 > e1 + 1 {
                e2
            } else {
                e1
            }
        } else {
            e1
        }
    } else if s.len() >= 6 && is_ascii_alpha(s[4]) && s[5] == ':' && (s.len() == 6
        || is_separator(Platform::Windows, s[6])) {
        6
    } else {
        next_backslash(s, 4)
    }
}

/// A separator for component splitting: only `\\` inside a verbatim
/// path, `\\` or `/` in an ordinary Windows path.
pub open spec fn splits_at(c: char, both: bool) -> bool {
    c == '\\' || (both && c == '/')
}

/// The non-empty pieces of `s[i..]` between separators, `cur` being the
/// piece read so far.
pub open spec fn pieces_from(s: Seq<char>, i: int, cur: Seq<char>, both: bool) -> Seq<Seq<char>>
    decreases s.len() - i,
{
    if i < 0 || i >= s.len() {
        if cur.len() > 0 {
            seq![cur]
        } else {
            Seq::empty()
        }
    } else if splits_at(s[i], both) {
        (if cur.len() > 0 {
            seq![cur]
        } else {
            Seq::empty()
        }) + pieces_from(s, i + 1, Seq::empty(), both)
    } else {
        pieces_from(s, i + 1, cur.push(s[i]), both)
    }
}

/// A component that names a file or directory (not `.` or `..`).
pub open spec fn is_normal_piece(c: Seq<char>) -> bool {
    c != seq!['.'] && c != seq!['.', '.']
}

/// Appending a relative name's pieces: `.` is skipped, `..` drops the last
/// component if that one is a normal name, anything else is appended.
pub open spec fn push_pieces(buf: Seq<Seq<char>>, pieces: Seq<Seq<char>>) -> Seq<Seq<char>>
    decreases pieces.len(),
{
    if pieces.len() == 0 {
        buf
    } else {
        let x = pieces[0];
        let next = if x == seq!['.'] {
            buf
        } else if x == seq!['.', '.'] {
            if buf.len() > 0 && is_normal_piece(buf.last()) {
                buf.drop_last()
            } else {
                buf
            }
        } else {
            buf.push(x)
        };
        push_pieces(next, pieces.drop_first())
    }
}

/// The components after the prefix, written out: with a root they follow a
/// single backslash and are separated by backslashes; without one each is
/// preceded by a backslash.
pub open spec fn render_components(root: bool, comps: Seq<Seq<char>>) -> Seq<char>
    decreases comps.len(),
{
    if comps.len() == 0 {
        if root {
            seq!['\\']
        } else {
            Seq::empty()
        }
    } else if root && comps.len() == 1 {
        render_components(root, comps.drop_last()) + comps.last()
    } else {
        render_components(root, comps.drop_last()) + seq!['\\'] + comps.last()
    }
}

/// Whether the verbatim path `s` has a root right after its prefix.
pub open spec fn verbatim_has_root(s: Seq<char>) -> bool {
    let k = verbatim_prefix_len(s);
    k < s.len() && is_separator(Platform::Windows, s[k])
}

/// The components of the verbatim path `s` after its prefix and root.
pub open spec fn verbatim_components(s: Seq<char>) -> Seq<Seq<char>> {
    let k = verbatim_prefix_len(s);
    let start = if verbatim_has_root(s) {
        k + 1
    } else {
        k
    };
    pieces_from(s, start, Seq::empty(), false)
}

/// std's join onto a verbatim base: the base's prefix, its root, and its
/// components (split at backslashes only, empty ones dropped), followed by
/// the name's pieces as [`push_pieces`] applies them, all written out again
/// with backslashes.
pub open spec fn spec_verbatim_join(base: Seq<char>, name: Seq<char>) -> Seq<char> {
    base.take(verbatim_prefix_len(base)) + render_components(
        verbatim_has_root(base),
        push_pieces(verbatim_components(base), pieces_from(name, 0, Seq::empty(), true)),
    )
}

/// The views of a sequence of character vectors.
pub open spec fn cviews(v: Seq<Vec<char>>) -> Seq<Seq<char>> {
    v.map_values(|x: Vec<char>| x@)
}

fn next_backslash_exec(v: &Vec<char>, i: usize) -> (r: usize)
    requires
        i <= v@.len(),
    ensures
        r as int == next_backslash(v@, i as int),
        i <= r <= v@.len(),
{
    let mut j = i;
    while j < v.len() && v[j] != '\\'
        invariant
            i <= j <= v@.len(),
            next_backslash(v@, i as int) == next_backslash(v@, j as int),
        decreases v@.len() - j,
    {
        j = j + 1;
    }
    j
}

fn verbatim_prefix_len_exec(v: &Vec<char>) -> (r: usize)
    requires
        v@.len() >= 4,
    ensures
        r as int == verbatim_prefix_len(v@),
        4 <= r <= v@.len(),
{
    let n = v.len();
    if n >= 8 && v[4] == 'U' && v[5] == 'N' && v[6] == 'C' && (v[7] == '\\' || v[7] == '/') {
        let e1 = next_backslash_exec(v, 8);
        if e1 < n {
            let e2 = next_backslash_exec(v, e1 + 1);
            if e2 > e1 + 1 {
                e2
            } else {
                e1
            }
        } else {
            e1
        }
    } else if n >= 6 && ((v[4] >= 'a' && v[4] <= 'z') || (v[4] >= 'A' && v[4] <= 'Z')) && v[5]
        == ':' && (n == 6 || v[6] == '\\' || v[6] == '/') {
        6
    } else {
        next_backslash_exec(v, 4)
    }
}

fn pieces_exec(v: &Vec<char>, lo: usize, both: bool) -> (r: Vec<Vec<char>>)
    requires
        lo <= v@.len(),
    ensures
        cviews(r@) == pieces_from(v@, lo as int, Seq::empty(), both),
{
    let n = v.len();
    let mut out: Vec<Vec<char>> = Vec::new();
    let mut cur: Vec<char> = Vec::new();
    let mut i = lo;
    proof {
        assert(cviews(out@) + pieces_from(v@, lo as int, cur@, both) =~= pieces_from(
            v@,
            lo as int,
            Seq::empty(),
            both,
        ));
    }
    while i < n
        invariant
            lo <= i <= n == v@.len(),
            cviews(out@) + pieces_from(v@, i as int, cur@, both) == pieces_from(
                v@,
                lo as int,
                Seq::empty(),
                both,
            ),
        decreases n - i,
    {
        let c = v[i];
        if c == '\\' || (both && c == '/') {
            let ghost before = cviews(out@);
            let ghost piece = cur@;
            if cur.len() > 0 {
                out.push(cur);
                proof {
                    assert(cviews(out@) =~= before.push(piece));
                }
            }
            cur = Vec::new();
            proof {
                let head = if piece.len() > 0 {
                    seq![piece]
                } else {
                    Seq::<Seq<char>>::empty()
                };
                assert(cviews(out@) =~= before + head);
                assert(cur@ =~= Seq::<char>::empty());
                assert(before + (head + pieces_from(v@, i + 1, Seq::empty(), both)) =~= cviews(
                    out@,
                ) + pieces_from(v@, i + 1, cur@, both));
            }
        } else {
            cur.push(c);
        }
        i = i + 1;
    }
    if cur.len() > 0 {
        let ghost before = cviews(out@);
        let ghost piece = cur@;
        out.push(cur);
        proof {
            assert(cviews(out@) =~= before + seq![piece]);
        }
    } else {
        proof {
            assert(cviews(out@) + Seq::<Seq<char>>::empty() =~= cviews(out@));
        }
    }
    out
}

fn is_dot(x: &Vec<char>) -> (b: bool)
    ensures
        b == (x@ == seq!['.']),
{
    let b = x.len() == 1 && x[0] == '.';
    proof {
        if b {
            assert(x@ =~= seq!['.']);
        }
    }
    b
}

fn is_dot_dot(x: &Vec<char>) -> (b: bool)
    ensures
        b == (x@ == seq!['.', '.']),
{
    let b = x.len() == 2 && x[0] == '.' && x[1] == '.';
    proof {
        if b {
            assert(x@ =~= seq!['.', '.']);
        }
    }
    b
}

fn push_pieces_exec(buf: &mut Vec<Vec<char>>, pieces: Vec<Vec<char>>)
    ensures
        cviews(final(buf)@) == push_pieces(cviews(old(buf)@), cviews(pieces@)),
{
    let mut k: usize = 0;
    proof {
        assert(cviews(pieces@).skip(0) =~= cviews(pieces@));
    }
    while k < pieces.len()
        invariant
            k <= pieces@.len(),
            push_pieces(cviews(old(buf)@), cviews(pieces@)) == push_pieces(
                cviews(buf@),
                cviews(pieces@).skip(k as int),
            ),
        decreases pieces@.len() - k,
    {
        let x = pieces[k].clone();
        let ghost b = cviews(buf@);
        let ghost rest = cviews(pieces@).skip(k as int);
        proof {
            assert(rest[0] == x@);
            assert(rest.drop_first() =~= cviews(pieces@).skip(k + 1));
        }
        if is_dot(&x) {
        } else if is_dot_dot(&x) {
            let m = buf.len();
            if m > 0 {
                let normal = !is_dot(&buf[m - 1]) && !is_dot_dot(&buf[m - 1]);
                proof {
                    assert(b.last() == buf@[m - 1]@);
                }
                if normal {
                    buf.pop();
                    proof {
                        assert(cviews(buf@) =~= b.drop_last());
                    }
                }
            }
        } else {
            buf.push(x);
            proof {
                assert(cviews(buf@) =~= b.push(x@));
            }
        }
        k = k + 1;
    }
    proof {
        assert(cviews(pieces@).skip(pieces@.len() as int) =~= Seq::<Seq<char>>::empty());
    }
}

/// Writes `prefix`, then the components as [`render_components`] does.
fn render_exec(v: &Vec<char>, prefix_len: usize, root: bool, comps: &Vec<Vec<char>>) -> (r: String)
    requires
        prefix_len <= v@.len(),
    ensures
        r@ == v@.take(prefix_len as int) + render_components(root, cviews(comps@)),
{
    let mut out = String::new();
    push_range(&mut out, v, 0, prefix_len);
    proof {
        assert(v@.subrange(0, prefix_len as int) =~= v@.take(prefix_len as int));
    }
    let ghost pre = out@;
    if root {
        out.push('\\');
    }
    proof {
        assert(cviews(comps@).take(0) =~= Seq::<Seq<char>>::empty());
        assert(out@ =~= pre + render_components(root, cviews(comps@).take(0)));
    }
    let mut k: usize = 0;
    while k < comps.len()
        invariant
            k <= comps@.len(),
            out@ == pre + render_components(root, cviews(comps@).take(k as int)),
        decreases comps@.len() - k,
    {
        let ghost before = out@;
        if !(root && k == 0) {
            out.push('\\');
        }
        let c = &comps[k];
        push_range(&mut out, c, 0, c.len());
        proof {
            let t = cviews(comps@).take(k + 1);
            assert(t.drop_last() =~= cviews(comps@).take(k as int));
            assert(t.last() == c@);
            assert(c@.subrange(0, c@.len() as int) =~= c@);
            assert(out@ =~= pre + render_components(root, t));
        }
        k = k + 1;
    }
    proof {
        assert(cviews(comps@).take(comps@.len() as int) =~= cviews(comps@));
    }
    out
}

/// std's join of a non-empty name onto a verbatim base.
fn verbatim_join(base: &Vec<char>, name: &str) -> (r: String)
    requires
        base@.len() >= 4,
    ensures
        r@ == spec_verbatim_join(base@, name@),
{
    let k = verbatim_prefix_len_exec(base);
    let root = k < base.len() && (base[k] == '\\' || base[k] == '/');
    let start = if root {
        k + 1
    } else {
        k
    };
    let mut comps = pieces_exec(base, start, false);
    let nv = chars_of(name);
    let name_pieces = pieces_exec(&nv, 0, true);
    push_pieces_exec(&mut comps, name_pieces);
    render_exec(base, k, root, &comps)
}

/// `base.join(name)` on platform `p`, for a relative `name`.
pub fn join_path(p: Platform, base: &str, name: &str) -> (r: String)
    requires
        is_relative_name(p, name@),
    ensures
        r@ == spec_join(p, base@, name@),
{
    let b = chars_of(base);
    let n = b.len();
    if p == Platform::Windows && n >= 4 && b[0] == '\\' && b[1] == '\\' && b[2] == '?' && b[3]
        == '\\' && !str_is_empty(name) {
        proof {
            assert(b@.take(4) =~= verbatim_marker());
        }
        return verbatim_join(&b, name);
    }
    proof {
        if p == Platform::Windows && n >= 4 && b@.take(4) == verbatim_marker() {
            assert(b@.take(4)[0] == b@[0] && b@.take(4)[1] == b@[1] && b@.take(4)[2] == b@[2]
                && b@.take(4)[3] == b@[3]);
        }
    }
    let mut out = base.to_owned();
    let no_sep = if n == 0 {
        true
    } else {
        let last = b[n - 1];
        let sep = last == '/' || (p == Platform::Windows && last == '\\');
        let drive = p == Platform::Windows && n == 2 && ((b[0] >= 'a' && b[0] <= 'z') || (b[0]
            >= 'A' && b[0] <= 'Z')) && b[1] == ':';
        sep || drive
    };
    if !no_sep {
        if p == Platform::Windows {
            out.push('\\');
        } else {
            out.push('/');
        }
    }
    push_str(&mut out, name);
    proof {
        if n > 0 {
            assert(b@.last() == b@[n - 1]);
        }
    }
    out
}

/// The user's home directory: `HOME`, else `USERPROFILE`, else `.`.
pub open spec fn spec_home_dir(home: Option<Seq<char>>, userprofile: Option<Seq<char>>) -> Seq<
    char,
> {
    match home {
        Some(h) => h,
        None => match userprofile {
            Some(u) => u,
            None => "."@,
        },
    }
}

/// The environment variables that decide where the data directory lives,
/// as read by the caller (`None` when unset).
pub struct DataDirEnv {
    pub home: Option<String>,
    pub userprofile: Option<String>,
    pub localappdata: Option<String>,
    pub appdata: Option<String>,
    pub xdg_data_home: Option<String>,
}

/// The home directory named by `env`.
pub open spec fn env_home(env: DataDirEnv) -> Seq<char> {
    spec_home_dir(opt_view(env.home), opt_view(env.userprofile))
}

/// The per-user application data directory (where `DSHDesktop` lives):
/// Windows `LOCALAPPDATA`, else `APPDATA`, else `<home>\AppData\Local`;
/// macOS `<home>/Library/Application Support`; other Unix systems
/// `XDG_DATA_HOME`, else `<home>/.local/share`.
pub open spec fn spec_app_data_root(p: Platform, env: DataDirEnv) -> Seq<char> {
    let home = env_home(env);
    match p {
        Platform::Windows => match opt_view(env.localappdata) {
            Some(d) => d,
            None => match opt_view(env.appdata) {
                Some(d) => d,
                None => spec_join(p, spec_join(p, home, "AppData"@), "Local"@),
            },
        },
        Platform::MacOs => spec_join(p, spec_join(p, home, "Library"@), "Application Support"@),
        Platform::OtherUnix => match opt_view(env.xdg_data_home) {
            Some(d) => d,
            None => spec_join(p, spec_join(p, home, ".local"@), "share"@),
        },
    }
}

/// The user's home directory.
pub fn home_dir(env: &DataDirEnv) -> (h: String)
    ensures
        h@ == env_home(*env),
{
    match &env.home {
        Some(h) => h.clone(),
        None => match &env.userprofile {
            Some(u) => u.clone(),
            None => ".".to_owned(),
        },
    }
}

/// The per-user application data directory.
pub fn app_data_root(p: Platform, env: &DataDirEnv) -> (r: String)
    ensures
        r@ == spec_app_data_root(p, *env),
{
    proof {
        reveal_strlit("AppData");
        reveal_strlit("Local");
        reveal_strlit("Library");
        reveal_strlit("Application Support");
        reveal_strlit(".local");
        reveal_strlit("share");
    }
    match p {
        Platform::Windows => {
            if let Some(d) = &env.localappdata {
                return d.clone();
            }
            if let Some(d) = &env.appdata {
                return d.clone();
            }
            let home = home_dir(env);
            let a = join_path(p, home.as_str(), "AppData");
            join_path(p, a.as_str(), "Local")
        },
        Platform::MacOs => {
            let home = home_dir(env);
            let a = join_path(p, home.as_str(), "Library");
            join_path(p, a.as_str(), "Application Support")
        },
        Platform::OtherUnix => {
            if let Some(d) = &env.xdg_data_home {
                return d.clone();
            }
            let home = home_dir(env);
            let a = join_path(p, home.as_str(), ".local");
            join_path(p, a.as_str(), "share")
        },
    }
}

/// Where the app keeps its managed runtime and its logs.
pub struct AppPaths {
    pub runtime: String,
    pub logs: String,
}

/// `<data>/DSHDesktop`.
pub open spec fn spec_app_root(p: Platform, env: DataDirEnv) -> Seq<char> {
    spec_join(p, spec_app_data_root(p, env), "DSHDesktop"@)
}

impl AppPaths {
    /// Resolve the per-user app data directory: `<data>/DSHDesktop`, with
    /// `runtime` and `logs` inside it.
    pub fn resolve(p: Platform, env: &DataDirEnv) -> (r: Self)
        ensures
            r.runtime@ == spec_join(p, spec_app_root(p, *env), "runtime"@),
            r.logs@ == spec_join(p, spec_app_root(p, *env), "logs"@),
    {
        proof {
            reveal_strlit("DSHDesktop");
            reveal_strlit("runtime");
            reveal_strlit("logs");
        }
        let data = app_data_root(p, env);
        let root = join_path(p, data.as_str(), "DSHDesktop");
        AppPaths {
            runtime: join_path(p, root.as_str(), "runtime"),
            logs: join_path(p, root.as_str(), "logs"),
        }
    }
}

/// A name made of one plain component: not empty, not `.` or `..`, and
/// free of both separators.
pub open spec fn is_plain_component(name: Seq<char>) -> bool {
    name.len() > 0 && is_normal_piece(name) && forall|j: int|
        0 <= j < name.len() ==> !splits_at(#[trigger] name[j], true)
}

proof fn lemma_pieces_without_separator(s: Seq<char>, i: int, cur: Seq<char>, both: bool)
    requires
        0 <= i <= s.len(),
        forall|j: int| i <= j < s.len() ==> !splits_at(#[trigger] s[j], both),
    ensures
        pieces_from(s, i, cur, both) == (if cur.len() + s.len() - i > 0 {
            seq![cur + s.skip(i)]
        } else {
            Seq::<Seq<char>>::empty()
        }),
    decreases s.len() - i,
{
    if i < s.len() {
        lemma_pieces_without_separator(s, i + 1, cur.push(s[i]), both);
        assert(cur.push(s[i]) + s.skip(i + 1) =~= cur + s.skip(i));
    } else {
        assert(cur + s.skip(i) =~= cur);
    }
}

/// Joining a plain component onto a verbatim base appends it as the new
/// last component.
proof fn lemma_verbatim_join_ends_with(base: Seq<char>, name: Seq<char>)
    requires
        is_plain_component(name),
    ensures
        spec_verbatim_join(base, name).len() >= name.len(),
        spec_verbatim_join(base, name).skip(spec_verbatim_join(base, name).len() - name.len())
            == name,
{
    lemma_pieces_without_separator(name, 0, Seq::empty(), true);
    assert(Seq::<char>::empty() + name.skip(0) =~= name);
    let pieces = pieces_from(name, 0, Seq::empty(), true);
    assert(pieces == seq![name]);
    let comps = verbatim_components(base);
    assert(pieces.drop_first() =~= Seq::<Seq<char>>::empty());
    assert(push_pieces(comps.push(name), Seq::empty()) == comps.push(name));
    assert(push_pieces(comps, pieces) == comps.push(name));
    let root = verbatim_has_root(base);
    let all = comps.push(name);
    assert(all.drop_last() =~= comps);
    let head = render_components(root, comps);
    let r = render_components(root, all);
    let full = spec_verbatim_join(base, name);
    if root && all.len() == 1 {
        assert(r == head + name);
    } else {
        assert(r == head + seq!['\\'] + name);
    }
    assert(full == base.take(verbatim_prefix_len(base)) + r);
    assert(full.skip(full.len() - name.len()) =~= name);
}

/// Joining never rewrites an ordinary base: the result starts with it and
/// ends with the name. (A verbatim base is rebuilt from its components; see
/// [`law_join_ends_with_plain_name`].)
pub proof fn law_join_extends_base(p: Platform, base: Seq<char>, name: Seq<char>)
    requires
        !is_verbatim(p, base),
    ensures
        spec_join(p, base, name).len() >= base.len() + name.len(),
        spec_join(p, base, name).take(base.len() as int) == base,
        spec_join(p, base, name).skip(spec_join(p, base, name).len() - name.len()) == name,
{
    let r = spec_join(p, base, name);
    assert(r.take(base.len() as int) =~= base);
    assert(r.skip(r.len() - name.len()) =~= name);
}

/// Whatever the base, joining a plain component gives a path that ends
/// with that component.
pub proof fn law_join_ends_with_plain_name(p: Platform, base: Seq<char>, name: Seq<char>)
    requires
        is_plain_component(name),
    ensures
        spec_join(p, base, name).len() >= name.len(),
        spec_join(p, base, name).skip(spec_join(p, base, name).len() - name.len()) == name,
{
    if is_verbatim(p, base) {
        lemma_verbatim_join_ends_with(base, name);
    } else {
        law_join_extends_base(p, base, name);
    }
}

/// The runtime and log directories are distinct, and unless the data
/// directory is a verbatim path (which joining rebuilds), both lie inside
/// `<data>/DSHDesktop`.
pub proof fn law_runtime_and_logs_distinct(p: Platform, env: DataDirEnv)
    ensures
        spec_join(p, spec_app_root(p, env), "runtime"@) != spec_join(p, spec_app_root(p, env), "logs"@),
        !is_verbatim(p, spec_app_root(p, env)) ==> spec_join(p, spec_app_root(p, env), "runtime"@).take(
            spec_app_root(p, env).len() as int,
        ) == spec_app_root(p, env),
        !is_verbatim(p, spec_app_root(p, env)) ==> spec_join(p, spec_app_root(p, env), "logs"@).take(
            spec_app_root(p, env).len() as int,
        ) == spec_app_root(p, env),
{
    reveal_strlit("runtime");
    reveal_strlit("logs");
    let root = spec_app_root(p, env);
    let rt = "runtime"@;
    let lg = "logs"@;
    assert(rt =~= seq!['r', 'u', 'n', 't', 'i', 'm', 'e']);
    assert(lg =~= seq!['l', 'o', 'g', 's']);
    assert(rt.len() != seq!['.'].len() && rt.len() != seq!['.', '.'].len());
    assert(lg.len() != seq!['.'].len() && lg.len() != seq!['.', '.'].len());
    assert(is_plain_component(rt));
    assert(is_plain_component(lg));
    law_join_ends_with_plain_name(p, root, rt);
    law_join_ends_with_plain_name(p, root, lg);
    if !is_verbatim(p, root) {
        law_join_extends_base(p, root, rt);
        law_join_extends_base(p, root, lg);
    }
    let a = spec_join(p, root, rt);
    let b = spec_join(p, root, lg);
    assert(a.skip(a.len() - 7)[6] == a[a.len() - 1]);
    assert(b.skip(b.len() - 4)[3] == b[b.len() - 1]);
    assert(a[a.len() - 1] == 'e');
    assert(b[b.len() - 1] == 's');
}

} // verus!
