//! The managed `@deepseek-ai/dsh` install: where it lives, how npm is
//! invoked for it, and how npm's answers are read. Running npm and reading
//! files is left to the caller.

use vstd::prelude::*;
use vstd::string::*;

use crate::node::{NodeEnv, views};
use crate::paths::{Platform, join_path, spec_join};
use crate::text::{
    chars_of, find, find_from, find_from_exec, opt_view, push_str, skip_whitespace, string_of_range, trim,
    trim_bounds, trim_start,
};

verus! {

broadcast use vstd::string::group_string_axioms;

/// The npm package this app manages.
pub const PKG: &'static str = "@deepseek-ai/dsh";

/// What an npm run produced: whether it exited successfully, and its
/// (lossily decoded) output streams.
pub struct NpmOutput {
    pub success: bool,
    pub stdout: String,
    pub stderr: String,
}

/// Node, npm and the directory dsh is installed into.
pub struct Runtime {
    pub node: String,
    pub npm_cli: String,
    pub runtime_dir: String,
    pub platform: Platform,
}

/// `<runtime>/node_modules/@deepseek-ai/dsh`.
pub open spec fn spec_pkg_dir(p: Platform, runtime_dir: Seq<char>) -> Seq<char> {
    spec_join(p, spec_join(p, spec_join(p, runtime_dir, "node_modules"@), "@deepseek-ai"@), "dsh"@)
}

/// The installed package's `package.json`.
pub open spec fn spec_pkg_json(p: Platform, runtime_dir: Seq<char>) -> Seq<char> {
    spec_join(p, spec_pkg_dir(p, runtime_dir), "package.json"@)
}

/// The dsh launcher entry point `<pkg>/lib/bin.js`.
pub open spec fn spec_bin_js(p: Platform, runtime_dir: Seq<char>) -> Seq<char> {
    spec_join(p, spec_join(p, spec_pkg_dir(p, runtime_dir), "lib"@), "bin.js"@)
}

/// The JSON string value of `field`: after the first `"field"`, skip to the
/// next `:`, then whitespace; the value is what lies between the following
/// pair of double quotes (no escape handling).
pub open spec fn spec_extract_json_string(text: Seq<char>, field: Seq<char>) -> Option<Seq<char>> {
    let needle = seq!['"'] + field + seq!['"'];
    match find(text, needle) {
        None => None,
        Some(idx) => {
            let after = text.skip(idx + needle.len());
            match find(after, seq![':']) {
                None => None,
                Some(c) => {
                    let value = trim_start(after.skip(c + 1));
                    if value.len() > 0 && value[0] == '"' {
                        let quoted = value.drop_first();
                        match find(quoted, seq!['"']) {
                            None => None,
                            Some(end) => Some(quoted.take(end)),
                        }
                    } else {
                        None
                    }
                },
            }
        },
    }
}

/// Extract a JSON string field's value from a small JSON document.
pub fn extract_json_string(text: &str, field: &str) -> (r: Option<String>)
    ensures
        opt_view(r) == spec_extract_json_string(text@, field@),
{
    let v = chars_of(text);
    let n = v.len();
    let mut needle_s = String::new();
    needle_s.push('"');
    push_str(&mut needle_s, field);
    needle_s.push('"');
    let needle = chars_of(needle_s.as_str());
    proof {
        assert(needle@ =~= seq!['"'] + field@ + seq!['"']);
    }
    let idx = match find_from_exec(&v, &needle, 0) {
        Some(i) => i,
        None => {
            return None;
        },
    };
    let start = idx + needle.len();
    let colon: Vec<char> = vec![':'];
    proof {
        assert(colon@ =~= seq![':']);
    }
    let after = Ghost(v@.skip(start as int));
    // search for ':' in v[start..], shifted back by `start`
    let c_abs = match find_from_exec(&v, &colon, start) {
        Some(c) => c,
        None => {
            proof {
                lemma_find_shift(v@, colon@, start as int);
            }
            return None;
        },
    };
    proof {
        lemma_find_shift(v@, colon@, start as int);
    }
    let vstart = c_abs + 1;
    let a = skip_whitespace(&v, vstart, n);
    proof {
        assert(after@.skip(c_abs - start + 1) =~= v@.subrange(vstart as int, n as int));
    }
    if a == n || v[a] != '"' {
        proof {
            if a < n {
                assert(v@.subrange(a as int, n as int)[0] == v@[a as int]);
            }
        }
        return None;
    }
    let qstart = a + 1;
    let quote: Vec<char> = vec!['"'];
    proof {
        assert(quote@ =~= seq!['"']);
        assert(v@.subrange(a as int, n as int).drop_first() =~= v@.skip(qstart as int));
    }
    let e_abs = match find_from_exec(&v, &quote, qstart) {
        Some(e) => e,
        None => {
            proof {
                lemma_find_shift(v@, quote@, qstart as int);
            }
            return None;
        },
    };
    proof {
        lemma_find_shift(v@, quote@, qstart as int);
        assert(v@.skip(qstart as int).take(e_abs - qstart) =~= v@.subrange(
            qstart as int,
            e_abs as int,
        ));
    }
    Some(string_of_range(&v, qstart, e_abs))
}

/// The argument list of `npm view` for the latest published version.
pub open spec fn spec_view_args() -> Seq<Seq<char>> {
    seq!["view"@, "--fetch-retries=5"@, "--fetch-timeout=120000"@, "@deepseek-ai/dsh"@, "version"@]
}

/// The argument list of `npm install` into `prefix`.
pub open spec fn spec_install_args(prefix: Seq<char>) -> Seq<Seq<char>> {
    seq![
        "install"@,
        "--prefix"@,
        prefix,
        "--no-save"@,
        "--no-audit"@,
        "--no-fund"@,
        "--loglevel=error"@,
        "--fetch-retries=5"@,
        "--fetch-retry-maxtimeout=120000"@,
        "--fetch-timeout=600000"@,
        "@deepseek-ai/dsh@latest"@,
    ]
}

/// The registry npm is pointed at: `DSH_NPM_REGISTRY` when set, else the
/// npmmirror.com mirror.
pub open spec fn spec_registry(override_value: Option<Seq<char>>) -> Seq<char> {
    match override_value {
        Some(r) => r,
        None => "https://registry.npmmirror.com"@,
    }
}

/// How a process is started: the program and its arguments.
pub struct Invocation {
    pub program: String,
    pub args: Vec<String>,
}

/// Appends owned copies of string literals.
fn push_owned(v: &mut Vec<String>, s: &str)
    ensures
        views(final(v)@) == views(old(v)@).push(s@),
{
    let ghost before = v@;
    v.push(s.to_owned());
    proof {
        assert(views(v@) =~= views(before).push(s@));
    }
}

impl Runtime {
    /// A runtime for the detected node and npm, installing into `runtime_dir`.
    pub fn new(node_env: &NodeEnv, runtime_dir: String, platform: Platform) -> (r: Self)
        ensures
            r.node@ == node_env.node@,
            r.npm_cli@ == node_env.npm_cli@,
            r.runtime_dir@ == runtime_dir@,
            r.platform == platform,
    {
        Runtime {
            node: node_env.node.clone(),
            npm_cli: node_env.npm_cli.clone(),
            runtime_dir,
            platform,
        }
    }

    fn pkg_dir(&self) -> (r: String)
        ensures
            r@ == spec_pkg_dir(self.platform, self.runtime_dir@),
    {
        proof {
            reveal_strlit("node_modules");
            reveal_strlit("@deepseek-ai");
            reveal_strlit("dsh");
        }
        let p = self.platform;
        let a = join_path(p, self.runtime_dir.as_str(), "node_modules");
        let b = join_path(p, a.as_str(), "@deepseek-ai");
        join_path(p, b.as_str(), "dsh")
    }

    /// The installed package's `package.json`.
    pub fn pkg_json_path(&self) -> (r: String)
        ensures
            r@ == spec_pkg_json(self.platform, self.runtime_dir@),
    {
        proof {
            reveal_strlit("package.json");
        }
        let d = self.pkg_dir();
        join_path(self.platform, d.as_str(), "package.json")
    }

    /// The dsh launcher entry point once installed.
    pub fn bin_js(&self) -> (r: String)
        ensures
            r@ == spec_bin_js(self.platform, self.runtime_dir@),
    {
        proof {
            reveal_strlit("lib");
            reveal_strlit("bin.js");
        }
        let d = self.pkg_dir();
        let l = join_path(self.platform, d.as_str(), "lib");
        join_path(self.platform, l.as_str(), "bin.js")
    }

    /// The `package.json` that anchors npm's install to `runtime_dir`.
    pub fn anchor_path(&self) -> (r: String)
        ensures
            r@ == spec_join(self.platform, self.runtime_dir@, "package.json"@),
    {
        proof {
            reveal_strlit("package.json");
        }
        join_path(self.platform, self.runtime_dir.as_str(), "package.json")
    }

    /// The installed version recorded in the package's `package.json` text.
    pub fn installed_version(package_json: &str) -> (r: Option<String>)
        ensures
            opt_view(r) == spec_extract_json_string(package_json@, "version"@),
    {
        extract_json_string(package_json, "version")
    }

    /// The latest published version from an `npm view` run: its trimmed
    /// stdout when npm succeeded, else `None` (also when it did not finish).
    pub fn latest_version(output: &Option<NpmOutput>) -> (r: Option<String>)
        ensures
            opt_view(r) == match output {
                Some(o) => if o.success {
                    Some(trim(o.stdout@))
                } else {
                    None
                },
                None => None,
            },
    {
        match output {
            Some(o) => {
                if o.success {
                    let v = chars_of(o.stdout.as_str());
                    let (a, b) = trim_bounds(&v, 0, v.len());
                    proof {
                        assert(v@.subrange(0, v@.len() as int) =~= v@);
                    }
                    Some(string_of_range(&v, a, b))
                } else {
                    None
                }
            },
            None => None,
        }
    }

    /// The arguments of `npm view` that asks for the latest version.
    pub fn view_args() -> (r: Vec<String>)
        ensures
            views(r@) == spec_view_args(),
    {
        let mut v: Vec<String> = Vec::new();
        push_owned(&mut v, "view");
        push_owned(&mut v, "--fetch-retries=5");
        push_owned(&mut v, "--fetch-timeout=120000");
        push_owned(&mut v, PKG);
        push_owned(&mut v, "version");
        proof {
            assert(views(v@) =~= spec_view_args());
        }
        v
    }

    /// The arguments of `npm install` that installs the latest dsh into the
    /// managed runtime directory.
    pub fn install_args(&self) -> (r: Vec<String>)
        ensures
            views(r@) == spec_install_args(self.runtime_dir@),
    {
        let mut v: Vec<String> = Vec::new();
        push_owned(&mut v, "install");
        push_owned(&mut v, "--prefix");
        push_owned(&mut v, self.runtime_dir.as_str());
        push_owned(&mut v, "--no-save");
        push_owned(&mut v, "--no-audit");
        push_owned(&mut v, "--no-fund");
        push_owned(&mut v, "--loglevel=error");
        push_owned(&mut v, "--fetch-retries=5");
        push_owned(&mut v, "--fetch-retry-maxtimeout=120000");
        push_owned(&mut v, "--fetch-timeout=600000");
        let mut spec = PKG.to_owned();
        push_str(&mut spec, "@latest");
        proof {
            reveal_strlit("@deepseek-ai/dsh");
            reveal_strlit("@latest");
            reveal_strlit("@deepseek-ai/dsh@latest");
            assert(spec@ =~= "@deepseek-ai/dsh@latest"@);
        }
        let ghost before = v@;
        v.push(spec);
        proof {
            assert(views(v@) =~= views(before).push(spec@));
            assert(views(v@) =~= spec_install_args(self.runtime_dir@));
        }
        v
    }

    /// How npm is started with `args`: on Windows `node <npm-cli.js> args`
    /// (avoiding npm.cmd quoting), elsewhere `npm args` directly.
    pub fn npm_invocation(&self, args: Vec<String>) -> (r: Invocation)
        ensures
            self.platform == Platform::Windows ==> r.program@ == self.node@ && views(r.args@)
                == seq![self.npm_cli@] + views(args@),
            self.platform != Platform::Windows ==> r.program@ == self.npm_cli@ && views(r.args@)
                == views(args@),
    {
        if self.platform == Platform::Windows {
            let mut all: Vec<String> = Vec::new();
            all.push(self.npm_cli.clone());
            let mut i: usize = 0;
            while i < args.len()
                invariant
                    i <= args@.len(),
                    views(all@) == seq![self.npm_cli@] + views(args@).take(i as int),
                decreases args@.len() - i,
            {
                let ghost before = all@;
                all.push(args[i].clone());
                proof {
                    assert(views(all@) =~= views(before).push(args@[i as int]@));
                    assert(views(args@).take(i + 1) =~= views(args@).take(i as int).push(args@[i as int]@));
                    assert(views(all@) =~= seq![self.npm_cli@] + views(args@).take(i + 1));
                }
                i = i + 1;
            }
            proof {
                assert(views(args@).take(args@.len() as int) =~= views(args@));
            }
            Invocation { program: self.node.clone(), args: all }
        } else {
            Invocation { program: self.npm_cli.clone(), args }
        }
    }

    /// The registry npm is pointed at, given the `DSH_NPM_REGISTRY` override.
    pub fn npm_registry(override_value: Option<String>) -> (r: String)
        ensures
            r@ == spec_registry(opt_view(override_value)),
    {
        match override_value {
            Some(r) => r,
            None => "https://registry.npmmirror.com".to_owned(),
        }
    }

    /// How dsh's profile boot is run once ahead of the first launch:
    /// `node <bin.js> web --help`.
    pub fn prewarm_invocation(&self) -> (r: Invocation)
        ensures
            r.program@ == self.node@,
            views(r.args@) == seq![spec_bin_js(self.platform, self.runtime_dir@), "web"@, "--help"@],
    {
        let mut a: Vec<String> = Vec::new();
        let b = self.bin_js();
        let ghost before = a@;
        a.push(b);
        proof {
            assert(views(a@) =~= views(before).push(b@));
        }
        push_owned(&mut a, "web");
        push_owned(&mut a, "--help");
        proof {
            assert(views(a@) =~= seq![spec_bin_js(self.platform, self.runtime_dir@), "web"@, "--help"@]);
        }
        Invocation { program: self.node.clone(), args: a }
    }

    /// How the web server is started: `node <bin.js> web --port 0`, letting
    /// the system pick a free port that dsh then prints.
    pub fn web_invocation(&self) -> (r: Invocation)
        ensures
            r.program@ == self.node@,
            views(r.args@) == seq![
                spec_bin_js(self.platform, self.runtime_dir@),
                "web"@,
                "--port"@,
                "0"@,
            ],
    {
        let mut a: Vec<String> = Vec::new();
        let b = self.bin_js();
        let ghost before = a@;
        a.push(b);
        proof {
            assert(views(a@) =~= views(before).push(b@));
        }
        push_owned(&mut a, "web");
        push_owned(&mut a, "--port");
        push_owned(&mut a, "0");
        proof {
            assert(views(a@) =~= seq![spec_bin_js(self.platform, self.runtime_dir@), "web"@, "--port"@, "0"@]);
        }
        Invocation { program: self.node.clone(), args: a }
    }
}

/// What polling a running npm (or node) child reported.
#[derive(PartialEq, Eq, Structural, Clone, Copy, Debug)]
pub enum PollOutcome {
    /// It has exited.
    Exited,
    /// It is still running.
    Running,
    /// Its status could not be read.
    Failed,
}

/// What the waiter does after one poll.
#[derive(PartialEq, Eq, Structural, Clone, Copy, Debug)]
pub enum PollDecision {
    /// Take the exit status.
    Finished,
    /// Kill the child, reap it, and give up without a status.
    KillAndStop,
    /// Give up without a status.
    Stop,
    /// Poll again after this many milliseconds.
    Sleep { ms: u64 },
}

/// Decide after one poll: an exited child is done, an unreadable one is
/// given up, and a running one is killed once the timeout has passed and
/// otherwise polled again after 100 ms.
pub fn decide_poll(outcome: PollOutcome, past_timeout: bool) -> (d: PollDecision)
    ensures
        d == match outcome {
            PollOutcome::Exited => PollDecision::Finished,
            PollOutcome::Failed => PollDecision::Stop,
            PollOutcome::Running => if past_timeout {
                PollDecision::KillAndStop
            } else {
                PollDecision::Sleep { ms: 100 }
            },
        },
{
    match outcome {
        PollOutcome::Exited => PollDecision::Finished,
        PollOutcome::Failed => PollDecision::Stop,
        PollOutcome::Running => {
            if past_timeout {
                PollDecision::KillAndStop
            } else {
                PollDecision::Sleep { ms: 100 }
            }
        },
    }
}

/// Nothing before the first occurrence found from `i` is an occurrence.
proof fn lemma_find_from_first(s: Seq<char>, pat: Seq<char>, i: int, k: int)
    requires
        0 <= i <= k,
        find_from(s, pat, i) matches Some(j) && k < j,
    ensures
        s.subrange(k, k + pat.len()) != pat,
    decreases k - i,
{
    if i < k {
        lemma_find_from_first(s, pat, i + 1, k);
    }
}

/// An extracted value never contains a double quote: it ends at the first
/// one after the opening quote.
pub proof fn law_json_value_has_no_quote(text: Seq<char>, field: Seq<char>)
    ensures
        spec_extract_json_string(text, field) matches Some(v) ==> forall|i: int|
            0 <= i < v.len() ==> #[trigger] v[i] != '"',
{
    if let Some(v) = spec_extract_json_string(text, field) {
        let needle = seq!['"'] + field + seq!['"'];
        let idx = find(text, needle).unwrap();
        let after = text.skip(idx + needle.len());
        let c = find(after, seq![':']).unwrap();
        let quoted = trim_start(after.skip(c + 1)).drop_first();
        let end = find(quoted, seq!['"']).unwrap();
        crate::text::lemma_find_from_found(quoted, seq!['"'], 0);
        assert forall|i: int| 0 <= i < v.len() implies #[trigger] v[i] != '"' by {
            lemma_find_from_first(quoted, seq!['"'], 0, i);
            assert(quoted.subrange(i, i + 1) =~= seq![quoted[i]]);
            assert(v[i] == quoted[i]);
        }
    }
}

/// Searching from `start` finds what searching the suffix finds, shifted.
proof fn lemma_find_shift(s: Seq<char>, pat: Seq<char>, start: int)
    requires
        0 <= start <= s.len(),
    ensures
        match crate::text::find_from(s, pat, start) {
            Some(i) => find(s.skip(start), pat) == Some(i - start),
            None => find(s.skip(start), pat) is None,
        },
{
    lemma_find_shift_from(s, pat, start, start);
}

proof fn lemma_find_shift_from(s: Seq<char>, pat: Seq<char>, start: int, i: int)
    requires
        0 <= start <= i,
        start <= s.len(),
    ensures
        match crate::text::find_from(s, pat, i) {
            Some(j) => crate::text::find_from(s.skip(start), pat, i - start) == Some(j - start),
            None => crate::text::find_from(s.skip(start), pat, i - start) is None,
        },
    decreases s.len() + 1 - i,
{
    let t = s.skip(start);
    if i + pat.len() > s.len() {
    } else {
        assert(t.subrange(i - start, i - start + pat.len()) =~= s.subrange(i, i + pat.len()));
        if s.subrange(i, i + pat.len()) == pat {
        } else {
            lemma_find_shift_from(s, pat, start, i + 1);
        }
    }
}

} // verus!
