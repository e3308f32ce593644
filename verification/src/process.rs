//! The decisions around the managed `dsh web` child: reading the URL it
//! prints, retrying a failed start, waiting for readiness, and what to kill
//! at shutdown. Spawning, pipes, timers and signals stay with the caller.

use vstd::prelude::*;
use vstd::string::*;

use crate::text::{
    chars_of, decimal, decimal_string, find, find_from_exec, first_word, is_whitespace, opt_view,
    push_str, skip_whitespace, starts_with, starts_with_exec, string_of_range,
    take_until_whitespace, trim_start, word_end,
};

verus! {

broadcast use vstd::string::group_string_axioms;

/// What dsh prints right before its URL.
pub open spec fn url_marker() -> Seq<char> {
    "dsh web: "@
}

/// The only scheme accepted for the announced URL.
pub open spec fn http_scheme() -> Seq<char> {
    "http://"@
}

/// The URL announced on a line of dsh's output: the first word after the
/// first `"dsh web: "`, provided it starts with `"http://"`.
pub open spec fn spec_parse_url(line: Seq<char>) -> Option<Seq<char>> {
    match find(line, url_marker()) {
        None => None,
        Some(idx) => match first_word(line.skip(idx + url_marker().len())) {
            None => None,
            Some(url) => if starts_with(url, http_scheme()) {
                Some(url)
            } else {
                None
            },
        },
    }
}

/// Extract the loopback URL from dsh's startup line
/// (for example: `dsh web: http://127.0.0.1:62958`).
pub fn parse_url(line: &str) -> (r: Option<String>)
    ensures
        opt_view(r) == spec_parse_url(line@),
{
    let v = chars_of(line);
    let marker = chars_of("dsh web: ");
    let idx = match find_from_exec(&v, &marker, 0) {
        Some(i) => i,
        None => {
            return None;
        },
    };
    let n = v.len();
    let start = idx + marker.len();
    proof {
        assert(v@.subrange(idx as int, idx + marker@.len()) == marker@);
        assert(start <= n);
        assert(v@.skip(start as int) =~= v@.subrange(start as int, n as int));
    }
    let a = skip_whitespace(&v, start, n);
    if a == n {
        proof {
            assert(v@.subrange(a as int, n as int).len() == 0);
        }
        return None;
    }
    let b = word_end(&v, a);
    let word = string_of_range(&v, a, b);
    let scheme = chars_of("http://");
    let wv = chars_of(word.as_str());
    if starts_with_exec(&wv, &scheme) {
        Some(word)
    } else {
        None
    }
}

/// One step of the stdout watcher: with `ready` already set nothing is
/// reported; otherwise the line's URL, if any, is reported and marks the
/// watcher ready.
pub open spec fn spec_watch(ready: bool, line: Seq<char>) -> (bool, Option<Seq<char>>) {
    if ready {
        (true, None)
    } else {
        let u = spec_parse_url(line);
        (u is Some, u)
    }
}

proof fn lemma_word_has_no_whitespace(s: Seq<char>)
    ensures
        forall|i: int|
            0 <= i < take_until_whitespace(s).len() ==> !is_whitespace(
                #[trigger] take_until_whitespace(s)[i],
            ),
        take_until_whitespace(s).len() <= s.len(),
    decreases s.len(),
{
    if s.len() > 0 && !is_whitespace(s[0]) {
        lemma_word_has_no_whitespace(s.drop_first());
        let w = take_until_whitespace(s.drop_first());
        assert forall|i: int| 0 <= i < (seq![s[0]] + w).len() implies !is_whitespace(
            #[trigger] (seq![s[0]] + w)[i],
        ) by {
            if i > 0 {
                assert((seq![s[0]] + w)[i] == w[i - 1]);
            }
        }
    }
}

/// An announced URL is a single word that starts with `http://`.
pub proof fn law_url_is_one_http_word(line: Seq<char>)
    ensures
        spec_parse_url(line) matches Some(url) ==> starts_with(url, http_scheme()) && forall|i: int|
            0 <= i < url.len() ==> !is_whitespace(#[trigger] url[i]),
{
    if let Some(idx) = find(line, url_marker()) {
        let r = trim_start(line.skip(idx + url_marker().len()));
        lemma_word_has_no_whitespace(r);
    }
}

/// Turns the child's stdout lines into at most one ready URL.
pub struct ReadyWatcher {
    ready: bool,
}

impl ReadyWatcher {
    /// Whether a URL has been reported already.
    pub closed spec fn is_ready(self) -> bool {
        self.ready
    }

    /// A watcher that has seen no URL yet.
    pub fn new() -> (w: Self)
        ensures
            !w.is_ready(),
    {
        ReadyWatcher { ready: false }
    }

    /// Feed one line of output; returns the URL to navigate to the first
    /// time a line announces one, and `None` for every other line.
    pub fn on_line(&mut self, line: &str) -> (r: Option<String>)
        ensures
            (final(self).is_ready(), opt_view(r)) == spec_watch(old(self).is_ready(), line@),
    {
        if self.ready {
            return None;
        }
        let r = parse_url(line);
        if r.is_some() {
            self.ready = true;
        }
        r
    }
}

/// The ready URL is reported at most once: after a line that reported one,
/// no later line reports anything, whatever it says.
pub proof fn law_ready_reported_once(ready: bool, first: Seq<char>, later: Seq<char>)
    requires
        spec_watch(ready, first).1 is Some,
    ensures
        spec_watch(spec_watch(ready, first).0, later).1 is None,
{
}

/// A line reports a URL exactly when the watcher was not ready yet and the
/// line announces one.
pub proof fn law_first_announcement_is_reported(line: Seq<char>)
    ensures
        spec_watch(false, line).1 == spec_parse_url(line),
        spec_watch(true, line).1 is None,
{
}

/// The watcher becomes ready exactly when it reports a URL: a line that
/// announces nothing (a blank line, a log line) leaves it as it was.
pub proof fn law_ready_iff_reported(ready: bool, line: Seq<char>)
    ensures
        spec_watch(ready, line).0 == (ready || spec_watch(ready, line).1 is Some),
        spec_watch(ready, line).1 is Some ==> !ready,
{
}

/// Lines that announce no URL do not use up the report: after any such
/// line, the next line's URL is still reported.
pub proof fn law_silent_line_keeps_waiting(first: Seq<char>, later: Seq<char>)
    requires
        spec_parse_url(first) is None,
    ensures
        spec_watch(false, first).1 is None,
        spec_watch(spec_watch(false, first).0, later).1 == spec_parse_url(later),
{
}

/// What to do with the managed child when the window closes.
#[derive(PartialEq, Eq, Structural, Clone, Copy, Debug)]
pub enum CleanupAction {
    /// No child was ever spawned.
    Nothing,
    /// Kill the whole process tree through the job / process group.
    KillTree { pid: u32 },
    /// The child is not in the job: kill it (and its tree) directly.
    KillProcess { pid: u32 },
}

/// How long a relaunch marker keeps the app from relaunching again.
pub const RELAUNCH_GUARD_SECS: u64 = 60;

/// Whether a process started under endpoint-security markers (`EFC_*`
/// variables) should relaunch itself through Explorer: only when marked,
/// and only when no relaunch marker was written in the last
/// [`RELAUNCH_GUARD_SECS`] seconds (`guard_age_secs` is `None` when the
/// marker is missing or its age cannot be read).
pub fn relaunch_needed(marked: bool, guard_age_secs: Option<u64>) -> (r: bool)
    ensures
        r == (marked && !(guard_age_secs matches Some(a) && a < RELAUNCH_GUARD_SECS)),
{
    let recent = match guard_age_secs {
        Some(a) => a < RELAUNCH_GUARD_SECS,
        None => false,
    };
    marked && !recent
}

/// Bookkeeping for the managed child, read at shutdown.
pub struct ProcessState {
    pub pid: Option<u32>,
    pub assigned: bool,
}

/// The shutdown decision for a recorded child.
pub open spec fn spec_cleanup(pid: Option<u32>, assigned: bool) -> CleanupAction {
    match pid {
        None => CleanupAction::Nothing,
        Some(p) => if assigned {
            CleanupAction::KillTree { pid: p }
        } else {
            CleanupAction::KillProcess { pid: p }
        },
    }
}

impl ProcessState {
    /// No child recorded, not assigned to the job.
    pub fn new() -> (s: Self)
        ensures
            s.pid is None,
            !s.assigned,
    {
        ProcessState { pid: None, assigned: false }
    }

    /// Record a freshly spawned child; whether it joined the job is
    /// recorded separately, once the job has been asked.
    pub fn record_pid(&mut self, pid: u32)
        ensures
            final(self).pid == Some(pid),
            final(self).assigned == old(self).assigned,
    {
        self.pid = Some(pid);
    }

    /// Record whether the child joined the job.
    pub fn record_assignment(&mut self, assigned: bool)
        ensures
            final(self).pid == old(self).pid,
            final(self).assigned == assigned,
    {
        self.assigned = assigned;
    }

    /// What the window's close handler must kill.
    pub fn cleanup_action(&self) -> (a: CleanupAction)
        ensures
            a == spec_cleanup(self.pid, self.assigned),
    {
        match self.pid {
            None => CleanupAction::Nothing,
            Some(p) => if self.assigned {
                CleanupAction::KillTree { pid: p }
            } else {
                CleanupAction::KillProcess { pid: p }
            },
        }
    }
}

/// Shutdown kills the child that was recorded, by the route its job
/// assignment allows; with nothing recorded it kills nothing.
pub proof fn law_cleanup_targets_recorded_child(pid: u32, assigned: bool)
    ensures
        spec_cleanup(None, assigned) == CleanupAction::Nothing,
        assigned ==> spec_cleanup(Some(pid), assigned) == (CleanupAction::KillTree { pid }),
        !assigned ==> spec_cleanup(Some(pid), assigned) == (CleanupAction::KillProcess { pid }),
{
}

/// The `kill(2)` target that names the process group `pid` leads:
/// `-(pid as i32)`.
pub open spec fn spec_group_target(pid: u32) -> int {
    if pid < 0x8000_0000 {
        -(pid as int)
    } else {
        0x1_0000_0000 - pid
    }
}

/// The signal target for the process group led by `pid`. The cast wraps like
/// `as i32`; the one pid whose negation overflows is excluded.
pub fn group_kill_target(pid: u32) -> (t: i32)
    requires
        pid != 0x8000_0000,
    ensures
        t as int == spec_group_target(pid),
{
    if pid < 0x8000_0000 {
        let p = pid as i32;
        -p
    } else {
        let back = (0xFFFF_FFFFu32 - pid) as i32;
        back + 1
    }
}

// ---------------------------------------------------------------------------
// Start-up retries
// ---------------------------------------------------------------------------

/// How many times `dsh web` is started before giving up.
pub const MAX_ATTEMPTS: u32 = 6;

/// How one start attempt is carried out.
#[derive(PartialEq, Eq, Structural, Clone, Copy, Debug)]
pub struct AttemptPlan {
    /// Zero-based attempt number.
    pub attempt: u32,
    /// Remove the profile fallback directory before starting.
    pub wipe_profile: bool,
    /// Pause before starting, in milliseconds.
    pub backoff_ms: u64,
    /// How long to wait for the URL, in seconds.
    pub wait_secs: u64,
}

/// The plan for attempt number `attempt`: the first one waits long (a fresh
/// install may boot for minutes), retries wipe the profile junctions, back
/// off, and wait short.
pub open spec fn spec_plan(attempt: u32) -> AttemptPlan {
    if attempt == 0 {
        AttemptPlan { attempt, wipe_profile: false, backoff_ms: 0, wait_secs: 180 }
    } else {
        AttemptPlan { attempt, wipe_profile: true, backoff_ms: 8000, wait_secs: 30 }
    }
}

/// The message when every attempt failed without a recorded error.
pub open spec fn gave_up_message() -> Seq<char> {
    "dsh web failed to start after retries"@
}

/// The retry loop of `spawn_dsh`: which attempt comes next and which error is
/// reported once they are used up.
pub struct SpawnRetry {
    attempts: u32,
    last_error: Option<String>,
}

impl SpawnRetry {
    /// Attempts made so far.
    pub closed spec fn attempts(self) -> nat {
        self.attempts as nat
    }

    /// The error of the latest failed attempt.
    pub closed spec fn last_error(self) -> Option<Seq<char>> {
        opt_view(self.last_error)
    }

    /// No attempt made yet.
    pub fn new() -> (r: Self)
        ensures
            r.attempts() == 0,
            r.last_error() is None,
    {
        SpawnRetry { attempts: 0, last_error: None }
    }

    /// The next attempt to make, or `None` once `MAX_ATTEMPTS` have failed.
    pub fn next_attempt(&self) -> (p: Option<AttemptPlan>)
        ensures
            p == spec_next_attempt(self.attempts()),
    {
        if self.attempts >= MAX_ATTEMPTS {
            return None;
        }
        let a = self.attempts;
        if a == 0 {
            Some(AttemptPlan { attempt: a, wipe_profile: false, backoff_ms: 0, wait_secs: 180 })
        } else {
            Some(AttemptPlan { attempt: a, wipe_profile: true, backoff_ms: 8000, wait_secs: 30 })
        }
    }

    /// Record that the attempt just planned failed with `error`.
    pub fn record_failure(&mut self, error: String)
        requires
            old(self).attempts() < MAX_ATTEMPTS,
        ensures
            final(self).attempts() == old(self).attempts() + 1,
            final(self).last_error() == Some(error@),
    {
        self.attempts = self.attempts + 1;
        self.last_error = Some(error);
    }

    /// The error reported once every attempt failed: the last one seen.
    pub fn final_error(self) -> (e: String)
        ensures
            e@ == match self.last_error() {
                Some(m) => m,
                None => gave_up_message(),
            },
    {
        match self.last_error {
            Some(m) => m,
            None => "dsh web failed to start after retries".to_owned(),
        }
    }
}

/// The attempt that follows `k` failed ones.
pub open spec fn spec_next_attempt(k: nat) -> Option<AttemptPlan> {
    if k < MAX_ATTEMPTS {
        Some(spec_plan(k as u32))
    } else {
        None
    }
}

/// Repeated failures make exactly `MAX_ATTEMPTS` attempts, numbered in order:
/// only the first skips the profile wipe and the back-off and waits long.
pub proof fn law_retry_budget(k: nat)
    ensures
        spec_next_attempt(k) is Some <==> k < 6,
        spec_next_attempt(k) matches Some(p) ==> p.attempt == k && p.wipe_profile == (k > 0)
            && p.backoff_ms == (if k == 0 { 0u64 } else { 8000u64 }) && p.wait_secs == (if k
            == 0 { 180u64 } else { 30u64 }),
{
}

// ---------------------------------------------------------------------------
// Waiting for the URL
// ---------------------------------------------------------------------------

/// What one bounded wait for the ready signal returned.
#[derive(PartialEq, Eq, Structural, Clone, Copy, Debug)]
pub enum WaitOutcome {
    /// The stdout reader saw the URL.
    Ready,
    /// stdout reached end of file: the child exited before printing it.
    Exited,
    /// The slice elapsed with neither.
    Timeout,
}

/// What the waiter does after one slice.
pub enum WaitDecision {
    /// The child is up.
    Started { pid: u32 },
    /// Kill the tree and fail with this message.
    Fail { pid: u32, message: String },
    /// Wait another slice.
    KeepWaiting,
}

/// The failure message for an exit before the URL.
pub open spec fn exited_message() -> Seq<char> {
    "dsh web exited before printing its URL"@
}

/// The failure message for a start that outlived its wait.
pub open spec fn timeout_message(wait_secs: u64) -> Seq<char> {
    "dsh web did not print its URL within "@ + decimal(wait_secs as nat) + " seconds"@
}

/// Decide after one slice of waiting.
pub fn decide_wait(outcome: WaitOutcome, deadline_passed: bool, pid: u32, wait_secs: u64) -> (d:
    WaitDecision)
    ensures
        outcome == WaitOutcome::Ready ==> d == (WaitDecision::Started { pid }),
        outcome == WaitOutcome::Exited ==> (d matches WaitDecision::Fail { pid: p, message: m }
            && p == pid && m@ == exited_message()),
        outcome == WaitOutcome::Timeout && deadline_passed ==> (d matches WaitDecision::Fail {
            pid: p,
            message: m,
        } && p == pid && m@ == timeout_message(wait_secs)),
        outcome == WaitOutcome::Timeout && !deadline_passed ==> d is KeepWaiting,
{
    match outcome {
        WaitOutcome::Ready => WaitDecision::Started { pid },
        WaitOutcome::Exited => WaitDecision::Fail {
            pid,
            message: "dsh web exited before printing its URL".to_owned(),
        },
        WaitOutcome::Timeout => {
            if deadline_passed {
                let mut m = "dsh web did not print its URL within ".to_owned();
                let secs = decimal_string(wait_secs);
                push_str(&mut m, secs.as_str());
                push_str(&mut m, " seconds");
                WaitDecision::Fail { pid, message: m }
            } else {
                WaitDecision::KeepWaiting
            }
        },
    }
}

/// The length of the next wait slice: the time left, but at most five
/// seconds (in nanoseconds).
pub fn wait_slice_nanos(remaining_nanos: u128) -> (s: u64)
    ensures
        s as int == if remaining_nanos < 5_000_000_000 {
            remaining_nanos as int
        } else {
            5_000_000_000
        },
{
    if remaining_nanos < 5_000_000_000 {
        remaining_nanos as u64
    } else {
        5_000_000_000
    }
}

} // verus!
