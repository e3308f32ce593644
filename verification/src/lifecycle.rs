//! The background controller: detect Node.js, install or upgrade dsh, start
//! the web server, and react to the buttons of the initialization screen.
//!
//! The controller is a state machine. The caller performs each [`Effect`]
//! (probing the disk, running npm, spawning, waiting for a button) and feeds
//! its outcome back as an [`Event`]; [`Controller::step`] decides the next
//! status to show and the next effect.

use vstd::prelude::*;
use vstd::string::*;

use crate::events::Command;
use crate::node::views;
use crate::runtime::NpmOutput;
use crate::text::{
    byte_len, char_width, chars_of, opt_view, push_range, push_str, string_of_range,
    suffix_within, trim, trim_bounds, utf8_width,
};

verus! {

broadcast use vstd::string::group_string_axioms;

// ---------------------------------------------------------------------------
// Shortening long output
// ---------------------------------------------------------------------------

/// `tail` can cut `s` to `max` bytes: the trimmed text fits already, or
/// dropping leading characters reaches exactly `max` bytes (the cut falls on
/// a character boundary).
pub open spec fn tail_defined(s: Seq<char>, max: nat) -> bool {
    let t = trim(s);
    byte_len(t) <= max || byte_len(suffix_within(t, max)) == max
}

/// The trimmed text, or `…` followed by its last `max` bytes.
pub open spec fn spec_tail(s: Seq<char>, max: nat) -> Seq<char> {
    let t = trim(s);
    if byte_len(t) <= max {
        t
    } else {
        seq!['…'] + suffix_within(t, max)
    }
}

proof fn lemma_byte_len_step(v: Seq<char>, i: int, b: int)
    requires
        0 <= i < b <= v.len(),
    ensures
        byte_len(v.subrange(i, b)) == utf8_width(v[i]) + byte_len(v.subrange(i + 1, b)),
{
    let s = v.subrange(i, b);
    assert(s.drop_first() =~= v.subrange(i + 1, b));
}

/// The total UTF-8 length of `v[a..b]`.
fn byte_len_range(v: &Vec<char>, a: usize, b: usize) -> (n: u128)
    requires
        a <= b <= v@.len(),
    ensures
        n == byte_len(v@.subrange(a as int, b as int)),
{
    let mut j = b;
    let mut total: u128 = 0;
    proof {
        assert(v@.subrange(b as int, b as int).len() == 0);
    }
    while j > a
        invariant
            a <= j <= b <= v@.len(),
            total == byte_len(v@.subrange(j as int, b as int)),
            total <= 4 * (b - j),
        decreases j - a,
    {
        proof {
            lemma_byte_len_step(v@, j - 1, b as int);
        }
        let w = char_width(v[j - 1]);
        total = total + w as u128;
        j = j - 1;
    }
    total
}

/// Whether `tail(s, max)` is defined.
pub fn tail_cut_ok(s: &str, max: usize) -> (ok: bool)
    ensures
        ok == tail_defined(s@, max as nat),
{
    let v = chars_of(s);
    let (a, b) = trim_bounds(&v, 0, v.len());
    proof {
        assert(v@.subrange(0, v@.len() as int) =~= v@);
    }
    let (_, rem) = cut_point(&v, a, b, max);
    rem == max as u128 || byte_len_range(&v, a, b) <= max as u128
}

/// Drop leading characters of `v[a..b]` while more than `max` bytes remain;
/// returns where that stops and how many bytes are left.
fn cut_point(v: &Vec<char>, a: usize, b: usize, max: usize) -> (r: (usize, u128))
    requires
        a <= b <= v@.len(),
    ensures
        a <= r.0 <= b,
        suffix_within(v@.subrange(a as int, b as int), max as nat) == v@.subrange(
            r.0 as int,
            b as int,
        ),
        r.1 == byte_len(v@.subrange(r.0 as int, b as int)),
{
    let mut i = a;
    let mut rem = byte_len_range(v, a, b);
    while rem > max as u128
        invariant
            a <= i <= b <= v@.len(),
            rem == byte_len(v@.subrange(i as int, b as int)),
            suffix_within(v@.subrange(a as int, b as int), max as nat) == suffix_within(
                v@.subrange(i as int, b as int),
                max as nat,
            ),
        decreases b - i,
    {
        proof {
            if i == b {
                assert(v@.subrange(i as int, b as int).len() == 0);
            }
            lemma_byte_len_step(v@, i as int, b as int);
            assert(v@.subrange(i as int, b as int).drop_first() =~= v@.subrange(i + 1, b as int));
        }
        let w = char_width(v[i]);
        rem = rem - w as u128;
        i = i + 1;
    }
    proof {
        let s = v@.subrange(i as int, b as int);
        assert(!(s.len() > 0 && byte_len(s) > max));
    }
    (i, rem)
}

/// The trimmed `s`, shortened to its last `max` bytes behind an ellipsis
/// when longer.
pub fn tail(s: &str, max: usize) -> (r: String)
    requires
        tail_defined(s@, max as nat),
    ensures
        r@ == spec_tail(s@, max as nat),
{
    let v = chars_of(s);
    let (a, b) = trim_bounds(&v, 0, v.len());
    proof {
        assert(v@.subrange(0, v@.len() as int) =~= v@);
    }
    let total = byte_len_range(&v, a, b);
    if total <= max as u128 {
        string_of_range(&v, a, b)
    } else {
        let (i, _rem) = cut_point(&v, a, b, max);
        let mut out = String::new();
        out.push('…');
        push_range(&mut out, &v, i, b);
        proof {
            assert(out@ =~= seq!['…'] + v@.subrange(i as int, b as int));
        }
        out
    }
}

// ---------------------------------------------------------------------------
// Statuses, effects, events
// ---------------------------------------------------------------------------

/// A status for the initialization screen: a title, a detail text, and the
/// buttons to offer (`"retry"`, `"upgrade"`, `"skip"`).
pub struct Status {
    pub title: String,
    pub detail: String,
    pub actions: Vec<String>,
}

/// The view of a [`Status`].
#[verifier::ext_equal]
pub struct StatusView {
    pub title: Seq<char>,
    pub detail: Seq<char>,
    pub actions: Seq<Seq<char>>,
}

impl View for Status {
    type V = StatusView;

    open spec fn view(&self) -> StatusView {
        StatusView { title: self.title@, detail: self.detail@, actions: views(self.actions@) }
    }
}

/// The work the caller carries out next.
#[derive(PartialEq, Eq, Structural, Clone, Copy, Debug)]
pub enum Effect {
    /// Look for node and npm.
    DetectNode,
    /// Read the installed version and check that the launcher is on disk.
    ProbeInstall,
    /// Install the latest dsh (logging to `install.log`), then probe again.
    Install,
    /// Ask the registry for the latest version.
    CheckLatest,
    /// Install the latest dsh over the current one (logging to `upgrade.log`).
    Upgrade,
    /// Start `dsh web`.
    Spawn,
    /// Wait for the next button press.
    AwaitCommand,
    /// Stop the controller.
    Exit,
}

/// What one step decided: an optional status to show, then an effect.
pub struct Step {
    pub status: Option<Status>,
    pub effect: Effect,
}

/// The view of a [`Step`].
#[verifier::ext_equal]
pub struct StepView {
    pub status: Option<StatusView>,
    pub effect: Effect,
}

impl View for Step {
    type V = StepView;

    open spec fn view(&self) -> StepView {
        StepView {
            status: match self.status {
                Some(s) => Some(s@),
                None => None,
            },
            effect: self.effect,
        }
    }
}

/// The outcome of an effect, as reported by the caller.
pub enum Event {
    /// The controller was started.
    Begin,
    /// Node detection finished.
    NodeDetected { found: bool },
    /// The install probe finished.
    InstallProbed { installed_version: Option<String>, is_installed: bool },
    /// An install finished (`output` is `None` when npm could not be run or
    /// timed out), followed by a fresh probe.
    InstallFinished { output: Option<NpmOutput>, installed_version: Option<String>, is_installed: bool },
    /// The registry query finished.
    LatestVersion { latest: Option<String> },
    /// The upgrade finished, whatever its outcome.
    UpgradeFinished,
    /// Starting `dsh web` finished; `error` describes a failure.
    SpawnFinished { error: Option<String> },
    /// A button was pressed, or the UI went away (`None`).
    UserCommand { command: Option<Command> },
}

/// The view of an [`NpmOutput`].
#[verifier::ext_equal]
pub struct NpmOutputView {
    pub success: bool,
    pub stdout: Seq<char>,
    pub stderr: Seq<char>,
}

/// The view of an [`Event`].
#[verifier::ext_equal]
pub enum EventView {
    Begin,
    NodeDetected { found: bool },
    InstallProbed { installed_version: Option<Seq<char>>, is_installed: bool },
    InstallFinished {
        output: Option<NpmOutputView>,
        installed_version: Option<Seq<char>>,
        is_installed: bool,
    },
    LatestVersion { latest: Option<Seq<char>> },
    UpgradeFinished,
    SpawnFinished { error: Option<Seq<char>> },
    UserCommand { command: Option<Command> },
}

impl View for Event {
    type V = EventView;

    open spec fn view(&self) -> EventView {
        match self {
            Event::Begin => EventView::Begin,
            Event::NodeDetected { found } => EventView::NodeDetected { found: *found },
            Event::InstallProbed { installed_version, is_installed } => EventView::InstallProbed {
                installed_version: opt_view(*installed_version),
                is_installed: *is_installed,
            },
            Event::InstallFinished { output, installed_version, is_installed } =>
                EventView::InstallFinished {
                output: match output {
                    Some(o) => Some(
                        NpmOutputView { success: o.success, stdout: o.stdout@, stderr: o.stderr@ },
                    ),
                    None => None,
                },
                installed_version: opt_view(*installed_version),
                is_installed: *is_installed,
            },
            Event::LatestVersion { latest } => EventView::LatestVersion { latest: opt_view(*latest) },
            Event::UpgradeFinished => EventView::UpgradeFinished,
            Event::SpawnFinished { error } => EventView::SpawnFinished { error: opt_view(*error) },
            Event::UserCommand { command } => EventView::UserCommand { command: *command },
        }
    }
}

/// Where the controller stands: which effect's outcome it is waiting for.
pub enum Phase {
    /// Not started.
    Start,
    DetectingNode,
    ProbingInstall,
    Installing,
    /// Asking for the latest version; `current` is the installed one.
    CheckingUpdate { current: String },
    /// Offering the upgrade to `latest`.
    ChoosingUpgrade { latest: String },
    Upgrading,
    Spawning,
    /// dsh is running; a "retry" restarts from detection.
    Running,
    /// A failure is shown with a "retry" button.
    AwaitingRetry,
    /// The controller has stopped.
    Stopped,
}

/// The view of a [`Phase`].
#[verifier::ext_equal]
pub enum PhaseView {
    Start,
    DetectingNode,
    ProbingInstall,
    Installing,
    CheckingUpdate { current: Seq<char> },
    ChoosingUpgrade { latest: Seq<char> },
    Upgrading,
    Spawning,
    Running,
    AwaitingRetry,
    Stopped,
}

impl View for Phase {
    type V = PhaseView;

    open spec fn view(&self) -> PhaseView {
        match self {
            Phase::Start => PhaseView::Start,
            Phase::DetectingNode => PhaseView::DetectingNode,
            Phase::ProbingInstall => PhaseView::ProbingInstall,
            Phase::Installing => PhaseView::Installing,
            Phase::CheckingUpdate { current } => PhaseView::CheckingUpdate { current: current@ },
            Phase::ChoosingUpgrade { latest } => PhaseView::ChoosingUpgrade { latest: latest@ },
            Phase::Upgrading => PhaseView::Upgrading,
            Phase::Spawning => PhaseView::Spawning,
            Phase::Running => PhaseView::Running,
            Phase::AwaitingRetry => PhaseView::AwaitingRetry,
            Phase::Stopped => PhaseView::Stopped,
        }
    }
}

// ---------------------------------------------------------------------------
// The texts of the initialization screen
// ---------------------------------------------------------------------------

/// A status with the given texts.
pub open spec fn status(title: Seq<char>, detail: Seq<char>, actions: Seq<Seq<char>>) -> StatusView {
    StatusView { title, detail, actions }
}

/// The single "retry" button.
pub open spec fn retry_only() -> Seq<Seq<char>> {
    seq!["retry"@]
}

/// "Upgrade now" and "skip".
pub open spec fn upgrade_or_skip() -> Seq<Seq<char>> {
    seq!["upgrade"@, "skip"@]
}

pub open spec fn detecting_status() -> StatusView {
    status("正在检测 Node.js…"@, ""@, Seq::empty())
}

pub open spec fn no_node_status() -> StatusView {
    status(
        "未检测到 Node.js"@,
        "DSH 需要 Node.js 才能运行。请先安装 Node.js（建议 LTS），并确保 node 已加入 PATH，然后点击重试。"@,
        retry_only(),
    )
}

pub open spec fn installing_status() -> StatusView {
    status("首次安装 @deepseek-ai/dsh…"@, "正在下载并安装，可能需要一两分钟，请稍候。"@, Seq::empty())
}

/// The npm output shown when an install failed: stderr, unless it is blank.
pub open spec fn failure_text(o: NpmOutputView) -> Seq<char> {
    if trim(o.stderr).len() == 0 {
        o.stdout
    } else {
        o.stderr
    }
}

/// The bytes of npm output shown after an install failure.
pub open spec fn failure_tail_bytes() -> nat {
    2000
}

pub open spec fn install_failed_detail(output: Option<NpmOutputView>) -> Seq<char> {
    match output {
        Some(o) => "npm 安装失败：\n"@ + spec_tail(failure_text(o), failure_tail_bytes()),
        None => "安装超时或未完成，请检查网络后重试。"@,
    }
}

pub open spec fn install_failed_status(output: Option<NpmOutputView>) -> StatusView {
    status("安装失败"@, install_failed_detail(output), retry_only())
}

/// The version shown when none could be read.
pub open spec fn unknown_version() -> Seq<char> {
    "未知"@
}

pub open spec fn checking_status() -> StatusView {
    status("正在检测更新…"@, ""@, Seq::empty())
}

pub open spec fn new_version_status(current: Seq<char>, latest: Seq<char>) -> StatusView {
    status(
        "发现新版本"@,
        "当前版本："@ + current + "，最新版本："@ + latest + "。"@,
        upgrade_or_skip(),
    )
}

pub open spec fn upgrading_status(latest: Seq<char>) -> StatusView {
    status("正在升级…"@, "正在升级到 "@ + latest + "，请稍候。"@, Seq::empty())
}

pub open spec fn starting_status() -> StatusView {
    status("正在启动 DSH…"@, ""@, Seq::empty())
}

pub open spec fn start_failed_status(error: Seq<char>) -> StatusView {
    status("启动失败"@, "无法启动 dsh web："@ + error, retry_only())
}

// ---------------------------------------------------------------------------
// The transition function
// ---------------------------------------------------------------------------

/// A step: the next phase, a status to show, and an effect.
pub open spec fn go(phase: PhaseView, s: Option<StatusView>, effect: Effect) -> Option<
    (PhaseView, StepView),
> {
    Some((phase, StepView { status: s, effect }))
}

/// After an install check that found dsh: ask for updates, remembering the
/// installed version (or "unknown").
pub open spec fn after_installed(installed_version: Option<Seq<char>>) -> Option<
    (PhaseView, StepView),
> {
    let current = match installed_version {
        Some(v) => v,
        None => unknown_version(),
    };
    go(PhaseView::CheckingUpdate { current }, Some(checking_status()), Effect::CheckLatest)
}

/// The controller's transition function. `None` means the event does not
/// answer the effect the phase is waiting for; the phase stays as it is.
pub open spec fn spec_next(phase: PhaseView, event: EventView) -> Option<(PhaseView, StepView)> {
    match (phase, event) {
        (PhaseView::Start, EventView::Begin) => go(
            PhaseView::DetectingNode,
            Some(detecting_status()),
            Effect::DetectNode,
        ),
        (PhaseView::DetectingNode, EventView::NodeDetected { found }) => if found {
            go(PhaseView::ProbingInstall, None, Effect::ProbeInstall)
        } else {
            go(PhaseView::AwaitingRetry, Some(no_node_status()), Effect::AwaitCommand)
        },
        (PhaseView::ProbingInstall, EventView::InstallProbed { installed_version, is_installed }) =>
            if is_installed {
            after_installed(installed_version)
        } else {
            go(PhaseView::Installing, Some(installing_status()), Effect::Install)
        },
        (
            PhaseView::Installing,
            EventView::InstallFinished { output, installed_version, is_installed },
        ) => if is_installed {
            after_installed(installed_version)
        } else {
            go(PhaseView::AwaitingRetry, Some(install_failed_status(output)), Effect::AwaitCommand)
        },
        (PhaseView::CheckingUpdate { current }, EventView::LatestVersion { latest }) => match latest {
            Some(l) => if l != current {
                go(
                    PhaseView::ChoosingUpgrade { latest: l },
                    Some(new_version_status(current, l)),
                    Effect::AwaitCommand,
                )
            } else {
                go(PhaseView::Spawning, Some(starting_status()), Effect::Spawn)
            },
            None => go(PhaseView::Spawning, Some(starting_status()), Effect::Spawn),
        },
        (PhaseView::ChoosingUpgrade { latest }, EventView::UserCommand { command }) => match command {
            Some(Command::Upgrade) => go(
                PhaseView::Upgrading,
                Some(upgrading_status(latest)),
                Effect::Upgrade,
            ),
            Some(Command::SkipUpdate) => go(
                PhaseView::Spawning,
                Some(starting_status()),
                Effect::Spawn,
            ),
            _ => go(PhaseView::Stopped, None, Effect::Exit),
        },
        (PhaseView::Upgrading, EventView::UpgradeFinished) => go(
            PhaseView::Spawning,
            Some(starting_status()),
            Effect::Spawn,
        ),
        (PhaseView::Spawning, EventView::SpawnFinished { error }) => match error {
            None => go(PhaseView::Running, None, Effect::AwaitCommand),
            Some(e) => go(
                PhaseView::AwaitingRetry,
                Some(start_failed_status(e)),
                Effect::AwaitCommand,
            ),
        },
        (PhaseView::Running, EventView::UserCommand { command }) => retry_or_stop(command),
        (PhaseView::AwaitingRetry, EventView::UserCommand { command }) => retry_or_stop(command),
        _ => None,
    }
}

/// "retry" starts over from node detection; anything else, including the UI
/// going away, stops the controller.
pub open spec fn retry_or_stop(command: Option<Command>) -> Option<(PhaseView, StepView)> {
    if command == Some(Command::Retry) {
        go(PhaseView::DetectingNode, Some(detecting_status()), Effect::DetectNode)
    } else {
        go(PhaseView::Stopped, None, Effect::Exit)
    }
}

/// The one transition that cannot be taken: an install failure whose npm
/// output cannot be shortened on a character boundary.
pub open spec fn spec_step_panics(phase: PhaseView, event: EventView) -> bool {
    match (phase, event) {
        (PhaseView::Installing, EventView::InstallFinished { output, is_installed, .. }) => {
            &&& !is_installed
            &&& output matches Some(o)
            &&& !tail_defined(failure_text(o), failure_tail_bytes())
        },
        _ => false,
    }
}

// ---------------------------------------------------------------------------
// The controller
// ---------------------------------------------------------------------------

fn owned_list(items: &[&str]) -> (v: Vec<String>)
    ensures
        views(v@) == items@.map_values(|s: &str| s@),
{
    let mut v: Vec<String> = Vec::new();
    let mut i: usize = 0;
    while i < items.len()
        invariant
            i <= items@.len(),
            views(v@) == items@.take(i as int).map_values(|s: &str| s@),
        decreases items@.len() - i,
    {
        let ghost before = v@;
        v.push(items[i].to_owned());
        proof {
            assert(views(v@) =~= views(before).push(items@[i as int]@));
            assert(items@.take(i + 1).map_values(|s: &str| s@) =~= items@.take(i as int).map_values(
                |s: &str| s@,
            ).push(items@[i as int]@));
        }
        i = i + 1;
    }
    proof {
        assert(items@.take(items@.len() as int) =~= items@);
    }
    v
}

fn no_actions() -> (v: Vec<String>)
    ensures
        views(v@) == Seq::<Seq<char>>::empty(),
{
    let v: Vec<String> = Vec::new();
    proof {
        assert(views(v@) =~= Seq::<Seq<char>>::empty());
    }
    v
}

fn retry_actions() -> (v: Vec<String>)
    ensures
        views(v@) == retry_only(),
{
    let v = owned_list(&["retry"]);
    proof {
        assert(views(v@) =~= retry_only());
    }
    v
}

fn upgrade_actions() -> (v: Vec<String>)
    ensures
        views(v@) == upgrade_or_skip(),
{
    let v = owned_list(&["upgrade", "skip"]);
    proof {
        assert(views(v@) =~= upgrade_or_skip());
    }
    v
}

fn simple_status(title: &str) -> (s: Status)
    ensures
        s@ == status(title@, ""@, Seq::empty()),
{
    Status { title: title.to_owned(), detail: "".to_owned(), actions: no_actions() }
}

fn detecting() -> (s: Status)
    ensures
        s@ == detecting_status(),
{
    simple_status("正在检测 Node.js…")
}

fn starting() -> (s: Status)
    ensures
        s@ == starting_status(),
{
    simple_status("正在启动 DSH…")
}

fn checking() -> (s: Status)
    ensures
        s@ == checking_status(),
{
    simple_status("正在检测更新…")
}

/// The installed version, or "unknown".
fn current_version(installed_version: Option<String>) -> (c: String)
    ensures
        c@ == match opt_view(installed_version) {
            Some(v) => v,
            None => unknown_version(),
        },
{
    match installed_version {
        Some(v) => v,
        None => "未知".to_owned(),
    }
}

fn install_failed(output: Option<NpmOutput>) -> (s: Status)
    requires
        output matches Some(o) ==> tail_defined(
            failure_text(NpmOutputView { success: o.success, stdout: o.stdout@, stderr: o.stderr@ }),
            failure_tail_bytes(),
        ),
    ensures
        s@ == install_failed_status(
            match output {
                Some(o) => Some(
                    NpmOutputView { success: o.success, stdout: o.stdout@, stderr: o.stderr@ },
                ),
                None => None,
            },
        ),
{
    let detail = match output {
        Some(o) => {
            let text = failure_text_exec(&o);
            let mut d = "npm 安装失败：\n".to_owned();
            let t = tail(text.as_str(), 2000);
            push_str(&mut d, t.as_str());
            d
        },
        None => "安装超时或未完成，请检查网络后重试。".to_owned(),
    };
    Status { title: "安装失败".to_owned(), detail, actions: retry_actions() }
}

fn failure_text_exec(o: &NpmOutput) -> (t: String)
    ensures
        t@ == failure_text(NpmOutputView { success: o.success, stdout: o.stdout@, stderr: o.stderr@ }),
{
    let v = chars_of(o.stderr.as_str());
    let (a, b) = trim_bounds(&v, 0, v.len());
    proof {
        assert(v@.subrange(0, v@.len() as int) =~= v@);
    }
    if a == b {
        o.stdout.clone()
    } else {
        o.stderr.clone()
    }
}

/// Whether the failure detail of `output` can be built.
fn failure_detail_defined(output: &Option<NpmOutput>) -> (ok: bool)
    ensures
        ok == (output matches Some(o) ==> tail_defined(
            failure_text(NpmOutputView { success: o.success, stdout: o.stdout@, stderr: o.stderr@ }),
            failure_tail_bytes(),
        )),
{
    match output {
        Some(o) => {
            let t = failure_text_exec(o);
            tail_cut_ok(t.as_str(), 2000)
        },
        None => true,
    }
}

fn new_version(current: &String, latest: &String) -> (s: Status)
    ensures
        s@ == new_version_status(current@, latest@),
{
    let mut d = "当前版本：".to_owned();
    push_str(&mut d, current.as_str());
    push_str(&mut d, "，最新版本：");
    push_str(&mut d, latest.as_str());
    push_str(&mut d, "。");
    Status { title: "发现新版本".to_owned(), detail: d, actions: upgrade_actions() }
}

fn upgrading(latest: &String) -> (s: Status)
    ensures
        s@ == upgrading_status(latest@),
{
    let mut d = "正在升级到 ".to_owned();
    push_str(&mut d, latest.as_str());
    push_str(&mut d, "，请稍候。");
    Status { title: "正在升级…".to_owned(), detail: d, actions: no_actions() }
}

fn start_failed(error: &String) -> (s: Status)
    ensures
        s@ == start_failed_status(error@),
{
    let mut d = "无法启动 dsh web：".to_owned();
    push_str(&mut d, error.as_str());
    Status { title: "启动失败".to_owned(), detail: d, actions: retry_actions() }
}

fn no_node() -> (s: Status)
    ensures
        s@ == no_node_status(),
{
    Status {
        title: "未检测到 Node.js".to_owned(),
        detail: "DSH 需要 Node.js 才能运行。请先安装 Node.js（建议 LTS），并确保 node 已加入 PATH，然后点击重试。".to_owned(),
        actions: retry_actions(),
    }
}

fn installing() -> (s: Status)
    ensures
        s@ == installing_status(),
{
    Status {
        title: "首次安装 @deepseek-ai/dsh…".to_owned(),
        detail: "正在下载并安装，可能需要一两分钟，请稍候。".to_owned(),
        actions: no_actions(),
    }
}

/// The background controller's state.
pub struct Controller {
    phase: Phase,
}

/// The step's view, if any.
pub open spec fn opt_step(r: Option<Step>) -> Option<StepView> {
    match r {
        Some(s) => Some(s@),
        None => None,
    }
}

impl Controller {
    /// The current phase.
    pub closed spec fn phase(self) -> PhaseView {
        self.phase@
    }

    /// A controller that has not started.
    pub fn new() -> (c: Self)
        ensures
            c.phase() == PhaseView::Start,
    {
        Controller { phase: Phase::Start }
    }

    /// Whether the controller has stopped.
    pub fn is_stopped(&self) -> (b: bool)
        ensures
            b == (self.phase() is Stopped),
    {
        match self.phase {
            Phase::Stopped => true,
            _ => false,
        }
    }

    /// Whether `step` can take `event` (it cannot only where an install
    /// failure's output cannot be shortened on a character boundary).
    pub fn accepts(&self, event: &Event) -> (ok: bool)
        ensures
            ok == !spec_step_panics(self.phase(), event@),
    {
        match (&self.phase, event) {
            (Phase::Installing, Event::InstallFinished { output, is_installed, .. }) => {
                *is_installed || failure_detail_defined(output)
            },
            _ => true,
        }
    }

    /// Take the outcome of the last effect; returns the status to show and
    /// the next effect, or `None` (phase unchanged) for an event the phase
    /// is not waiting for.
    pub fn step(&mut self, event: Event) -> (r: Option<Step>)
        requires
            !spec_step_panics(old(self).phase(), event@),
        ensures
            match spec_next(old(self).phase(), event@) {
                Some((ph, st)) => final(self).phase() == ph && opt_step(r) == Some(st),
                None => final(self).phase() == old(self).phase() && r is None,
            },
    {
        let ghost ev = event@;
        let (next, st) = match (&self.phase, event) {
            (Phase::Start, Event::Begin) => (
                Phase::DetectingNode,
                Step { status: Some(detecting()), effect: Effect::DetectNode },
            ),
            (Phase::DetectingNode, Event::NodeDetected { found }) => {
                if found {
                    (Phase::ProbingInstall, Step { status: None, effect: Effect::ProbeInstall })
                } else {
                    (
                        Phase::AwaitingRetry,
                        Step { status: Some(no_node()), effect: Effect::AwaitCommand },
                    )
                }
            },
            (Phase::ProbingInstall, Event::InstallProbed { installed_version, is_installed }) => {
                if is_installed {
                    let current = current_version(installed_version);
                    (
                        Phase::CheckingUpdate { current },
                        Step { status: Some(checking()), effect: Effect::CheckLatest },
                    )
                } else {
                    (Phase::Installing, Step { status: Some(installing()), effect: Effect::Install })
                }
            },
            (
                Phase::Installing,
                Event::InstallFinished { output, installed_version, is_installed },
            ) => {
                if is_installed {
                    let current = current_version(installed_version);
                    (
                        Phase::CheckingUpdate { current },
                        Step { status: Some(checking()), effect: Effect::CheckLatest },
                    )
                } else {
                    (
                        Phase::AwaitingRetry,
                        Step { status: Some(install_failed(output)), effect: Effect::AwaitCommand },
                    )
                }
            },
            (Phase::CheckingUpdate { current }, Event::LatestVersion { latest }) => {
                match latest {
                    Some(l) => {
                        if !string_eq(&l, current) {
                            let s = new_version(current, &l);
                            (
                                Phase::ChoosingUpgrade { latest: l },
                                Step { status: Some(s), effect: Effect::AwaitCommand },
                            )
                        } else {
                            (Phase::Spawning, Step { status: Some(starting()), effect: Effect::Spawn })
                        }
                    },
                    None => (
                        Phase::Spawning,
                        Step { status: Some(starting()), effect: Effect::Spawn },
                    ),
                }
            },
            (Phase::ChoosingUpgrade { latest }, Event::UserCommand { command }) => {
                match command {
                    Some(Command::Upgrade) => (
                        Phase::Upgrading,
                        Step { status: Some(upgrading(latest)), effect: Effect::Upgrade },
                    ),
                    Some(Command::SkipUpdate) => (
                        Phase::Spawning,
                        Step { status: Some(starting()), effect: Effect::Spawn },
                    ),
                    _ => (Phase::Stopped, Step { status: None, effect: Effect::Exit }),
                }
            },
            (Phase::Upgrading, Event::UpgradeFinished) => (
                Phase::Spawning,
                Step { status: Some(starting()), effect: Effect::Spawn },
            ),
            (Phase::Spawning, Event::SpawnFinished { error }) => {
                match error {
                    None => (Phase::Running, Step { status: None, effect: Effect::AwaitCommand }),
                    Some(e) => (
                        Phase::AwaitingRetry,
                        Step { status: Some(start_failed(&e)), effect: Effect::AwaitCommand },
                    ),
                }
            },
            (Phase::Running, Event::UserCommand { command }) => retry_or_stop_exec(command),
            (Phase::AwaitingRetry, Event::UserCommand { command }) => retry_or_stop_exec(command),
            _ => {
                return None;
            },
        };
        proof {
            assert(next@ =~~= spec_next(old(self).phase(), ev).unwrap().0);
            assert(st@ =~~= spec_next(old(self).phase(), ev).unwrap().1);
        }
        self.phase = next;
        Some(st)
    }
}

fn retry_or_stop_exec(command: Option<Command>) -> (r: (Phase, Step))
    ensures
        retry_or_stop(command) == Some((r.0@, r.1@)),
{
    match command {
        Some(Command::Retry) => (
            Phase::DetectingNode,
            Step { status: Some(detecting()), effect: Effect::DetectNode },
        ),
        _ => (Phase::Stopped, Step { status: None, effect: Effect::Exit }),
    }
}

fn string_eq(a: &String, b: &String) -> (r: bool)
    ensures
        r == (a@ == b@),
{
    a.eq(b)
}

// ---------------------------------------------------------------------------
// Laws
// ---------------------------------------------------------------------------

/// The effect whose outcome a phase waits for.
pub open spec fn awaited_effect(phase: PhaseView) -> Option<Effect> {
    match phase {
        PhaseView::Start => None,
        PhaseView::DetectingNode => Some(Effect::DetectNode),
        PhaseView::ProbingInstall => Some(Effect::ProbeInstall),
        PhaseView::Installing => Some(Effect::Install),
        PhaseView::CheckingUpdate { .. } => Some(Effect::CheckLatest),
        PhaseView::ChoosingUpgrade { .. } => Some(Effect::AwaitCommand),
        PhaseView::Upgrading => Some(Effect::Upgrade),
        PhaseView::Spawning => Some(Effect::Spawn),
        PhaseView::Running => Some(Effect::AwaitCommand),
        PhaseView::AwaitingRetry => Some(Effect::AwaitCommand),
        PhaseView::Stopped => Some(Effect::Exit),
    }
}

/// Every step asks for exactly the effect whose outcome the new phase then
/// waits for.
pub proof fn law_effect_matches_next_phase(phase: PhaseView, event: EventView)
    ensures
        spec_next(phase, event) matches Some((next, st)) ==> awaited_effect(next) == Some(st.effect),
{
}

/// Once stopped, the controller takes no further event.
pub proof fn law_stopped_is_final(event: EventView)
    ensures
        spec_next(PhaseView::Stopped, event) is None,
{
}

/// Whenever the controller waits for a button and the UI goes away instead,
/// it stops.
pub proof fn law_ui_gone_stops(phase: PhaseView)
    requires
        awaited_effect(phase) == Some(Effect::AwaitCommand),
    ensures
        spec_next(phase, EventView::UserCommand { command: None }) == go(
            PhaseView::Stopped,
            None,
            Effect::Exit,
        ),
{
}

/// After a failure, and while dsh runs, "retry" starts over from node
/// detection.
pub proof fn law_retry_restarts(phase: PhaseView)
    requires
        phase is Running || phase is AwaitingRetry,
    ensures
        spec_next(phase, EventView::UserCommand { command: Some(Command::Retry) }) == go(
            PhaseView::DetectingNode,
            Some(detecting_status()),
            Effect::DetectNode,
        ),
{
}

/// Every failure is shown with a "retry" button, and the controller then
/// waits for it.
pub proof fn law_failures_offer_retry(phase: PhaseView, event: EventView)
    ensures
        spec_next(phase, event) matches Some((next, st)) ==> (next is AwaitingRetry ==> (
        st.status matches Some(shown) && shown.actions == retry_only() && st.effect
            == Effect::AwaitCommand)),
{
}

/// The update check is only reached through an install check that found
/// the launcher on disk, and dsh is only started after the update check.
pub proof fn law_launch_follows_install_check(phase: PhaseView, event: EventView)
    ensures
        spec_next(phase, event) matches Some((next, st)) ==> {
            &&& next is CheckingUpdate ==> match event {
                EventView::InstallProbed { is_installed, .. } => is_installed,
                EventView::InstallFinished { is_installed, .. } => is_installed,
                _ => false,
            }
            &&& next is Spawning ==> (phase is CheckingUpdate || phase is ChoosingUpgrade
                || phase is Upgrading)
        },
{
}

/// An upgrade is offered exactly when the registry names a version other
/// than the installed one; otherwise dsh is started right away.
pub proof fn law_upgrade_offered_iff_different(current: Seq<char>, latest: Option<Seq<char>>)
    ensures
        spec_next(PhaseView::CheckingUpdate { current }, EventView::LatestVersion { latest })
            matches Some((next, st)) && (next is ChoosingUpgrade <==> (latest matches Some(l)
            && l != current)) && (!(next is ChoosingUpgrade) ==> next is Spawning && st.effect
            == Effect::Spawn),
{
}

/// Every step that starts dsh tells the user so: the screen shows
/// "正在启动 DSH…" with no detail and no buttons, whichever way it got
/// there (no update, update skipped, update installed).
pub proof fn law_spawn_shows_starting(phase: PhaseView, event: EventView)
    ensures
        spec_next(phase, event) matches Some((next, st)) ==> (next is Spawning ==> (
        st.status matches Some(shown) && shown.title == "正在启动 DSH…"@ && shown.detail.len() == 0
            && shown.actions.len() == 0)),
{
    reveal_strlit("");
}

/// On the update offer, "upgrade" installs the offered version and says
/// which one; "skip" starts the installed dsh at once.
pub proof fn law_update_choice_followed(latest: Seq<char>)
    ensures
        spec_next(
            PhaseView::ChoosingUpgrade { latest },
            EventView::UserCommand { command: Some(Command::Upgrade) },
        ) matches Some((next, st)) && next is Upgrading && st.effect == Effect::Upgrade && (
        st.status matches Some(shown) && shown.detail.subrange(
            "正在升级到 "@.len() as int,
            ("正在升级到 "@.len() + latest.len()) as int,
        ) == latest),
        spec_next(
            PhaseView::ChoosingUpgrade { latest },
            EventView::UserCommand { command: Some(Command::SkipUpdate) },
        ) matches Some((next, st)) && next is Spawning && st.effect == Effect::Spawn,
{
    let d = "正在升级到 "@ + latest + "，请稍候。"@;
    assert(d.subrange("正在升级到 "@.len() as int, ("正在升级到 "@.len() + latest.len()) as int) =~= latest);
}

/// A screen with buttons is never left standing: when the controller moves
/// on from waiting for a button (other than to stop), it shows a new status.
pub proof fn law_buttons_replaced(phase: PhaseView, event: EventView)
    requires
        phase is ChoosingUpgrade || phase is AwaitingRetry,
    ensures
        spec_next(phase, event) matches Some((next, st)) ==> (!(next is Stopped)
            ==> st.status is Some),
{
}

proof fn lemma_byte_len_concat(a: Seq<char>, b: Seq<char>)
    ensures
        byte_len(a + b) == byte_len(a) + byte_len(b),
    decreases a.len(),
{
    if a.len() > 0 {
        assert((a + b).drop_first() =~= a.drop_first() + b);
        lemma_byte_len_concat(a.drop_first(), b);
    } else {
        assert(a + b =~= b);
    }
}

proof fn lemma_byte_len_split(s: Seq<char>, k: int)
    requires
        0 <= k <= s.len(),
    ensures
        byte_len(s) == byte_len(s.take(k)) + byte_len(s.skip(k)),
{
    lemma_byte_len_concat(s.take(k), s.skip(k));
    assert(s.take(k) + s.skip(k) =~= s);
}

/// `suffix_within` only drops leading characters.
proof fn lemma_suffix_within_is_skip(s: Seq<char>, m: nat)
    ensures
        exists|j: int| 0 <= j <= s.len() && suffix_within(s, m) == s.skip(j),
    decreases s.len(),
{
    if s.len() > 0 && byte_len(s) > m {
        lemma_suffix_within_is_skip(s.drop_first(), m);
        let j = choose|j: int|
            0 <= j <= s.drop_first().len() && suffix_within(s.drop_first(), m)
                == s.drop_first().skip(j);
        assert(s.drop_first().skip(j) =~= s.skip(j + 1));
    } else {
        assert(s.skip(0) =~= s);
    }
}

/// When some suffix is exactly `m` bytes long, `suffix_within` stops there.
proof fn lemma_suffix_within_reaches(s: Seq<char>, m: nat, k: int)
    requires
        0 <= k <= s.len(),
        byte_len(s.skip(k)) == m,
    ensures
        byte_len(suffix_within(s, m)) == m,
    decreases s.len(),
{
    if s.len() > 0 && byte_len(s) > m {
        assert(s.skip(0) =~= s);
        assert(k > 0);
        assert(s.drop_first().skip(k - 1) =~= s.skip(k));
        lemma_suffix_within_reaches(s.drop_first(), m, k - 1);
    } else {
        lemma_byte_len_split(s, k);
    }
}

/// Text made of single-byte characters is as many bytes long as it has
/// characters.
proof fn lemma_byte_len_single_bytes(s: Seq<char>)
    requires
        forall|i: int| 0 <= i < s.len() ==> utf8_width(#[trigger] s[i]) == 1,
    ensures
        byte_len(s) == s.len(),
    decreases s.len(),
{
    if s.len() > 0 {
        assert(utf8_width(s[0]) == 1);
        assert forall|i: int| 0 <= i < s.drop_first().len() implies utf8_width(
            #[trigger] s.drop_first()[i],
        ) == 1 by {
            assert(s.drop_first()[i] == s[i + 1]);
        }
        lemma_byte_len_single_bytes(s.drop_first());
    }
}

/// `tail` can shorten a text exactly when the trimmed text fits in `max`
/// bytes or some character boundary lies exactly `max` bytes before its
/// end.
pub proof fn law_tail_defined_iff_boundary(s: Seq<char>, max: nat)
    ensures
        tail_defined(s, max) <==> (byte_len(trim(s)) <= max || exists|k: int|
            0 <= k <= trim(s).len() && byte_len(#[trigger] trim(s).skip(k)) == max),
{
    let t = trim(s);
    lemma_suffix_within_is_skip(t, max);
    if exists|k: int| 0 <= k <= t.len() && byte_len(#[trigger] t.skip(k)) == max {
        let k = choose|k: int| 0 <= k <= t.len() && byte_len(#[trigger] t.skip(k)) == max;
        lemma_suffix_within_reaches(t, max, k);
    }
}

/// Output made only of single-byte (ASCII) characters can always be
/// shortened, however long it is.
pub proof fn law_single_byte_text_can_be_shortened(s: Seq<char>, max: nat)
    requires
        forall|i: int| 0 <= i < trim(s).len() ==> utf8_width(#[trigger] trim(s)[i]) == 1,
    ensures
        tail_defined(s, max),
{
    let t = trim(s);
    lemma_byte_len_single_bytes(t);
    law_tail_defined_iff_boundary(s, max);
    if t.len() > max {
        let k = t.len() - max;
        let u = t.skip(k);
        assert forall|i: int| 0 <= i < u.len() implies utf8_width(#[trigger] u[i]) == 1 by {
            assert(u[i] == t[i + k]);
        }
        lemma_byte_len_single_bytes(u);
        assert(byte_len(t.skip(k)) == max);
    }
}

/// A shortened text is at most `max` bytes plus the three-byte ellipsis.
pub proof fn law_tail_bounded(s: Seq<char>, max: nat)
    requires
        tail_defined(s, max),
    ensures
        byte_len(spec_tail(s, max)) <= max + 3,
{
    let t = trim(s);
    if byte_len(t) > max {
        lemma_byte_len_concat(seq!['…'], suffix_within(t, max));
        let e = seq!['…'];
        assert(e.drop_first() =~= Seq::<char>::empty());
        assert(('…' as u32) == 0x2026);
        assert(byte_len(e) == utf8_width('…') + byte_len(e.drop_first()));
    }
}

} // verus!
