use dsh_desktop::events::Command;
use dsh_desktop::lifecycle::{tail, tail_cut_ok, Controller, Effect, Event, Step};
use dsh_desktop::runtime::NpmOutput;

fn step(c: &mut Controller, e: Event) -> Step {
    assert!(c.accepts(&e));
    c.step(e).expect("event expected by the phase")
}

fn title(s: &Step) -> String {
    s.status.as_ref().map(|s| s.title.clone()).unwrap_or_default()
}

#[test]
fn tail_short_and_long() {
    assert_eq!(tail("  hello \n", 10), "hello");
    assert_eq!(tail("abcdef", 3), "…def");
    assert_eq!(tail("abc", 3), "abc");
    assert!(tail_cut_ok("中文", 3));
    assert_eq!(tail("中文", 3), "…文");
    assert!(!tail_cut_ok("中文", 2));
    assert_eq!(tail("", 0), "");
}

#[test]
fn tail_of_long_npm_output_is_bounded() {
    let text = "x".repeat(5000);
    let t = tail(&text, 2000);
    assert_eq!(t.len(), 2000 + "…".len());
    assert!(t.starts_with('…'));
}

#[test]
fn happy_path_with_install_and_no_update() {
    let mut c = Controller::new();
    let s = step(&mut c, Event::Begin);
    assert_eq!(title(&s), "正在检测 Node.js…");
    assert_eq!(s.effect, Effect::DetectNode);
    let s = step(&mut c, Event::NodeDetected { found: true });
    assert!(s.status.is_none());
    assert_eq!(s.effect, Effect::ProbeInstall);
    let s = step(&mut c, Event::InstallProbed { installed_version: None, is_installed: false });
    assert_eq!(title(&s), "首次安装 @deepseek-ai/dsh…");
    assert_eq!(s.effect, Effect::Install);
    let s = step(
        &mut c,
        Event::InstallFinished { output: None, installed_version: Some("1.0.0".to_string()), is_installed: true },
    );
    assert_eq!(title(&s), "正在检测更新…");
    assert_eq!(s.effect, Effect::CheckLatest);
    let s = step(&mut c, Event::LatestVersion { latest: Some("1.0.0".to_string()) });
    assert_eq!(title(&s), "正在启动 DSH…");
    assert_eq!(s.effect, Effect::Spawn);
    let s = step(&mut c, Event::SpawnFinished { error: None });
    assert!(s.status.is_none());
    assert_eq!(s.effect, Effect::AwaitCommand);
    let s = step(&mut c, Event::UserCommand { command: None });
    assert_eq!(s.effect, Effect::Exit);
    assert!(c.is_stopped());
    assert!(c.step(Event::Begin).is_none());
}

#[test]
fn missing_node_offers_retry() {
    let mut c = Controller::new();
    step(&mut c, Event::Begin);
    let s = step(&mut c, Event::NodeDetected { found: false });
    let st = s.status.unwrap();
    assert_eq!(st.title, "未检测到 Node.js");
    assert_eq!(st.actions, vec!["retry".to_string()]);
    assert_eq!(s.effect, Effect::AwaitCommand);
    let s = step(&mut c, Event::UserCommand { command: Some(Command::Retry) });
    assert_eq!(s.effect, Effect::DetectNode);
}

#[test]
fn install_failure_shows_npm_error() {
    let mut c = Controller::new();
    step(&mut c, Event::Begin);
    step(&mut c, Event::NodeDetected { found: true });
    step(&mut c, Event::InstallProbed { installed_version: None, is_installed: false });
    let out = NpmOutput { success: false, stdout: "out".to_string(), stderr: "  E404 not found \n".to_string() };
    let s = step(&mut c, Event::InstallFinished { output: Some(out), installed_version: None, is_installed: false });
    let st = s.status.unwrap();
    assert_eq!(st.title, "安装失败");
    assert_eq!(st.detail, "npm 安装失败：\nE404 not found");
    assert_eq!(st.actions, vec!["retry".to_string()]);
}

#[test]
fn install_failure_falls_back_to_stdout_and_timeout_text() {
    let mut c = Controller::new();
    step(&mut c, Event::Begin);
    step(&mut c, Event::NodeDetected { found: true });
    step(&mut c, Event::InstallProbed { installed_version: None, is_installed: false });
    let out = NpmOutput { success: false, stdout: "only stdout".to_string(), stderr: " \n".to_string() };
    let s = step(&mut c, Event::InstallFinished { output: Some(out), installed_version: None, is_installed: false });
    assert_eq!(s.status.unwrap().detail, "npm 安装失败：\nonly stdout");
    step(&mut c, Event::UserCommand { command: Some(Command::Retry) });
    step(&mut c, Event::NodeDetected { found: true });
    step(&mut c, Event::InstallProbed { installed_version: None, is_installed: false });
    let s = step(&mut c, Event::InstallFinished { output: None, installed_version: None, is_installed: false });
    assert_eq!(s.status.unwrap().detail, "安装超时或未完成，请检查网络后重试。");
}

#[test]
fn update_offer_and_upgrade() {
    let mut c = Controller::new();
    step(&mut c, Event::Begin);
    step(&mut c, Event::NodeDetected { found: true });
    step(&mut c, Event::InstallProbed { installed_version: Some("1.0.0".to_string()), is_installed: true });
    let s = step(&mut c, Event::LatestVersion { latest: Some("1.1.0".to_string()) });
    let st = s.status.unwrap();
    assert_eq!(st.title, "发现新版本");
    assert_eq!(st.detail, "当前版本：1.0.0，最新版本：1.1.0。");
    assert_eq!(st.actions, vec!["upgrade".to_string(), "skip".to_string()]);
    let s = step(&mut c, Event::UserCommand { command: Some(Command::Upgrade) });
    assert_eq!(s.status.unwrap().detail, "正在升级到 1.1.0，请稍候。");
    assert_eq!(s.effect, Effect::Upgrade);
    let s = step(&mut c, Event::UpgradeFinished);
    assert_eq!(s.effect, Effect::Spawn);
    let s = step(&mut c, Event::SpawnFinished { error: Some("boom".to_string()) });
    let st = s.status.unwrap();
    assert_eq!(st.title, "启动失败");
    assert_eq!(st.detail, "无法启动 dsh web：boom");
}

#[test]
fn unknown_version_and_skip() {
    let mut c = Controller::new();
    step(&mut c, Event::Begin);
    step(&mut c, Event::NodeDetected { found: true });
    step(&mut c, Event::InstallProbed { installed_version: None, is_installed: true });
    let s = step(&mut c, Event::LatestVersion { latest: Some("2.0.0".to_string()) });
    assert_eq!(s.status.unwrap().detail, "当前版本：未知，最新版本：2.0.0。");
    let s = step(&mut c, Event::UserCommand { command: Some(Command::SkipUpdate) });
    assert_eq!(s.effect, Effect::Spawn);
}

#[test]
fn retry_during_update_offer_stops() {
    let mut c = Controller::new();
    step(&mut c, Event::Begin);
    step(&mut c, Event::NodeDetected { found: true });
    step(&mut c, Event::InstallProbed { installed_version: Some("1".to_string()), is_installed: true });
    step(&mut c, Event::LatestVersion { latest: Some("2".to_string()) });
    let s = step(&mut c, Event::UserCommand { command: Some(Command::Retry) });
    assert_eq!(s.effect, Effect::Exit);
    assert!(c.is_stopped());
}

#[test]
fn unexpected_event_is_ignored() {
    let mut c = Controller::new();
    assert!(c.step(Event::UpgradeFinished).is_none());
    let s = step(&mut c, Event::Begin);
    assert_eq!(s.effect, Effect::DetectNode);
}

#[test]
fn unsplittable_install_output_is_refused() {
    let mut c = Controller::new();
    step(&mut c, Event::Begin);
    step(&mut c, Event::NodeDetected { found: true });
    step(&mut c, Event::InstallProbed { installed_version: None, is_installed: false });
    let out = NpmOutput { success: false, stdout: String::new(), stderr: "中".repeat(1000) };
    let e = Event::InstallFinished { output: Some(out), installed_version: None, is_installed: false };
    assert!(!c.accepts(&e));
}
