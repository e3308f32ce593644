use dsh_desktop::node::NodeEnv;
use dsh_desktop::paths::Platform;
use dsh_desktop::runtime::{
    decide_poll, extract_json_string, NpmOutput, PollDecision, PollOutcome, Runtime, PKG,
};

fn unix_runtime() -> Runtime {
    let env = NodeEnv { node: "/usr/bin/node".to_string(), npm_cli: "/usr/bin/npm".to_string() };
    Runtime::new(&env, "/home/u/.local/share/DSHDesktop/runtime".to_string(), Platform::OtherUnix)
}

fn windows_runtime() -> Runtime {
    let env = NodeEnv {
        node: "C:\\nodejs\\node.exe".to_string(),
        npm_cli: "C:\\nodejs\\node_modules\\npm\\bin\\npm-cli.js".to_string(),
    };
    Runtime::new(&env, "C:\\Users\\u\\AppData\\Local\\DSHDesktop\\runtime".to_string(), Platform::Windows)
}

#[test]
fn json_version_field() {
    let text = "{\n  \"name\": \"@deepseek-ai/dsh\",\n  \"version\": \"1.2.3\",\n  \"x\": 1\n}";
    assert_eq!(extract_json_string(text, "version"), Some("1.2.3".to_string()));
    assert_eq!(extract_json_string(text, "name"), Some("@deepseek-ai/dsh".to_string()));
}

#[test]
fn json_missing_or_non_string_field() {
    assert_eq!(extract_json_string("{\"a\": \"b\"}", "version"), None);
    assert_eq!(extract_json_string("{\"version\": 3}", "version"), None);
    assert_eq!(extract_json_string("{\"version\" \"3\"}", "version"), None);
    assert_eq!(extract_json_string("{\"version\": \"unterminated", "version"), None);
}

#[test]
fn json_value_after_whitespace_and_newline() {
    assert_eq!(extract_json_string("{\"version\" :\n\t \"0.9\"}", "version"), Some("0.9".to_string()));
    assert_eq!(extract_json_string("{\"version\":\"\"}", "version"), Some(String::new()));
}

#[test]
fn installed_version_reads_package_json() {
    assert_eq!(Runtime::installed_version("{\"version\": \"2.0.0\"}"), Some("2.0.0".to_string()));
}

#[test]
fn unix_paths() {
    let r = unix_runtime();
    assert_eq!(
        r.bin_js(),
        "/home/u/.local/share/DSHDesktop/runtime/node_modules/@deepseek-ai/dsh/lib/bin.js"
    );
    assert_eq!(
        r.pkg_json_path(),
        "/home/u/.local/share/DSHDesktop/runtime/node_modules/@deepseek-ai/dsh/package.json"
    );
    assert_eq!(r.anchor_path(), "/home/u/.local/share/DSHDesktop/runtime/package.json");
}

#[test]
fn windows_paths() {
    let r = windows_runtime();
    assert_eq!(
        r.bin_js(),
        "C:\\Users\\u\\AppData\\Local\\DSHDesktop\\runtime\\node_modules\\@deepseek-ai\\dsh\\lib\\bin.js"
    );
}

#[test]
fn latest_version_trims_successful_output() {
    let ok = Some(NpmOutput { success: true, stdout: "  1.4.0\n".to_string(), stderr: String::new() });
    assert_eq!(Runtime::latest_version(&ok), Some("1.4.0".to_string()));
    let failed = Some(NpmOutput { success: false, stdout: "1.4.0".to_string(), stderr: "E404".to_string() });
    assert_eq!(Runtime::latest_version(&failed), None);
    assert_eq!(Runtime::latest_version(&None), None);
}

#[test]
fn npm_arguments() {
    assert_eq!(
        Runtime::view_args(),
        vec!["view", "--fetch-retries=5", "--fetch-timeout=120000", PKG, "version"]
    );
    let r = unix_runtime();
    assert_eq!(
        r.install_args(),
        vec![
            "install",
            "--prefix",
            "/home/u/.local/share/DSHDesktop/runtime",
            "--no-save",
            "--no-audit",
            "--no-fund",
            "--loglevel=error",
            "--fetch-retries=5",
            "--fetch-retry-maxtimeout=120000",
            "--fetch-timeout=600000",
            "@deepseek-ai/dsh@latest",
        ]
    );
}

#[test]
fn npm_invocation_per_platform() {
    let u = unix_runtime().npm_invocation(vec!["view".to_string()]);
    assert_eq!(u.program, "/usr/bin/npm");
    assert_eq!(u.args, vec!["view"]);
    let w = windows_runtime().npm_invocation(vec!["view".to_string()]);
    assert_eq!(w.program, "C:\\nodejs\\node.exe");
    assert_eq!(w.args, vec!["C:\\nodejs\\node_modules\\npm\\bin\\npm-cli.js", "view"]);
}

#[test]
fn registry_default_and_override() {
    assert_eq!(Runtime::npm_registry(None), "https://registry.npmmirror.com");
    assert_eq!(
        Runtime::npm_registry(Some("https://registry.npmjs.org".to_string())),
        "https://registry.npmjs.org"
    );
}

#[test]
fn launch_invocations() {
    let r = unix_runtime();
    let w = r.web_invocation();
    assert_eq!(w.program, "/usr/bin/node");
    assert_eq!(w.args, vec![r.bin_js().as_str(), "web", "--port", "0"]);
    let p = r.prewarm_invocation();
    assert_eq!(p.args, vec![r.bin_js().as_str(), "web", "--help"]);
}

#[test]
fn poll_decisions() {
    assert_eq!(decide_poll(PollOutcome::Exited, true), PollDecision::Finished);
    assert_eq!(decide_poll(PollOutcome::Failed, false), PollDecision::Stop);
    assert_eq!(decide_poll(PollOutcome::Running, true), PollDecision::KillAndStop);
    assert_eq!(decide_poll(PollOutcome::Running, false), PollDecision::Sleep { ms: 100 });
}
