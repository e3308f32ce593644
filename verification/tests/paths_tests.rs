use dsh_desktop::paths::{app_data_root, join_path, relative_name, AppPaths, DataDirEnv, Platform};

fn env(
    home: Option<&str>,
    userprofile: Option<&str>,
    localappdata: Option<&str>,
    appdata: Option<&str>,
    xdg: Option<&str>,
) -> DataDirEnv {
    DataDirEnv {
        home: home.map(|s| s.to_string()),
        userprofile: userprofile.map(|s| s.to_string()),
        localappdata: localappdata.map(|s| s.to_string()),
        appdata: appdata.map(|s| s.to_string()),
        xdg_data_home: xdg.map(|s| s.to_string()),
    }
}

#[test]
fn join_inserts_one_separator() {
    assert_eq!(join_path(Platform::OtherUnix, "/a", "b"), "/a/b");
    assert_eq!(join_path(Platform::OtherUnix, "/a/", "b"), "/a/b");
    assert_eq!(join_path(Platform::OtherUnix, "", "b"), "b");
    assert_eq!(join_path(Platform::Windows, "C:\\a", "b"), "C:\\a\\b");
    assert_eq!(join_path(Platform::Windows, "C:\\a/", "b"), "C:\\a/b");
    assert_eq!(join_path(Platform::Windows, "C:", "b"), "C:b");
    assert_eq!(join_path(Platform::OtherUnix, "a\\", "b"), "a\\/b");
}

#[test]
fn join_matches_std_on_unix() {
    let p = Platform::OtherUnix;
    for base in ["/usr/local", "/usr/local/", "", "rel", "x//"] {
        let expected = std::path::Path::new(base).join("node").to_string_lossy().into_owned();
        assert_eq!(join_path(p, base, "node"), expected);
    }
}

#[test]
fn relative_names() {
    assert!(relative_name(Platform::OtherUnix, "bin"));
    assert!(!relative_name(Platform::OtherUnix, "/bin"));
    assert!(relative_name(Platform::OtherUnix, "c:x"));
    assert!(!relative_name(Platform::Windows, "c:x"));
    assert!(!relative_name(Platform::Windows, "\\x"));
    assert!(relative_name(Platform::Windows, ""));
}

#[test]
fn linux_data_root() {
    let e = env(Some("/home/u"), None, None, None, None);
    assert_eq!(app_data_root(Platform::OtherUnix, &e), "/home/u/.local/share");
    let e = env(Some("/home/u"), None, None, None, Some("/data"));
    assert_eq!(app_data_root(Platform::OtherUnix, &e), "/data");
    let e = env(None, None, None, None, None);
    assert_eq!(app_data_root(Platform::OtherUnix, &e), "./.local/share");
}

#[test]
fn macos_data_root() {
    let e = env(Some("/Users/u"), None, None, None, Some("/ignored"));
    assert_eq!(app_data_root(Platform::MacOs, &e), "/Users/u/Library/Application Support");
}

#[test]
fn windows_data_root() {
    let e = env(None, Some("C:\\Users\\u"), Some("C:\\L"), Some("C:\\R"), None);
    assert_eq!(app_data_root(Platform::Windows, &e), "C:\\L");
    let e = env(None, Some("C:\\Users\\u"), None, Some("C:\\R"), None);
    assert_eq!(app_data_root(Platform::Windows, &e), "C:\\R");
    let e = env(None, Some("C:\\Users\\u"), None, None, None);
    assert_eq!(app_data_root(Platform::Windows, &e), "C:\\Users\\u\\AppData\\Local");
}

#[test]
fn resolve_lays_out_runtime_and_logs() {
    let e = env(Some("/home/u"), None, None, None, None);
    let p = AppPaths::resolve(Platform::OtherUnix, &e);
    assert_eq!(p.runtime, "/home/u/.local/share/DSHDesktop/runtime");
    assert_eq!(p.logs, "/home/u/.local/share/DSHDesktop/logs");
    assert_ne!(p.runtime, p.logs);
}

#[test]
fn verbatim_base_is_rebuilt_from_components() {
    let w = Platform::Windows;
    assert_eq!(join_path(w, "\\\\?\\C:\\a\\\\b", "DSHDesktop"), "\\\\?\\C:\\a\\b\\DSHDesktop");
    assert_eq!(join_path(w, "\\\\?\\C:\\a\\b\\", "c"), "\\\\?\\C:\\a\\b\\c");
    assert_eq!(join_path(w, "\\\\?\\C:", "x"), "\\\\?\\C:\\x");
    assert_eq!(join_path(w, "\\\\?\\C:\\", "x"), "\\\\?\\C:\\x");
    assert_eq!(join_path(w, "\\\\?\\C:\\a\\b", "../c"), "\\\\?\\C:\\a\\c");
    assert_eq!(join_path(w, "\\\\?\\C:\\a", "./b/./c"), "\\\\?\\C:\\a\\b\\c");
    assert_eq!(join_path(w, "\\\\?\\C:\\a/b", "c"), "\\\\?\\C:\\a/b\\c");
    assert_eq!(join_path(w, "\\\\?\\UNC\\srv\\share\\d", "e"), "\\\\?\\UNC\\srv\\share\\d\\e");
    assert_eq!(join_path(w, "\\\\?\\UNC\\srv\\share", "e"), "\\\\?\\UNC\\srv\\share\\e");
}

#[test]
fn verbatim_base_with_empty_name_is_unchanged() {
    assert_eq!(join_path(Platform::Windows, "\\\\?\\C:\\a\\\\b", ""), "\\\\?\\C:\\a\\\\b\\");
    assert_eq!(join_path(Platform::OtherUnix, "\\\\?\\C:\\a", "b"), "\\\\?\\C:\\a/b");
}
