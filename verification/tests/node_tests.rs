use dsh_desktop::node::{
    node_name, node_search_paths, npm_beside, npm_name, path_candidates, sort_descending,
    split_paths, strip_verbatim_prefix,
};
use dsh_desktop::paths::Platform;

fn strs(v: &[&str]) -> Vec<String> {
    v.iter().map(|s| s.to_string()).collect()
}

#[test]
fn unix_split_keeps_empty_pieces() {
    assert_eq!(split_paths(Platform::OtherUnix, "/a:/b"), strs(&["/a", "/b"]));
    assert_eq!(split_paths(Platform::OtherUnix, ""), strs(&[""]));
    assert_eq!(split_paths(Platform::OtherUnix, "/a::/b:"), strs(&["/a", "", "/b", ""]));
}

#[test]
fn windows_split_handles_quotes() {
    assert_eq!(
        split_paths(Platform::Windows, "c:\\foo;c:\\som\"e;di\"r;c:\\bar"),
        strs(&["c:\\foo", "c:\\some;dir", "c:\\bar"])
    );
    assert_eq!(split_paths(Platform::Windows, ""), strs(&[]));
    assert_eq!(split_paths(Platform::Windows, "a;"), strs(&["a", ""]));
    assert_eq!(split_paths(Platform::Windows, "a;;b"), strs(&["a", "", "b"]));
    assert_eq!(split_paths(Platform::Windows, ";a"), strs(&[]));
}

#[test]
fn path_candidates_join_the_name() {
    assert_eq!(
        path_candidates(Platform::OtherUnix, "/usr/bin:/bin/", "node"),
        strs(&["/usr/bin/node", "/bin/node"])
    );
    assert_eq!(
        path_candidates(Platform::Windows, "C:\\nodejs;C:\\tools\\", "node.exe"),
        strs(&["C:\\nodejs\\node.exe", "C:\\tools\\node.exe"])
    );
}

#[test]
fn executable_names() {
    assert_eq!(node_name(Platform::Windows), "node.exe");
    assert_eq!(node_name(Platform::MacOs), "node");
    assert_eq!(npm_name(Platform::Windows), "npm-cli.js");
    assert_eq!(npm_name(Platform::OtherUnix), "npm");
}

#[test]
fn npm_next_to_node() {
    assert_eq!(npm_beside(Platform::MacOs, "/opt/homebrew/bin"), "/opt/homebrew/bin/npm");
    assert_eq!(
        npm_beside(Platform::Windows, "C:\\nodejs"),
        "C:\\nodejs\\node_modules\\npm\\bin\\npm-cli.js"
    );
}

#[test]
fn verbatim_prefix_is_stripped() {
    assert_eq!(strip_verbatim_prefix("\\\\?\\C:\\nodejs\\node.exe".to_string()), "C:\\nodejs\\node.exe");
    assert_eq!(strip_verbatim_prefix("C:\\nodejs\\node.exe".to_string()), "C:\\nodejs\\node.exe");
    assert_eq!(strip_verbatim_prefix("\\\\?".to_string()), "\\\\?");
}

#[test]
fn versions_sorted_newest_first() {
    let v = strs(&["v9.11.2", "v20.10.0", "v18.0.0", "v20.9.0"]);
    assert_eq!(sort_descending(&v), strs(&["v20.10.0", "v20.9.0", "v18.0.0", "v9.11.2"]));
}

#[test]
fn versions_before_other_names() {
    let v = strs(&["alias", "v1.2", "v1.10", "v1.2.0", "zzz", "v01.2"]);
    assert_eq!(
        sort_descending(&v),
        strs(&["v1.10", "v1.2.0", "v1.2", "v01.2", "zzz", "alias"])
    );
}

#[test]
fn oversized_version_numbers_are_not_versions() {
    let v = strs(&["v1234567890123456789", "v2"]);
    assert_eq!(sort_descending(&v), strs(&["v2", "v1234567890123456789"]));
}

#[test]
fn node_search_order() {
    let got = node_search_paths(
        Platform::MacOs,
        &Some("/Users/u".to_string()),
        &strs(&["v9.11.2", "v20.10.0"]),
    );
    assert_eq!(
        got,
        strs(&[
            "/opt/homebrew/bin/node",
            "/usr/local/bin/node",
            "/Users/u/.volta/bin/node",
            "/Users/u/.nvm/versions/node/v20.10.0/bin/node",
            "/Users/u/.nvm/versions/node/v9.11.2/bin/node",
        ])
    );
    let no_home = node_search_paths(Platform::OtherUnix, &None, &strs(&["v1"]));
    assert_eq!(no_home, strs(&["/opt/homebrew/bin/node", "/usr/local/bin/node"]));
}
