use broken_nest::state::{controls_path, join_path, state_dir_for};

#[test]
fn state_dir_ends_with_chain_name() {
    let dir = state_dir_for(None, Some("/home/me"), "mychain");
    assert!(dir.ends_with("broken_nest/mychain"));
    assert_eq!(dir, "/home/me/.local/share/broken_nest/mychain");
}

#[test]
fn state_dir_follows_the_environment() {
    assert_eq!(state_dir_for(Some("/data"), Some("/home/me"), "c"), "/data/broken_nest/c");
    assert_eq!(state_dir_for(Some("/data/"), None, "c"), "/data/broken_nest/c");
    assert_eq!(state_dir_for(None, None, "c"), "./.local/share/broken_nest/c");
    assert_eq!(state_dir_for(Some(""), None, "c"), "broken_nest/c");
}

#[test]
fn paths_join_as_the_file_system_has_it() {
    for (base, path) in [("a", "b"), ("a/", "b"), ("", "b"), ("a", "/b"), ("a", ""), ("/", "b")] {
        let expected = std::path::Path::new(base).join(path);
        assert_eq!(join_path(base, path), expected.to_str().unwrap());
    }
    assert_eq!(controls_path("/s", "amp"), "/s/amp.toml");
}
