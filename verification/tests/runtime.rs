use termnav::assets::{resolve, root, valid_relative, ESCAPE_MESSAGE};
use termnav::links::{host, host_name, remote_host, tmux_host};
use termnav::navigation::system::TmuxOutput;
use termnav::paths::{
    is_absolute, is_beneath, join, parts_of, path_ends_in, paths_equal, relative_to,
};
use termnav::runtime::{is_one_segment, socket_directory, subdirectory, user_directory};

fn printed(text: &str) -> Option<TmuxOutput> {
    Some(TmuxOutput {
        success: true,
        stdout: text.as_bytes().to_vec(),
    })
}

fn failed(text: &str) -> Option<TmuxOutput> {
    Some(TmuxOutput {
        success: false,
        stdout: text.as_bytes().to_vec(),
    })
}

#[test]
fn paths_are_compared_by_their_parts() {
    assert!(is_absolute("/a"));
    assert!(!is_absolute("a"));
    assert!(!is_absolute(""));
    assert_eq!(join("/a", "b"), "/a/b");
    assert_eq!(join("/a/", "b"), "/a/b");
    assert_eq!(join("/a", "/b"), "/b");
    assert_eq!(join("", "b"), "b");
    assert_eq!(join("/a", ""), "/a/");
    assert_eq!(parts_of("//a/./b//c/."), vec!["a", "b", "c"]);
    assert_eq!(parts_of("./a"), vec![".", "a"]);
    assert!(paths_equal("/a//b/", "/a/./b"));
    assert!(!paths_equal("a/b", "/a/b"));
    assert!(!paths_equal("./a", "a"));
    assert!(is_beneath("/a/b", "/a"));
    assert!(is_beneath("/a", "/a/"));
    assert!(!is_beneath("/ab", "/a"));
    assert!(!is_beneath("a/b", "/a"));
    assert!(is_beneath("/a", ""));
    assert!(path_ends_in("/x/share/y", "share/y"));
    assert!(!path_ends_in("/share", "x/share"));
}

#[test]
fn relative_paths_match_the_standard_library() {
    for (path, base) in [
        ("/home/me/bin", "/home/me"),
        ("/home/me//x/./y/", "/home/me/"),
        ("/home/me", "/home/me"),
        ("/home/you", "/home/me"),
        ("./a/b", "."),
        ("a/b/c", "a"),
        ("/", ""),
        ("/x/.", ""),
        (".", ""),
        ("a/./", ""),
        ("", ""),
        ("/a/b", "/"),
    ] {
        let expected = std::path::Path::new(path)
            .strip_prefix(base)
            .ok()
            .map(|rest| rest.to_str().expect("text").to_owned());
        assert_eq!(relative_to(path, base), expected, "{path} from {base}");
    }
}

#[test]
fn runtime_directories_follow_the_base() {
    assert_eq!(user_directory(Some("/run/u"), "/tmp", 7), "/run/u/termnav-7");
    assert_eq!(user_directory(Some("run"), "/tmp", 7), "/tmp/termnav-7");
    assert_eq!(user_directory(None, "/tmp/", 7), "/tmp/termnav-7");
    assert!(is_one_segment("focus"));
    assert!(is_one_segment("focus/"));
    assert!(is_one_segment("..."));
    // No name leads back to the directory, above it or out of it.
    for name in [".", "..", "./", "../", "/", "a/..", "./a", ""] {
        assert!(!is_one_segment(name), "{name}");
        assert_eq!(subdirectory("/run/u", name), None, "{name}");
    }
    assert_eq!(subdirectory("/run/u", "focus"), Some("/run/u/focus".to_string()));
    assert!(!is_one_segment("a/b"));
    assert!(!is_one_segment(""));
    assert!(!is_one_segment("/a"));
}

#[test]
fn long_xdg_runtime_falls_back_to_a_portable_socket_path() {
    let name = "relay-0123456789abcdef01234567.sock";
    let long = format!("/{}", "x".repeat(120));
    assert_eq!(socket_directory(Some(&long), "/tmp", 1000, name), "/tmp/termnav-1000");
    assert_eq!(
        socket_directory(Some("/run/user/1000"), "/tmp", 1000, name),
        "/run/user/1000/termnav-1000"
    );
    // The limit counts bytes, and is itself accepted.
    let fits = format!("/{}", "x".repeat(103 - 1 - "/termnav-1/s".len()));
    assert_eq!(socket_directory(Some(&fits), "/tmp", 1, "s"), format!("{fits}/termnav-1"));
    let over = format!("{fits}x");
    assert_eq!(socket_directory(Some(&over), "/tmp", 1, "s"), "/tmp/termnav-1");
}

#[test]
fn assets_stay_below_their_root() {
    assert!(valid_relative("share/termnav/shell.sh"));
    assert!(valid_relative("a/./b"));
    for path in ["", "/etc/passwd", "../x", "a/../b", ".", "./a"] {
        assert!(!valid_relative(path), "{path}");
    }
    assert_eq!(root(Some("/r"), Some("/d")), Some("/r"));
    assert_eq!(root(None, Some("/d")), Some("/d"));
    assert_eq!(root(None, None), None);
    assert_eq!(resolve("/r", "/r/share/x"), Ok("/r/share/x".to_owned()));
    assert_eq!(resolve("/r", "/rx"), Err(ESCAPE_MESSAGE));
    assert!(is_beneath(&join("/r/", "share/x"), "/r/"));
}

#[test]
fn link_host_uses_the_explicit_remote_context() {
    let remote = remote_host(Some("remote.example.invalid"), Some("tmux"), true, Some("s"), None);
    assert_eq!(host(remote.as_deref()), "remote.example.invalid");
}

#[test]
fn link_hosts_fall_back_in_order() {
    assert_eq!(remote_host(Some(""), Some("t"), true, Some("s"), Some("f")).as_deref(), Some("t"));
    assert_eq!(remote_host(None, None, true, Some("s"), Some("f")).as_deref(), Some("s"));
    assert_eq!(remote_host(None, None, true, None, Some("f")).as_deref(), Some("f"));
    assert_eq!(remote_host(None, None, false, Some("s"), Some("f")), None);
    assert_eq!(host(None), "localhost");
    assert_eq!(
        tmux_host(&printed("TERMNAV_REMOTE_LINK_HOST=box\n")).as_deref(),
        Some("box")
    );
    assert_eq!(tmux_host(&printed("TERMNAV_REMOTE_LINK_HOST=\n")), None);
    assert_eq!(tmux_host(&printed("-TERMNAV_REMOTE_LINK_HOST\n")), None);
    assert_eq!(tmux_host(&failed("TERMNAV_REMOTE_LINK_HOST=box\n")), None);
    assert_eq!(tmux_host(&None), None);
    assert_eq!(host_name(&printed(" box \n")).as_deref(), Some("box"));
    assert_eq!(host_name(&printed("\n")), None);
    assert_eq!(host_name(&failed("box")), None);
}
