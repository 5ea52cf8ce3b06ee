use termnav::click::capture::{click_row, from_joined_capture};
use termnav::click::dispatch::{
    capture_arguments, captured_rows, extension_directory, parse_detection, Dispatch,
};
use termnav::click::hyperlink::{is_loopback, local_file_host, percent_decode, published_host};
use termnav::click::tokens::{
    path_like, public_url, spaced_rfc, token_ranges, trim_token, url_like,
};
use termnav::click::{
    follow, resolve, Detection, Detectors, Finding, Input, Knowledge, Panes, Question,
    Target,
};
use termnav::navigation::system::TmuxOutput;

fn input(hyperlink: &str, word: &str, line: &str, x: usize) -> Input {
    Input {
        hyperlink: hyperlink.to_owned(),
        word: word.to_owned(),
        line: line.to_owned(),
        x: Some(x),
        cwd: "/repo".to_owned(),
        ..Input::default()
    }
}

fn file(target: &str, source: &str, context: &str) -> Option<Target> {
    Some(Target::File {
        target: target.to_owned(),
        source: source.to_owned(),
        context: context.to_owned(),
    })
}

/// What a click settles on where there is no pane to capture, no detector, and
/// this host is called `here`.
fn resolved(input: &Input) -> Option<Target> {
    let known = Knowledge {
        panes: Panes::Unavailable,
        local_names: Some(vec!["here".to_owned()]),
        detectors: Detectors::Absent,
    };
    match resolve(input, &known) {
        Finding::Settled(target) => target,
        Finding::Open(question) => panic!("{question:?}"),
    }
}

#[test]
fn semantic_links_preserve_local_and_remote_context() {
    assert_eq!(
        resolved(&input("file://remote.example/tmp/a%20b:4", "", "", 0)),
        file("/tmp/a b:4", "remote", "remote.example")
    );
    assert_eq!(
        resolved(&input("nvim-open://src/main.rs:4", "", "", 0)),
        file("src/main.rs:4", "terminal", "")
    );
}

#[test]
fn public_tokens_precede_path_fallback() {
    let cases = [
        ("HTTPS://example.com/Upper", "HTTPS://example.com/Upper"),
        (
            "github.com/example/project",
            "https://github.com/example/project",
        ),
        ("localhost:5173?debug=1", "http://localhost:5173?debug=1"),
        (
            "192.168.1.20:8080/status",
            "http://192.168.1.20:8080/status",
        ),
        (
            "git@github.com:example/project.git",
            "https://github.com/example/project",
        ),
        (
            "CVE-2024-12345",
            "https://www.cve.org/CVERecord?id=CVE-2024-12345",
        ),
        ("RFC-9110", "https://www.rfc-editor.org/rfc/rfc9110"),
    ];
    for (token, expected) in cases {
        assert_eq!(
            resolved(&input("", token, "", 0)),
            Some(Target::Url(expected.to_owned())),
            "token {token}"
        );
    }
    assert_eq!(resolved(&input("", "README.md", "", 0)), None);
}

#[test]
fn quoted_and_status_paths_use_the_click_coordinate() {
    assert_eq!(
        resolved(&input(
            "",
            "file",
            "open './project dir/file.rs:12' now",
            20
        )),
        file("./project dir/file.rs:12", "terminal", "")
    );
    assert_eq!(
        resolved(&input("", "sley", "\tmodified:   src/tool/README.md", 20)),
        file("src/tool/README.md", "terminal", "")
    );
}

#[test]
fn line_fallback_only_selects_the_token_under_the_pointer() {
    assert_eq!(
        resolved(&input(
            "",
            "irrelevant",
            "see RFC 9110 and src/main.rs:17",
            5
        )),
        Some(Target::Url(
            "https://www.rfc-editor.org/rfc/rfc9110".to_owned()
        ))
    );
    assert_eq!(
        resolved(&input(
            "",
            "irrelevant",
            "see RFC 9110 and src/main.rs:17",
            22
        )),
        file("src/main.rs:17", "terminal", "")
    );
}

#[test]
fn joined_capture_reconstructs_wrapped_targets() {
    let physical = vec![
        "prefix /very/long/".to_owned(),
        "path/file.cpp:123:45 suffix".to_owned(),
    ];
    let joined = vec!["prefix /very/long/path/file.cpp:123:45 suffix".to_owned()];
    assert_eq!(
        from_joined_capture(&Detectors::Absent, &physical, &joined, 1, 4),
        Finding::Settled(file("/very/long/path/file.cpp:123:45", "terminal", ""))
    );
}

#[test]
fn wrapped_rows_are_counted_in_characters() {
    let physical = vec!["\u{fc}ber /sehr/".to_owned(), "lang/d\u{e4}tei.rs:7 x".to_owned()];
    let joined = vec!["\u{fc}ber /sehr/lang/d\u{e4}tei.rs:7 x".to_owned()];
    for column in [0, 8] {
        assert_eq!(
            from_joined_capture(&Detectors::Absent, &physical, &joined, 1, column),
            Finding::Settled(file("/sehr/lang/d\u{e4}tei.rs:7", "terminal", "")),
            "{column}"
        );
    }
    assert_eq!(
        from_joined_capture(&Detectors::Absent, &physical, &joined, 0, 6),
        Finding::Settled(file("/sehr/lang/d\u{e4}tei.rs:7", "terminal", ""))
    );
}

fn url(value: &str) -> Option<Target> {
    Some(Target::Url(value.to_owned()))
}

#[test]
fn escapes_are_decoded_once() {
    assert_eq!(percent_decode("a%20b%2525"), "a b%25");
    assert_eq!(percent_decode("100%"), "100%");
    assert_eq!(percent_decode("%zz%c3%a9%ff"), "%zz\u{e9}\u{fffd}");
    assert!(is_loopback("127.0.0.1"));
    assert!(is_loopback("localhost"));
    assert!(!is_loopback("example.com"));
}

#[test]
fn local_links_lose_their_host() {
    let names = vec!["me".to_owned()];
    assert!(local_file_host(&names, "me"));
    assert!(local_file_host(&names, "ME"));
    assert!(local_file_host(&names, "LocalHost"));
    assert!(local_file_host(&[], ""));
    assert_eq!(
        resolved(&input("file://here/tmp/x", "", "", 0)),
        file("/tmp/x", "terminal", "")
    );
    assert_eq!(
        resolved(&input("nvim-remote://Here/tmp/x", "", "", 0)),
        file("/tmp/x", "terminal", "")
    );
    assert_eq!(
        resolved(&input("file://there/tmp/x", "", "", 0)),
        file("/tmp/x", "remote", "there")
    );
    let printed = |text: &str| {
        Some(TmuxOutput {
            success: true,
            stdout: text.as_bytes().to_vec(),
        })
    };
    assert_eq!(
        published_host(&printed("TERMNAV_REMOTE_LINK_HOST=box\n")).as_deref(),
        Some("box")
    );
    assert_eq!(published_host(&printed(" box\n")).as_deref(), Some("box"));
    assert_eq!(published_host(&None), None);
    assert!(!local_file_host(&names, "you"));
    assert_eq!(
        resolved(&input("file:///tmp/x", "", "", 0)),
        file("/tmp/x", "terminal", "")
    );
    assert_eq!(
        resolved(&input("https://example.com", "", "", 0)),
        url("https://example.com")
    );
}

#[test]
fn hyperlinks_win_over_the_text_under_the_pointer() {
    assert_eq!(
        resolved(&input("https://a.example", "https://b.example", "", 0)),
        url("https://a.example")
    );
}

#[test]
fn tokens_are_cut_at_blanks_and_trimmed() {
    assert_eq!(token_ranges("ab  c"), vec![(0, 2), (4, 5)]);
    assert_eq!(trim_token("(src/x.rs),"), "src/x.rs");
    assert!(url_like("http://x"));
    assert!(!url_like("x"));
    assert!(path_like("./x"));
    assert!(!path_like("x"));
    assert_eq!(
        public_url("git@github.com:example/project.git.git").as_deref(),
        Some("https://github.com/example/project")
    );
    assert_eq!(public_url("https://example.com"), None);
    assert_eq!(public_url("plain"), None);
}

#[test]
fn spaced_documents_are_recognised_under_the_pointer() {
    assert_eq!(
        spaced_rfc("see RFC 9110 now", 6).as_deref(),
        Some("https://www.rfc-editor.org/rfc/rfc9110")
    );
    assert_eq!(spaced_rfc("see RFC 9110 now", 0), None);
}

#[test]
fn installed_detectors_are_asked_before_anything_is_opened() {
    let known = Knowledge {
        panes: Panes::Unavailable,
        local_names: None,
        detectors: Detectors::Asked(Vec::new()),
    };
    assert_eq!(
        resolve(&input("", "TICKET-7", "", 0), &known),
        Finding::Open(Question::Detector {
            token: "TICKET-7".to_owned(),
            original: "TICKET-7".to_owned()
        })
    );
    let answered = Knowledge {
        panes: Panes::Unavailable,
        local_names: None,
        detectors: Detectors::Asked(vec![Detection {
            token: "TICKET-7".to_owned(),
            original: "TICKET-7".to_owned(),
            target: url("https://t.example/7"),
        }]),
    };
    assert_eq!(
        resolve(&input("", "TICKET-7", "", 0), &answered),
        Finding::Settled(url("https://t.example/7"))
    );
}

#[test]
fn browser_targets_are_returned_to_the_exact_click_client() {
    let click = input("", "CVE-2024-12345", "", 0);
    let target = resolved(&click);
    match follow(&click, target) {
        Dispatch::Terminal(output) => {
            assert!(output.starts_with(b"\x1b]1337;SetUserVar=TERMNAV_OPEN_URL="));
        }
        other => panic!("{other:?}"),
    }
    assert_eq!(follow(&click, None), Dispatch::Nothing);
    assert_eq!(
        follow(&click, file("f", "remote", "h")),
        Dispatch::Editor(vec!["f".to_owned(), "/repo".to_owned(), "remote".to_owned(), "h".to_owned()])
    );
    assert_eq!(
        follow(&click, file("f", "terminal", "")),
        Dispatch::Editor(vec!["f".to_owned(), "/repo".to_owned(), "terminal".to_owned()])
    );
}

#[test]
fn detectors_answer_in_fields() {
    let printed = |bytes: &[u8]| {
        Some(TmuxOutput {
            success: true,
            stdout: bytes.to_vec(),
        })
    };
    assert_eq!(
        parse_detection(&printed(b"url\0https://x\0")),
        url("https://x")
    );
    assert_eq!(
        parse_detection(&printed(b"file\0/x\0")),
        file("/x", "terminal", "")
    );
    assert_eq!(parse_detection(&printed(b"other\0x\0")), None);
    assert_eq!(parse_detection(&printed(b"url\0\xff\0")), None);
    assert_eq!(parse_detection(&None), None);
    assert_eq!(captured_rows(&printed(b"a\nb\n")), Some(vec!["a".to_owned(), "b".to_owned()]));
    assert_eq!(capture_arguments("%1", true).len(), 9);
    assert_eq!(capture_arguments("%1", false).len(), 8);
    assert_eq!(
        extension_directory(Some("/e"), None, None).as_deref(),
        Some("/e")
    );
    assert_eq!(
        extension_directory(None, Some("/c"), Some("/h")).as_deref(),
        Some("/c/termnav/tmux-follow/extensions.d")
    );
    assert_eq!(extension_directory(None, None, None), None);
}

#[test]
fn clicked_rows_are_unambiguous() {
    let rows = vec!["a".to_owned(), "b".to_owned(), "a".to_owned()];
    assert_eq!(click_row(&rows, Some(1), "b", Some(0)), Some(1));
    assert_eq!(click_row(&rows, None, "b", None), Some(1));
    assert_eq!(click_row(&rows, None, "a", None), None);
}
