use textutils::errors::IoErrorKind;
use textutils::findr::args::{EntryKind, FileType, FindrArgs};
use textutils::findr::WalkEvent;
use textutils::headr::args::Headr;
use textutils::headr::{run as headr_run, HeadSource, SourceContent};

#[test]
fn head_run_separates_outputs_and_diagnostics() {
    let headr = Headr {
        files: vec![],
        bytes: None,
        lines: 2,
    };
    let sources = vec![
        HeadSource {
            filename: "one.txt".to_string(),
            content: SourceContent::Text("a\nb\nc\n".to_string()),
        },
        HeadSource {
            filename: "blargh".to_string(),
            content: SourceContent::Unreadable(IoErrorKind::NotFound, "ignored".to_string()),
        },
        HeadSource {
            filename: "two.txt".to_string(),
            content: SourceContent::Text("x\n".to_string()),
        },
    ];
    let res = headr_run(&headr, &sources);
    let (out, err) = res.print_results();
    assert_eq!(out, "==> one.txt <==\na\nb\n\n==> two.txt <==\nx\n");
    assert_eq!(err, "headr: blargh: File or directory not found\n");
}

#[test]
fn head_run_reports_permission_errors() {
    let headr = Headr {
        files: vec![],
        bytes: Some(4),
        lines: 10,
    };
    let sources = vec![HeadSource {
        filename: "secret".to_string(),
        content: SourceContent::Unreadable(
            IoErrorKind::PermissionDenied,
            "ignored".to_string(),
        ),
    }];
    let res = headr_run(&headr, &sources);
    let (out, err) = res.print_results();
    assert_eq!(out, "");
    assert_eq!(err, "headr: secret: Permission denied\n");
}

#[test]
fn find_run_filters_by_type_name_and_depth() {
    let args = FindrArgs {
        paths: vec!["tests/inputs".to_string()],
        names: vec![".*[.]csv".to_string()],
        file_types: vec![FileType::File],
        min_depth: None,
        max_depth: None,
    };
    let walks = vec![vec![
        WalkEvent::Entry {
            path: "tests/inputs".to_string(),
            kind: EntryKind::Dir,
            depth: 0,
        },
        WalkEvent::Entry {
            path: "tests/inputs/g.csv".to_string(),
            kind: EntryKind::File,
            depth: 1,
        },
        WalkEvent::Entry {
            path: "tests/inputs/a.txt".to_string(),
            kind: EntryKind::File,
            depth: 1,
        },
        WalkEvent::Entry {
            path: "tests/inputs/b.csv".to_string(),
            kind: EntryKind::Symlink,
            depth: 1,
        },
    ]];
    let (out, err) = textutils::findr::run(&args, &walks);
    assert_eq!(out, "tests/inputs/g.csv\n");
    assert_eq!(err, "");
}

#[test]
fn find_run_reports_unreadable_subdirectory_and_keeps_siblings() {
    // A walk over a tree with one unreadable subdirectory: one diagnostic
    // line for it, and every sibling entry still listed.
    let args = FindrArgs {
        paths: vec!["root".to_string()],
        names: vec![],
        file_types: vec![],
        min_depth: None,
        max_depth: None,
    };
    let walks = vec![vec![
        WalkEvent::Entry {
            path: "root".to_string(),
            kind: EntryKind::Dir,
            depth: 0,
        },
        WalkEvent::Entry {
            path: "root/a.txt".to_string(),
            kind: EntryKind::File,
            depth: 1,
        },
        WalkEvent::Failure {
            path: Some("root/locked".to_string()),
            kind: Some(IoErrorKind::PermissionDenied),
            message: "ignored".to_string(),
        },
        WalkEvent::Entry {
            path: "root/b.txt".to_string(),
            kind: EntryKind::File,
            depth: 1,
        },
    ]];
    let (out, err) = textutils::findr::run(&args, &walks);
    assert_eq!(out, "root\nroot/a.txt\nroot/b.txt\n");
    assert_eq!(err, "findr: root/locked: Permission denied\n");
}

#[test]
fn find_failure_without_a_path_is_reported_under_the_root() {
    let args = FindrArgs {
        paths: vec!["blargh".to_string()],
        names: vec![],
        file_types: vec![],
        min_depth: None,
        max_depth: None,
    };
    let walks = vec![vec![WalkEvent::Failure {
        path: None,
        kind: Some(IoErrorKind::NotFound),
        message: "ignored".to_string(),
    }]];
    let (out, err) = textutils::findr::run(&args, &walks);
    assert_eq!(out, "\n");
    assert_eq!(err, "findr: blargh: File or directory not found\n");
}

#[test]
fn find_run_restricts_to_depth_range() {
    let args = FindrArgs {
        paths: vec!["root".to_string()],
        names: vec![],
        file_types: vec![],
        min_depth: Some(1),
        max_depth: Some(1),
    };
    let walks = vec![vec![
        WalkEvent::Entry {
            path: "root".to_string(),
            kind: EntryKind::Dir,
            depth: 0,
        },
        WalkEvent::Entry {
            path: "root/a".to_string(),
            kind: EntryKind::Dir,
            depth: 1,
        },
        WalkEvent::Entry {
            path: "root/a/deep.txt".to_string(),
            kind: EntryKind::File,
            depth: 2,
        },
    ]];
    let (out, _err) = textutils::findr::run(&args, &walks);
    assert_eq!(out, "root/a\n");
}

#[test]
fn find_name_patterns_are_real_matches() {
    // The same entry under two patterns: kept under one, dropped under the
    // other, so pattern matching really consults the pattern text.
    let entry = vec![WalkEvent::Entry {
        path: "dir/song.mp3".to_string(),
        kind: EntryKind::File,
        depth: 1,
    }];
    let keep = FindrArgs {
        paths: vec!["dir".to_string()],
        names: vec![".*[.]mp3".to_string()],
        file_types: vec![],
        min_depth: None,
        max_depth: None,
    };
    let (out, _) = textutils::findr::run(&keep, &vec![entry.clone()]);
    assert_eq!(out, "dir/song.mp3\n");

    let drop = FindrArgs {
        paths: vec!["dir".to_string()],
        names: vec![".*[.]csv".to_string()],
        file_types: vec![],
        min_depth: None,
        max_depth: None,
    };
    let (out, _) = textutils::findr::run(&drop, &vec![entry]);
    assert_eq!(out, "\n");
}

#[test]
fn head_run_in_byte_mode_separates_inputs() {
    let headr = Headr {
        files: vec![],
        bytes: Some(3),
        lines: 10,
    };
    let sources = vec![
        HeadSource {
            filename: "one".to_string(),
            content: SourceContent::Bytes(b"hello".to_vec()),
        },
        HeadSource {
            filename: "two".to_string(),
            content: SourceContent::Bytes(b"world".to_vec()),
        },
    ];
    let res = headr_run(&headr, &sources);
    let (out, err) = res.print_results();
    assert_eq!(out, "==> one <==\nhel\n\n==> two <==\nwor\n");
    assert_eq!(err, "");
}
