use textutils::wcr::args::Wcr;
use textutils::wcr::counts::{compute, get_counts, WcSource};
use textutils::wcr::result::{FileCount, ResultItem};

const COUNT_TEXT: &str = "It all happened quickly, she said.\n Out of nowhere the agent retorted  in Chinese 闭嘴吧\r\n";

#[test]
fn count_all() {
    let mut wcr = create_args("tests/inputs/test.txt");
    wcr.show_byte_count = true;
    wcr.show_char_count = true;
    wcr.show_line_count = true;
    wcr.show_word_count = true;

    run_count_test(
        &wcr,
        COUNT_TEXT,
        FileCount::with_counts(
            "tests/inputs/test.txt",
            Some(93),
            Some(87),
            Some(2),
            Some(15),
        ),
        "count all",
    );
}

#[test]
fn count_with_options() {
    let mut wcr = create_args("tests/inputs/test.txt");
    wcr.show_char_count = true;
    wcr.show_word_count = true;

    run_count_test(
        &wcr,
        COUNT_TEXT,
        FileCount::with_counts("tests/inputs/test.txt", None, Some(87), None, Some(15)),
        "count chars and words",
    );

    let mut wcr = create_args("tests/inputs/test.txt");
    wcr.show_line_count = true;
    run_count_test(
        &wcr,
        COUNT_TEXT,
        FileCount::with_counts("tests/inputs/test.txt", None, None, Some(2), None),
        "count chars and words",
    );
}

#[test]
fn counts_scenario_all_enabled() {
    let wcr = Wcr {
        files: vec!["f".to_string()],
        show_byte_count: true,
        show_char_count: false,
        show_line_count: true,
        show_word_count: true,
    };
    let counts = get_counts(&wcr, "f", "one two\nthree\n");
    assert_eq!(
        counts,
        FileCount::with_counts("f", Some(14), None, Some(2), Some(3))
    );
}

#[test]
fn combine_is_associative_and_has_identity() {
    let a = FileCount::with_counts("a", Some(1), None, Some(10), Some(100));
    let b = FileCount::with_counts("b", Some(2), None, Some(20), None);
    let c = FileCount::with_counts("c", Some(4), Some(7), None, Some(400));

    let left = a.clone().add(&b).add(&c);
    let right = a.clone().add(&b.clone().add(&c));
    assert_eq!(left, right);

    let identity = FileCount::with_counts("e", None, None, None, None);
    let kept = a.clone().add(&identity);
    assert_eq!(kept, a);
    let through = identity.add(&a);
    assert_eq!(
        through,
        FileCount::with_counts("e", Some(1), None, Some(10), Some(100))
    );
}

#[test]
fn set_defaults_enables_classic_counts() {
    let wcr = Wcr {
        files: vec![],
        show_byte_count: false,
        show_char_count: false,
        show_line_count: false,
        show_word_count: false,
    }
    .set_defaults();
    assert!(wcr.show_byte_count && wcr.show_line_count && wcr.show_word_count);
    assert!(!wcr.show_char_count);

    let untouched = Wcr {
        files: vec![],
        show_byte_count: false,
        show_char_count: true,
        show_line_count: false,
        show_word_count: false,
    }
    .set_defaults();
    assert!(untouched.show_char_count && !untouched.show_byte_count);
}

#[test]
fn compute_reports_failures_and_totals() {
    let wcr = Wcr {
        files: vec![],
        show_byte_count: true,
        show_char_count: false,
        show_line_count: true,
        show_word_count: true,
    };
    let sources = vec![
        WcSource {
            filename: "a.txt".to_string(),
            content: Ok("one two\nthree\n".to_string()),
        },
        WcSource {
            filename: "blargh".to_string(),
            content: Err("No such file or directory (os error 2)".to_string()),
        },
        WcSource {
            filename: "b.txt".to_string(),
            content: Ok("four\n".to_string()),
        },
    ];
    let res = compute(&wcr, &sources);
    let (out, err) = res.render();
    assert_eq!(
        out,
        "    2    3   14 a.txt\n    1    1    5 b.txt\n    3    4   19 total\n"
    );
    assert_eq!(err, "wcr: blargh: No such file or directory (os error 2)\n");
}

#[test]
fn single_input_gets_no_total_line() {
    let wcr = Wcr {
        files: vec![],
        show_byte_count: true,
        show_char_count: false,
        show_line_count: true,
        show_word_count: true,
    };
    let sources = vec![WcSource {
        filename: "a.txt".to_string(),
        content: Ok("one two\nthree\n".to_string()),
    }];
    let (out, err) = textutils::wcr::run(&wcr, &sources);
    assert_eq!(out, "    2    3   14 a.txt\n");
    assert_eq!(err, "");
}

fn create_args(filename: &str) -> Wcr {
    return Wcr {
        files: vec![filename.to_string()],
        show_byte_count: false,
        show_char_count: false,
        show_line_count: false,
        show_word_count: false,
    };
}

fn run_count_test(wcr: &Wcr, text: &str, expected: FileCount, desc: &str) {
    let filename = wcr.files.get(0).unwrap();
    let counts = get_counts(&wcr, filename, text);

    assert_eq!(counts, expected, "{}: returns expected count", desc);
}

#[test]
fn empty_input_counts_zero() {
    let wcr = Wcr {
        files: vec!["f".to_string()],
        show_byte_count: true,
        show_char_count: false,
        show_line_count: true,
        show_word_count: true,
    };
    let counts = get_counts(&wcr, "f", "");
    assert_eq!(counts, FileCount::with_counts("f", Some(0), None, Some(0), Some(0)));
}
