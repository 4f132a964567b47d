use textutils::headr::args::parse_arg;
use textutils::headr::reader::{read_bytes, read_lines, window_bytes, window_lines};

#[test]
fn positive_count_takes_prefix_of_lines() {
    let out = read_lines("f", "a\nb\nc\nd\ne\n", 3);
    assert_eq!(out, vec!["==> f <==\n", "a\n", "b\n", "c\n"]);
}

#[test]
fn count_beyond_length_takes_everything() {
    let out = read_lines("f", "a\nb", 10);
    assert_eq!(out, vec!["==> f <==\n", "a\n", "b"]);
}

#[test]
fn negative_count_drops_the_last_lines() {
    // head -n -2 on five lines: the last two are removed.
    let out = read_lines("f", "a\nb\nc\nd\ne\n", -2);
    assert_eq!(out, vec!["==> f <==\n", "a\n", "b\n", "c\n"]);
}

#[test]
fn negative_count_larger_than_input_keeps_nothing() {
    let out = read_lines("f", "a\nb\n", -5);
    assert_eq!(out, vec!["==> f <==\n"]);
}

#[test]
fn line_windows_preserve_terminators() {
    let lines: Vec<String> = vec!["a\r\n".to_string(), "b\n".to_string(), "c".to_string()];
    assert_eq!(window_lines(&lines, 2), vec!["a\r\n", "b\n"]);
    assert_eq!(window_lines(&lines, -1), vec!["a\r\n", "b\n"]);
    assert_eq!(window_lines(&lines, 0), Vec::<String>::new());
}

#[test]
fn byte_window_cuts_raw_bytes() {
    let data: Vec<u8> = "hello".bytes().collect();
    assert_eq!(window_bytes(&data, 2), vec![b'h', b'e']);
    assert_eq!(window_bytes(&data, -2), vec![b'h', b'e', b'l']);
}

#[test]
fn byte_window_may_split_a_character() {
    // Cutting inside a multi-byte character is passed through and decoded
    // lossily for display, not repaired.
    let data: Vec<u8> = "a😊".bytes().collect();
    let out = read_bytes("f", &data, 2);
    assert_eq!(out, vec!["==> f <==\n", "a\u{fffd}\n"]);
}

#[test]
fn empty_byte_window_prints_only_the_banner() {
    let data: Vec<u8> = Vec::new();
    let out = read_bytes("f", &data, 4);
    assert_eq!(out, vec!["==> f <==\n"]);
}

#[test]
fn parses_plain_and_suffixed_counts() {
    assert_eq!(parse_arg("10"), Ok(10));
    assert_eq!(parse_arg("-3"), Ok(-3));
    assert_eq!(parse_arg("2K"), Ok(2048));
    assert_eq!(parse_arg("-1M"), Ok(-1048576));
    assert_eq!(parse_arg("1G"), Ok(1073741824));
    assert_eq!(parse_arg("3b"), Ok(1536));
    assert_eq!(parse_arg("2kB"), Ok(2000));
    assert_eq!(parse_arg("2MB"), Ok(2000000));
    assert_eq!(parse_arg("1GB"), Ok(1000000000));
}

#[test]
fn rejects_bad_counts() {
    assert_eq!(parse_arg("unknown"), Err("must be a numeric string".to_string()));
    assert_eq!(parse_arg(""), Err("must be a numeric string".to_string()));
    assert_eq!(
        parse_arg("99999999999999999999"),
        Err("must be a numeric string".to_string())
    );
    assert_eq!(parse_arg("0"), Err("must be non-zero".to_string()));
    assert_eq!(parse_arg("-0"), Err("must be non-zero".to_string()));
    assert_eq!(parse_arg("5X"), Err("unknown unit".to_string()));
    assert_eq!(
        parse_arg("9999999999G"),
        Err("value is too large".to_string())
    );
}

#[test]
fn empty_input_yields_only_the_banner() {
    assert_eq!(read_lines("f", "", 10), vec!["==> f <==\n"]);
    assert_eq!(read_lines("f", "", -1), vec!["==> f <==\n"]);
}

#[test]
fn negative_count_equal_to_length_keeps_nothing() {
    let out = read_lines("f", "a\nb\n", -2);
    assert_eq!(out, vec!["==> f <==\n"]);
}
