use std::collections::HashMap;
use textutils::uniqr::args::Uniqr;
use textutils::uniqr::matcher::{UniqMatchItem, UniqMatcher};

#[test]
fn finds_uniq_matches() {
    for (desc, test_item) in build_find_unique_cases() {
        let matcher = UniqMatcher::from_reader(&test_item.input_text, &test_item.flags);

        assert_eq!(matcher.render(), test_item.expected_output, "{desc}");
    }
}

#[test]
fn is_line_match() {
    assert!(
        !UniqMatchItem::new().is_line_match("some", false),
        "when match has no lines"
    );
    assert!(
        UniqMatchItem::with_line("some\r\n").is_line_match("some", false),
        "when match has line with carriage returns"
    );
    assert!(
        !UniqMatchItem::with_line("some\r\n").is_line_match("Some", false),
        "when values have different cases"
    );
    assert!(
        UniqMatchItem::with_line("some\r\n").is_line_match("Some", true),
        "when values have different cases (ignore case)"
    );
    assert!(
        !UniqMatchItem::with_line("some\r\n").is_line_match("Something", true),
        "when values are different"
    );
}

#[test]
fn case_insensitive_counted_scenario() {
    let mut flags = Uniqr::new();
    flags.ignore_case = true;
    flags.count_occurrences = true;
    let matcher = UniqMatcher::from_reader("summer\n \nsummer\nSummeR\n", &flags);
    assert_eq!(matcher.render(), "    1 summer\n    1  \n    2 summer\n");
}

#[test]
fn regrouping_expanded_output_is_stable() {
    let text = "aa\naa\nbb\naa\ncc\ncc\ncc\n";
    let mut flags = Uniqr::new();
    flags.count_occurrences = true;
    let matcher = UniqMatcher::from_reader(text, &flags);
    let first = matcher.render();

    // Explode each group back into its repeated representative lines, then
    // group that expansion again: the counted output must not change.
    let mut expanded = String::new();
    for (line, count) in [("aa\n", 2), ("bb\n", 1), ("aa\n", 1), ("cc\n", 3)] {
        for _ in 0..count {
            expanded.push_str(line);
        }
    }
    let regrouped = UniqMatcher::from_reader(&expanded, &flags);
    assert_eq!(regrouped.render(), first);
}

#[test]
fn filters_partition_groups() {
    let text = "aa\nbb\nbb\ncc\ndd\ndd\n";
    let plain = Uniqr::new();
    let all = UniqMatcher::from_reader(text, &plain).render();

    let mut uniq_flags = Uniqr::new();
    uniq_flags.unique_only = true;
    let unique = UniqMatcher::from_reader(text, &uniq_flags).render();

    let mut dup_flags = Uniqr::new();
    dup_flags.duplicates_only = true;
    let duplicates = UniqMatcher::from_reader(text, &dup_flags).render();

    assert_eq!(all, "aa\nbb\ncc\ndd\n");
    assert_eq!(unique, "aa\ncc\n");
    assert_eq!(duplicates, "bb\ndd\n");
    // every group shows under exactly one filter, and all show unfiltered
    assert_eq!(unique.len() + duplicates.len(), all.len());
}

struct FindUniqTestCase {
    flags: Uniqr,
    input_text: String,
    expected_output: String,
}

fn build_find_unique_cases() -> HashMap<&'static str, FindUniqTestCase> {
    let input_text = vec![
        "summer", " ", "summer", "SummeR", "came", "CAME", "Came ", "quite", "early", "quite",
        "QUITE\r", "quite\n",
    ]
    .join("\n");
    let mut cases = HashMap::new();
    cases.insert(
        "with no flags",
        FindUniqTestCase {
            flags: Uniqr::new(),
            input_text: input_text.clone(),
            expected_output: input_text.clone(),
        },
    );
    cases.insert(
        "with duplicates only flag",
        FindUniqTestCase {
            flags: || -> Uniqr {
                let mut flags = Uniqr::new();
                flags.duplicates_only = true;
                flags
            }(),
            input_text: input_text.clone(),
            expected_output: "".to_string(),
        },
    );
    cases.insert(
        "with unique only flag",
        FindUniqTestCase {
            flags: || -> Uniqr {
                let mut flags = Uniqr::new();
                flags.unique_only = true;
                flags
            }(),
            input_text: input_text.clone(),
            expected_output: input_text.clone(),
        },
    );
    cases.insert(
        "with counts flag",
        FindUniqTestCase {
            flags: || -> Uniqr {
                let mut flags = Uniqr::new();
                flags.count_occurrences = true;
                flags
            }(),
            input_text: input_text.clone(),
            expected_output: vec![
                format!("{:>5} summer", 1),
                format!("{:>5} {}", 1, " "),
                format!("{:>5} summer", 1),
                format!("{:>5} SummeR", 1),
                format!("{:>5} came", 1),
                format!("{:>5} CAME", 1),
                format!("{:>5} Came ", 1),
                format!("{:>5} quite", 1),
                format!("{:>5} early", 1),
                format!("{:>5} quite", 1),
                format!("{:>5} QUITE\r", 1),
                format!("{:>5} quite\n", 1),
            ]
            .join("\n"),
        },
    );
    cases.insert(
        "with case insensitive flag",
        FindUniqTestCase {
            flags: || -> Uniqr {
                let mut flags = Uniqr::new();
                flags.ignore_case = true;
                flags
            }(),
            input_text: input_text.clone(),
            expected_output: vec![
                "summer", " ", "summer", "came", "Came ", "quite", "early", "quite\n",
            ]
            .join("\n"),
        },
    );
    cases.insert(
        "with case insensitive uniques",
        FindUniqTestCase {
            flags: || -> Uniqr {
                let mut flags = Uniqr::new();
                flags.ignore_case = true;
                flags.unique_only = true;
                flags
            }(),
            input_text: input_text.clone(),
            expected_output: vec!["summer", " ", "Came ", "quite", "early\n"].join("\n"),
        },
    );
    cases.insert(
        "with case insensitive duplicates",
        FindUniqTestCase {
            flags: || -> Uniqr {
                let mut flags = Uniqr::new();
                flags.ignore_case = true;
                flags.duplicates_only = true;
                flags
            }(),
            input_text: input_text.clone(),
            expected_output: vec!["summer", "came", "quite\n"].join("\n"),
        },
    );
    cases.insert(
        "with case insensitive counts",
        FindUniqTestCase {
            flags: || -> Uniqr {
                let mut flags = Uniqr::new();
                flags.count_occurrences = true;
                flags.ignore_case = true;
                flags
            }(),
            input_text: input_text.clone(),
            expected_output: vec![
                format!("{:>5} summer", 1),
                format!("{:>5} {}", 1, " "),
                format!("{:>5} summer", 2),
                format!("{:>5} came", 2),
                format!("{:>5} Came ", 1),
                format!("{:>5} quite", 1),
                format!("{:>5} early", 1),
                format!("{:>5} quite\n", 3),
            ]
            .join("\n"),
        },
    );
    cases.insert(
        "with case insensitive duplicate counts",
        FindUniqTestCase {
            flags: || -> Uniqr {
                let mut flags = Uniqr::new();
                flags.count_occurrences = true;
                flags.ignore_case = true;
                flags.duplicates_only = true;
                flags
            }(),
            input_text: input_text.clone(),
            expected_output: vec![
                format!("{:>5} summer", 2),
                format!("{:>5} came", 2),
                format!("{:>5} quite\n", 3),
            ]
            .join("\n"),
        },
    );
    cases.insert(
        "with case insensitive unique counts",
        FindUniqTestCase {
            flags: || -> Uniqr {
                let mut flags = Uniqr::new();
                flags.count_occurrences = true;
                flags.ignore_case = true;
                flags.unique_only = true;
                flags
            }(),
            input_text: input_text.clone(),
            expected_output: vec![
                format!("{:>5} summer", 1),
                format!("{:>5} {}", 1, " "),
                format!("{:>5} Came ", 1),
                format!("{:>5} quite", 1),
                format!("{:>5} early\n", 1),
            ]
            .join("\n"),
        },
    );

    cases
}

#[test]
fn empty_input_renders_nothing() {
    let flags = Uniqr::new();
    let matcher = UniqMatcher::from_reader("", &flags);
    assert_eq!(matcher.render(), "");
}

#[test]
fn final_line_without_terminator_is_its_own_group() {
    let mut flags = Uniqr::new();
    flags.count_occurrences = true;
    let matcher = UniqMatcher::from_reader("a\na", &flags);
    assert_eq!(matcher.render(), "    2 a\n");
}
