use claude_tools::adr::{
    adr_file_name, is_valid_slug, next_after, next_number, number_from_capture, render_body,
    render_body_dated, update_index, AdrRequest,
};
use claude_tools::error::ToolError;

fn names(list: &[&str]) -> Vec<String> {
    list.iter().map(|s| s.to_string()).collect()
}

fn request() -> AdrRequest {
    AdrRequest {
        slug: "abc".into(),
        title: "Test ADR".into(),
        tracker: Some("#42".into()),
        status: "Proposed".into(),
        author: "me".into(),
    }
}

#[test]
fn next_number_starts_at_1_for_empty_dir() {
    assert_eq!(next_number(&names(&[])).unwrap(), 1);
}

#[test]
fn next_number_increments_past_highest() {
    let n = names(&["001-foo.md", "005-bar.md", "README.md"]);
    assert_eq!(next_number(&n).unwrap(), 6);
}

#[test]
fn rejects_uppercase_slug() {
    let s = "BadSlug";
    assert!(!is_valid_slug(s));
}

#[test]
fn renders_body_includes_title_and_status() {
    let body = render_body(&request(), 7);
    assert!(body.contains("# ADR 007 — Test ADR"));
    assert!(body.contains("**Status:** Proposed"));
    assert!(body.contains("**Tracker:** #42"));
}

#[test]
fn index_creates_table_when_absent() {
    let s = update_index(None, 1, "abc", "Proposed", "Foo");
    assert!(s.contains("| [001](001-abc.md) | Proposed | Foo |"));
}

#[test]
fn index_appends_row_to_existing_table() {
    let initial =
        "# ADRs\n\n## Index\n\n| # | Status | Decision |\n|---|--------|----------|\n| [001](001-x.md) | Accepted | X |\n";
    let s = update_index(Some(initial), 2, "y", "Proposed", "Y thing");
    assert!(s.contains("| [001](001-x.md) | Accepted | X |"));
    assert!(s.contains("| [002](002-y.md) | Proposed | Y thing |"));
}

#[test]
fn valid_slugs() {
    assert!(is_valid_slug("pulp-simd-hdc-kernels"));
    assert!(is_valid_slug("adr-2"));
    assert!(is_valid_slug(""));
    assert!(!is_valid_slug("with space"));
    assert!(!is_valid_slug("under_score"));
    assert!(!is_valid_slug("é"));
}

#[test]
fn next_number_ignores_short_and_unnumbered_names() {
    let n = names(&["12-short.md", "abc-def.md", "0009-long.md", "003x-no-dash.md", "README.md"]);
    assert_eq!(next_number(&n).unwrap(), 10);
}

#[test]
fn next_number_is_past_every_existing_number_in_any_order() {
    let n = names(&["020-b.md", "100-c.md", "003-a.md"]);
    let next = next_number(&n).unwrap();
    assert_eq!(next, 101);
    for name in ["020-b.md", "100-c.md", "003-a.md"] {
        let num: u32 = name[..3].parse().unwrap();
        assert!(num < next);
    }
}

#[test]
fn next_number_skips_numbers_past_u32() {
    let n = names(&["99999999999-huge.md", "004-a.md"]);
    assert_eq!(next_number(&n).unwrap(), 5);
}

#[test]
fn next_number_overflows_at_u32_max() {
    let n = names(&["4294967295-last.md"]);
    assert!(matches!(next_number(&n), Err(ToolError::Overflow)));
    let n = names(&["4294967294-almost.md"]);
    assert_eq!(next_number(&n).unwrap(), 4294967295);
}

#[test]
fn file_name_pads_to_three_digits() {
    assert_eq!(adr_file_name(7, "pulp"), "007-pulp.md");
    assert_eq!(adr_file_name(42, "x"), "042-x.md");
    assert_eq!(adr_file_name(1234, "y"), "1234-y.md");
    assert_eq!(adr_file_name(0, "z"), "000-z.md");
}

#[test]
fn filed_number_reads_back_in_next_number() {
    let name = adr_file_name(12, "x");
    assert_eq!(next_number(&vec![name]).unwrap(), 13);
}

#[test]
fn body_with_date_is_exact_head() {
    let mut req = request();
    req.tracker = None;
    let body = render_body_dated(&req, 19, "2026-05-20");
    assert!(body.starts_with(
        "# ADR 019 — Test ADR\n\n**Status:** Proposed\n**Date:** 2026-05-20\n**Author:** me\n\n## Context\n\n"
    ));
    assert!(body.ends_with("**Cross-references**:\n- ___\n"));
    assert!(!body.contains("**Tracker:**"));
}

#[test]
fn body_uses_a_real_date() {
    let body = render_body(&request(), 1);
    let at = body.find("**Date:** ").unwrap() + "**Date:** ".len();
    let date = &body[at..at + 10];
    assert!(date.chars().enumerate().all(|(i, c)| if i == 4 || i == 7 { c == '-' } else { c.is_ascii_digit() }));
    let month: u32 = date[5..7].parse().unwrap();
    let day: u32 = date[8..10].parse().unwrap();
    assert!((1..=12).contains(&month) && (1..=31).contains(&day));
}

#[test]
fn new_index_has_preamble_and_row() {
    let s = update_index(None, 3, "c", "Accepted", "Z");
    assert_eq!(
        s,
        "# Architecture Decision Records (ADRs)\n\nThis directory holds the *why* behind major architectural choices.\n\n## Index\n\n| # | Status | Decision |\n|---|--------|----------|\n| [003](003-c.md) | Accepted | Z |\n"
    );
}

#[test]
fn index_without_table_gets_header() {
    let s = update_index(Some("# Notes\n"), 4, "d", "Proposed", "W");
    assert_eq!(
        s,
        "# Notes\n\n## Index\n\n| # | Status | Decision |\n|---|--------|----------|\n| [004](004-d.md) | Proposed | W |\n"
    );
}

#[test]
fn index_update_only_inserts() {
    let initial = "# ADRs\n|---|---|\n| [001](001-a.md) | Accepted | A |\n";
    let s = update_index(Some(initial), 2, "b", "Proposed", "B");
    assert!(s.starts_with(initial));
    assert!(s.ends_with("| [002](002-b.md) | Proposed | B |\n"));
    assert_eq!(s.len(), initial.len() + "| [002](002-b.md) | Proposed | B |\n".len());
}

#[test]
fn next_number_counts_only_markdown_files() {
    let n = names(&["001-a.md", "009-notes.txt"]);
    assert_eq!(next_number(&n).unwrap(), 2);
    let n = names(&["007-x.md.bak", "002-y.md"]);
    assert_eq!(next_number(&n).unwrap(), 3);
}

#[test]
fn index_row_goes_into_the_table_before_later_sections() {
    let initial = "| # | Status | Decision |\n|---|--------|----------|\n| [001](001-x.md) | Accepted | X |\n\n## Notes\nn\n";
    let s = update_index(Some(initial), 2, "y", "Proposed", "Y");
    assert_eq!(
        s,
        "| # | Status | Decision |\n|---|--------|----------|\n| [001](001-x.md) | Accepted | X |\n| [002](002-y.md) | Proposed | Y |\n\n## Notes\nn\n"
    );
}

#[test]
fn index_row_after_unterminated_last_row() {
    let initial = "|---|---|\n| [001](001-x.md) | Accepted | X |";
    let s = update_index(Some(initial), 2, "y", "Proposed", "Y");
    assert_eq!(s, "|---|---|\n| [001](001-x.md) | Accepted | X || [002](002-y.md) | Proposed | Y |\n");
}

#[test]
fn index_row_after_empty_table() {
    let initial = "## Index\n\n| # | Status | Decision |\n|---|--------|----------|\nMore text\n";
    let s = update_index(Some(initial), 1, "a", "Proposed", "A");
    assert_eq!(
        s,
        "## Index\n\n| # | Status | Decision |\n|---|--------|----------|\n| [001](001-a.md) | Proposed | A |\nMore text\n"
    );
}

#[test]
fn number_from_capture_reads_markdown_names_only() {
    assert_eq!(number_from_capture("007-x.md", Some("007".to_string())), Some(7));
    assert_eq!(number_from_capture("007-x.txt", Some("007".to_string())), None);
    assert_eq!(number_from_capture("notes.md", None), None);
    assert_eq!(number_from_capture("99999999999-x.md", Some("99999999999".to_string())), None);
}

#[test]
fn next_after_takes_one_past_the_largest() {
    assert_eq!(next_after(&vec![]).unwrap(), 1);
    assert_eq!(next_after(&vec![Some(3), None, Some(12), Some(5)]).unwrap(), 13);
    assert!(matches!(next_after(&vec![Some(1), Some(u32::MAX)]), Err(ToolError::Overflow)));
}
