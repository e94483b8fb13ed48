use gelbooru_dl::report::{
    fetch_failure, no_results_line, report_line, search_failure, summary_line, DownloadOutcome,
};

#[test]
fn skipped_line_has_two_tabs() {
    assert_eq!(
        report_line("abc123.png", &DownloadOutcome::Skipped, 1, 1),
        "abc123.png\t\talready exists 1/1"
    );
}

#[test]
fn succeeded_line_has_one_tab() {
    assert_eq!(
        report_line("abc123.png", &DownloadOutcome::Succeeded, 1, 1),
        "abc123.png\tdownloaded 1/1"
    );
}

#[test]
fn failed_line_holds_the_cause() {
    assert_eq!(
        report_line("b.png", &DownloadOutcome::Failed("connection reset at u/b.png".to_string()), 17, 2500),
        "b.png\terror connection reset at u/b.png 17/2500"
    );
}

#[test]
fn failed_line_with_empty_cause() {
    assert_eq!(report_line("b.png", &DownloadOutcome::Failed(String::new()), 2, 3), "b.png\terror  2/3");
}

#[test]
fn summary_line_counts_written_and_others() {
    assert_eq!(summary_line(1, 0), "Wrote 1 files. Skipped 0.");
    assert_eq!(summary_line(0, 1), "Wrote 0 files. Skipped 1.");
    assert_eq!(summary_line(2, 1), "Wrote 2 files. Skipped 1.");
    assert_eq!(summary_line(1234, 56), "Wrote 1234 files. Skipped 56.");
}

#[test]
fn no_results_line_text() {
    assert_eq!(no_results_line(), "No posts found.");
}

#[test]
fn search_failure_names_the_page() {
    assert_eq!(search_failure("connection refused", 0), "connection refused at page 0");
    assert_eq!(search_failure("timed out", 37), "timed out at page 37");
    assert_eq!(search_failure("", 5), " at page 5");
}

#[test]
fn fetch_failure_names_the_url() {
    assert_eq!(
        fetch_failure("body cut short", "https://img.example/images/ab/cd/abc123.png"),
        "body cut short at https://img.example/images/ab/cd/abc123.png"
    );
    assert_eq!(fetch_failure("", ""), " at ");
}
