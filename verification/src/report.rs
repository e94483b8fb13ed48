//! What is said of each item's outcome, and of the run as a whole.

use crate::text::{decimal, push_decimal};
use vstd::prelude::*;

verus! {

/// How the attempt to have one item's file ended.
#[derive(Debug, PartialEq, Eq)]
pub enum DownloadOutcome {
    /// The file was already there.
    Skipped,
    /// The file was fetched and stored.
    Succeeded,
    /// The fetch or the write failed; the text says how.
    Failed(String),
}

/// A [`DownloadOutcome`] over plain text.
pub enum OutcomeView {
    Skipped,
    Succeeded,
    Failed(Seq<char>),
}

impl View for DownloadOutcome {
    type V = OutcomeView;

    open spec fn view(&self) -> OutcomeView {
        match self {
            DownloadOutcome::Skipped => OutcomeView::Skipped,
            DownloadOutcome::Succeeded => OutcomeView::Succeeded,
            DownloadOutcome::Failed(cause) => OutcomeView::Failed(cause@),
        }
    }
}

/// The outcome of a download that ended with the error `error`, or without
/// one.
pub open spec fn outcome_of(error: Option<Seq<char>>) -> OutcomeView {
    match error {
        None => OutcomeView::Succeeded,
        Some(cause) => OutcomeView::Failed(cause),
    }
}

/// The line that reports one item's outcome: the file's name, what became of
/// it, and the count `shown` of `total`.
pub open spec fn outcome_line(name: Seq<char>, outcome: OutcomeView, shown: nat, total: nat) -> Seq<
    char,
> {
    match outcome {
        OutcomeView::Skipped => name + "\t\talready exists "@ + decimal(shown) + "/"@ + decimal(
            total,
        ),
        OutcomeView::Succeeded => name + "\tdownloaded "@ + decimal(shown) + "/"@ + decimal(total),
        OutcomeView::Failed(cause) => name + "\terror "@ + cause + " "@ + decimal(shown) + "/"@
            + decimal(total),
    }
}

/// The line that sums a run up: the files written, and the items that were
/// skipped or failed.
pub open spec fn summary_text(written: nat, others: nat) -> Seq<char> {
    "Wrote "@ + decimal(written) + " files. Skipped "@ + decimal(others) + "."@
}

/// What is said where the search has no results.
pub open spec fn no_results_text() -> Seq<char> {
    "No posts found."@
}

/// Why a search failed: the cause, and the page that was asked for.
pub open spec fn search_failure_text(cause: Seq<char>, page: nat) -> Seq<char> {
    cause + " at page "@ + decimal(page)
}

/// Why a fetch failed: the cause, and where the file was fetched from.
pub open spec fn fetch_failure_text(cause: Seq<char>, url: Seq<char>) -> Seq<char> {
    cause + " at "@ + url
}

/// Why a search failed: the cause, and the page that was asked for.
pub fn search_failure(cause: &str, page: usize) -> (text: String)
    ensures
        text@ == search_failure_text(cause@, page as nat),
{
    let mut text = String::new();
    text.append(cause);
    text.append(" at page ");
    push_decimal(&mut text, page);
    assert(text@ =~= search_failure_text(cause@, page as nat));
    text
}

/// Why a fetch failed: the cause, and where the file was fetched from.
pub fn fetch_failure(cause: &str, url: &str) -> (text: String)
    ensures
        text@ == fetch_failure_text(cause@, url@),
{
    let mut text = String::new();
    text.append(cause);
    text.append(" at ");
    text.append(url);
    assert(text@ =~= fetch_failure_text(cause@, url@));
    text
}

/// The line that reports one item's outcome.
pub fn report_line(name: &str, outcome: &DownloadOutcome, shown: usize, total: usize) -> (line:
    String)
    ensures
        line@ == outcome_line(name@, outcome@, shown as nat, total as nat),
{
    let mut line = String::new();
    line.append(name);
    match outcome {
        DownloadOutcome::Skipped => {
            line.append("\t\talready exists ");
        },
        DownloadOutcome::Succeeded => {
            line.append("\tdownloaded ");
        },
        DownloadOutcome::Failed(cause) => {
            line.append("\terror ");
            line.append(cause.as_str());
            line.append(" ");
        },
    }
    push_decimal(&mut line, shown);
    line.append("/");
    push_decimal(&mut line, total);
    assert(line@ =~= outcome_line(name@, outcome@, shown as nat, total as nat));
    line
}

/// The line that sums a run up.
pub fn summary_line(written: usize, others: usize) -> (line: String)
    ensures
        line@ == summary_text(written as nat, others as nat),
{
    let mut line = String::new();
    line.append("Wrote ");
    push_decimal(&mut line, written);
    line.append(" files. Skipped ");
    push_decimal(&mut line, others);
    line.append(".");
    assert(line@ =~= summary_text(written as nat, others as nat));
    line
}

/// What is said where the search has no results.
pub fn no_results_line() -> (line: String)
    ensures
        line@ == no_results_text(),
{
    let mut line = String::new();
    line.append("No posts found.");
    assert(line@ =~= no_results_text());
    line
}

} // verus!
