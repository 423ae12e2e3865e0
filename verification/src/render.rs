//! The lines that a report and an outcome are shown as. Printing them is
//! left to the caller, and so are the two figures of a report that are
//! shown with decimals.

use crate::response::{Outcome, PyResponse};
use crate::stats::{bar, Report, StatusBucket, StatusLine, Summary, TimeBucket, BAR_GLYPH};
use crate::text::{decimal_text, digits_of, text_view, texts_view};
use vstd::prelude::*;

verus! {

/// `count` blanks.
pub open spec fn blanks(count: nat) -> Seq<char> {
    Seq::new(count, |i: int| ' ')
}

/// `text` at the right end of a field of `width` characters; as it is
/// where it is longer than that.
pub open spec fn right_aligned(text: Seq<char>, width: nat) -> Seq<char> {
    if text.len() >= width {
        text
    } else {
        blanks((width - text.len()) as nat) + text
    }
}

/// `text` at the left end of a field of `width` characters; as it is where
/// it is longer than that.
pub open spec fn left_aligned(text: Seq<char>, width: nat) -> Seq<char> {
    if text.len() >= width {
        text
    } else {
        text + blanks((width - text.len()) as nat)
    }
}

/// A bar of `chars` glyphs.
pub open spec fn bar_of(chars: u32) -> Seq<char> {
    Seq::new(chars as nat, |i: int| BAR_GLYPH)
}

/// As many blanks as `text` is short of `width` characters.
fn padding(text: &str, width: usize) -> (r: String)
    ensures
        r@ == if text@.len() >= width {
            Seq::<char>::empty()
        } else {
            blanks((width - text@.len()) as nat)
        },
{
    let len = text.unicode_len();
    let mut pad = String::new();
    if len >= width {
        return pad;
    }
    let missing = width - len;
    let mut i: usize = 0;
    assert(pad@ =~= blanks(0));
    while i < missing
        invariant
            i <= missing,
            pad@ == blanks(i as nat),
        decreases missing - i,
    {
        pad.append(" ");
        proof {
            reveal_strlit(" ");
            assert(pad@ =~= blanks((i + 1) as nat));
        }
        i += 1;
    }
    pad
}

/// Computes [`right_aligned`].
pub fn align_right(text: &str, width: usize) -> (r: String)
    ensures
        r@ == right_aligned(text@, width as nat),
{
    let mut field = padding(text, width);
    field.append(text);
    assert(field@ =~= right_aligned(text@, width as nat));
    field
}

/// Computes [`left_aligned`].
pub fn align_left(text: &str, width: usize) -> (r: String)
    ensures
        r@ == left_aligned(text@, width as nat),
{
    let mut field = String::from_str(text);
    field.append(padding(text, width).as_str());
    assert(field@ =~= left_aligned(text@, width as nat));
    field
}

/// The line of one bucket of the latency histogram: its bounds, the number
/// of outcomes in it, and its bar.
pub open spec fn bucket_line(bucket: TimeBucket) -> Seq<char> {
    right_aligned(digits_of(bucket.from as nat), 5) + "-"@ + left_aligned(
        digits_of(bucket.to as nat),
        5,
    ) + " - "@ + left_aligned(digits_of(bucket.amount as nat), 5) + " |"@ + bar_of(bucket.chars)
}

/// The line of one status code: its text, the number of outcomes that came
/// with it, and its bar.
pub open spec fn status_code_line(line: StatusLine) -> Seq<char> {
    "  ["@ + right_aligned(line.status, 30) + "] - "@ + left_aligned(
        digits_of(line.amount as nat),
        5,
    ) + " |"@ + bar_of(line.chars)
}

/// The lines of those among the first `upto` buckets that are at or above
/// the cutoff, in their order.
pub open spec fn shown_lines(buckets: Seq<TimeBucket>, upto: nat) -> Seq<Seq<char>>
    decreases upto,
{
    if upto == 0 || upto > buckets.len() {
        Seq::empty()
    } else if buckets[upto - 1].shown {
        shown_lines(buckets, (upto - 1) as nat).push(bucket_line(buckets[upto - 1]))
    } else {
        shown_lines(buckets, (upto - 1) as nat)
    }
}

/// The lines of the status codes, in their order.
pub open spec fn status_lines(lines: Seq<StatusLine>) -> Seq<Seq<char>> {
    Seq::new(lines.len(), |i: int| status_code_line(lines[i]))
}

/// The lines above the latency histogram. `average` and `rate` are the
/// mean duration and the requests per second as the caller writes them.
pub open spec fn head_lines(summary: Summary, average: Seq<char>, rate: Seq<char>) -> Seq<
    Seq<char>,
> {
    seq![
        "Total Responses: "@ + digits_of(summary.total_responses as nat),
        "Total: "@ + digits_of(summary.total_duration as nat) + " ms"@,
        "Average: "@ + average + " ms"@,
        "Slowest: "@ + digits_of(summary.slowest as nat) + " ms"@,
        "Fastest: "@ + digits_of(summary.fastest as nat) + " ms"@,
        "Req/s: "@ + rate,
        Seq::<char>::empty(),
        "Responses by time (cut off: "@ + digits_of(summary.cut_off as nat) + "%):"@,
    ]
}

/// The lines between the two histograms.
pub open spec fn middle_lines() -> Seq<Seq<char>> {
    seq![Seq::<char>::empty(), "Status Codes:"@]
}

/// A report as it is shown: the figures, the latency histogram without the
/// buckets below the cutoff, and the status-code histogram.
pub open spec fn report_text(summary: Summary, average: Seq<char>, rate: Seq<char>) -> Seq<
    Seq<char>,
> {
    head_lines(summary, average, rate) + shown_lines(summary.by_time, summary.by_time.len())
        + middle_lines() + status_lines(summary.by_status)
}

/// Writes the line of a bucket: see [`bucket_line`].
pub fn bucket_line_of(bucket: &TimeBucket) -> (r: String)
    ensures
        r@ == bucket_line(*bucket),
{
    let mut line = align_right(decimal_text(bucket.from as u128).as_str(), 5);
    line.append("-");
    line.append(align_left(decimal_text(bucket.to).as_str(), 5).as_str());
    line.append(" - ");
    line.append(align_left(decimal_text(bucket.amount as u128).as_str(), 5).as_str());
    line.append(" |");
    line.append(bar(bucket.chars).as_str());
    assert(line@ =~= bucket_line(*bucket));
    line
}

/// Writes the line of a status code: see [`status_code_line`].
pub fn status_line_of(line: &StatusBucket) -> (r: String)
    ensures
        r@ == status_code_line(line@),
{
    let mut text = String::from_str("  [");
    text.append(align_right(line.status.as_str(), 30).as_str());
    text.append("] - ");
    text.append(align_left(decimal_text(line.amount as u128).as_str(), 5).as_str());
    text.append(" |");
    text.append(bar(line.chars).as_str());
    assert(text@ =~= status_code_line(line@));
    text
}

/// One line made of a label, a number and what follows the number.
fn figure_line(label: &str, number: u128, unit: &str) -> (r: String)
    ensures
        r@ == label@ + digits_of(number as nat) + unit@,
{
    let mut line = String::from_str(label);
    line.append(decimal_text(number).as_str());
    line.append(unit);
    line
}

/// The lines that `report` is shown as: see [`report_text`]. `average` and
/// `rate` stand for the mean duration and the requests per second.
pub fn report_lines(report: &Report, average: &str, rate: &str) -> (r: Vec<String>)
    ensures
        texts_view(r@) == report_text(report@, average@, rate@),
{
    let mut lines: Vec<String> = Vec::new();
    lines.push(figure_line("Total Responses: ", report.total_responses as u128, ""));
    lines.push(figure_line("Total: ", report.total_duration as u128, " ms"));
    let mut mean = String::from_str("Average: ");
    mean.append(average);
    mean.append(" ms");
    lines.push(mean);
    lines.push(figure_line("Slowest: ", report.slowest as u128, " ms"));
    lines.push(figure_line("Fastest: ", report.fastest as u128, " ms"));
    let mut per_second = String::from_str("Req/s: ");
    per_second.append(rate);
    lines.push(per_second);
    lines.push(String::new());
    lines.push(figure_line("Responses by time (cut off: ", report.cut_off as u128, "%):"));
    proof {
        reveal_strlit("");
        assert(""@ =~= Seq::<char>::empty());
        assert(texts_view(lines@) =~= head_lines(report@, average@, rate@));
    }
    let ghost head = head_lines(report@, average@, rate@);
    let mut i: usize = 0;
    while i < report.by_time.len()
        invariant
            i <= report.by_time.len(),
            texts_view(lines@) == head + shown_lines(report.by_time@, i as nat),
        decreases report.by_time.len() - i,
    {
        let ghost before = texts_view(lines@);
        if report.by_time[i].shown {
            let line = bucket_line_of(&report.by_time[i]);
            lines.push(line);
            assert(texts_view(lines@) =~= before.push(line@));
            assert(shown_lines(report.by_time@, (i + 1) as nat) == shown_lines(
                report.by_time@,
                i as nat,
            ).push(bucket_line(report.by_time[i as int])));
            assert(before.push(line@) =~= head + shown_lines(report.by_time@, (i + 1) as nat));
        } else {
            assert(shown_lines(report.by_time@, (i + 1) as nat) == shown_lines(
                report.by_time@,
                i as nat,
            ));
        }
        i += 1;
    }
    let ghost upper = head + shown_lines(report.by_time@, report.by_time@.len());
    let ghost before = texts_view(lines@);
    lines.push(String::new());
    lines.push(String::from_str("Status Codes:"));
    assert(texts_view(lines@) =~= before + middle_lines());
    assert(forall|j: int|
        0 <= j < upper.len() + 2 ==> (#[trigger] lines[j])@ == texts_view(lines@)[j]);
    let mut k: usize = 0;
    while k < report.by_status.len()
        invariant
            k <= report.by_status.len(),
            lines.len() == upper.len() + 2 + k,
            forall|j: int|
                0 <= j < upper.len() + 2 ==> (#[trigger] lines[j])@ == (upper + middle_lines())[j],
            forall|j: int|
                0 <= j < k ==> (#[trigger] lines[upper.len() + 2 + j])@ == status_code_line(
                    report.by_status[j]@,
                ),
        decreases report.by_status.len() - k,
    {
        let line = status_line_of(&report.by_status[k]);
        lines.push(line);
        k += 1;
    }
    proof {
        let shown = texts_view(lines@);
        let expected = report_text(report@, average@, rate@);
        assert(report@.by_status.len() == report.by_status.len());
        assert(shown.len() == expected.len());
        assert forall|j: int| 0 <= j < shown.len() implies shown[j] == expected[j] by {
            if j < upper.len() + 2 {
                assert(lines[j]@ == (upper + middle_lines())[j]);
            } else {
                let at = j - (upper.len() + 2);
                assert(lines[upper.len() + 2 + at]@ == status_code_line(report.by_status[at]@));
                assert(report@.by_status[at] == report.by_status[at]@);
            }
        }
        assert(shown =~= expected);
    }
    lines
}

/// The headers of an outcome as they are shown: each pair in brackets, one
/// below the other.
pub open spec fn headers_text(headers: Seq<(Seq<char>, Seq<char>)>, upto: nat) -> Seq<char>
    decreases upto,
{
    if upto == 0 || upto > headers.len() {
        Seq::empty()
    } else if upto == 1 {
        "("@ + headers[0].0 + ": "@ + headers[0].1 + ")"@
    } else {
        headers_text(headers, (upto - 1) as nat) + ",\n    "@ + "("@ + headers[upto - 1].0 + ": "@
            + headers[upto - 1].1 + ")"@
    }
}

/// An outcome as it is shown.
pub open spec fn outcome_text(outcome: Outcome) -> Seq<Seq<char>> {
    seq![
        "Response:"@,
        "  Status: "@ + digits_of(outcome.status_code as nat) + " "@ + outcome.status,
        "  Duration: "@ + digits_of(outcome.duration as nat),
        "  Headers:\n    "@ + headers_text(outcome.headers, outcome.headers.len()),
        "  Body:\n"@ + match outcome.body {
            Some(body) => body,
            None => "None"@,
        },
    ]
}

impl PyResponse {
    /// The lines that the outcome is shown as: see [`outcome_text`].
    pub fn describe(&self) -> (r: Vec<String>)
        ensures
            texts_view(r@) == outcome_text(self@),
    {
        let mut status = figure_line("  Status: ", self.status_code as u128, " ");
        status.append(self.status.as_str());
        let mut headers = String::from_str("  Headers:\n    ");
        let ghost shown = crate::text::pairs_view(self.headers@);
        let mut i: usize = 0;
        while i < self.headers.len()
            invariant
                i <= self.headers.len(),
                shown == crate::text::pairs_view(self.headers@),
                headers@ == "  Headers:\n    "@ + headers_text(shown, i as nat),
            decreases self.headers.len() - i,
        {
            if i > 0 {
                headers.append(",\n    ");
            }
            headers.append("(");
            headers.append(self.headers[i].0.as_str());
            headers.append(": ");
            headers.append(self.headers[i].1.as_str());
            headers.append(")");
            assert(shown[i as int] == (self.headers[i as int].0@, self.headers[i as int].1@));
            assert(headers@ =~= "  Headers:\n    "@ + headers_text(shown, (i + 1) as nat));
            i += 1;
        }
        let mut body = String::from_str("  Body:\n");
        match &self.body {
            Some(text) => body.append(text.as_str()),
            None => body.append("None"),
        }
        assert(text_view(self.body) == self@.body);
        let mut lines: Vec<String> = Vec::new();
        lines.push(String::from_str("Response:"));
        lines.push(status);
        lines.push(figure_line("  Duration: ", self.duration as u128, ""));
        lines.push(headers);
        lines.push(body);
        proof {
            reveal_strlit("");
            assert(""@ =~= Seq::<char>::empty());
            assert(texts_view(lines@) =~= outcome_text(self@));
        }
        lines
    }
}

} // verus!
