use neocurl::render::{align_left, align_right, bucket_line_of, report_lines, status_line_of};
use neocurl::response::{PyResponse, Received, TransportError, TransportKind};
use neocurl::stats::{summarize, StatusBucket, TimeBucket};

fn outcome(index: u32, code: u16, millis: u64) -> PyResponse {
    PyResponse::from_answer(
        index,
        Received { status_code: code, headers: vec![], body: Some(String::new()), duration: millis },
    )
}

#[test]
fn fields_are_padded_with_blanks() {
    assert_eq!(align_right("42", 5), "   42");
    assert_eq!(align_left("42", 5), "42   ");
    assert_eq!(align_right("", 3), "   ");
    assert_eq!(align_left("", 3), "   ");
    assert_eq!(align_right("12345", 5), "12345");
    assert_eq!(align_left("123456", 5), "123456");
    assert_eq!(align_right("abc", 0), "abc");
    assert_eq!(align_right("\u{e9}t\u{e9}", 5), "  \u{e9}t\u{e9}");
    for (text, width) in [("7", 4usize), ("status", 30), ("long enough", 3)] {
        assert_eq!(align_right(text, width), format!("{:>w$}", text, w = width));
        assert_eq!(align_left(text, width), format!("{:<w$}", text, w = width));
    }
}

#[test]
fn line_of_a_bucket() {
    let bucket = TimeBucket { from: 90, to: 100, amount: 1, chars: 6, shown: true };
    assert_eq!(bucket_line_of(&bucket), "   90-100   - 1     |######");
    assert_eq!(
        bucket_line_of(&bucket),
        format!("{:>5}-{:<5} - {:<5} |{}", 90, 100, 1, "#".repeat(6))
    );
    let wide = TimeBucket { from: 1_000_000, to: 1_000_010, amount: 123_456, chars: 21, shown: false };
    assert_eq!(
        bucket_line_of(&wide),
        format!("{:>5}-{:<5} - {:<5} |{}", 1_000_000, 1_000_010, 123_456, "#".repeat(21))
    );
}

#[test]
fn line_of_a_status_code() {
    let line = StatusBucket { code: 200, status: "OK".to_string(), amount: 3, chars: 13 };
    assert_eq!(
        status_line_of(&line),
        format!("  [{:>30}] - {:<5} |{}", "OK", 3, "#".repeat(13))
    );
    assert_eq!(status_line_of(&line), "  [                            OK] - 3     |#############");
}

#[test]
fn report_as_it_is_shown() {
    let batch = vec![
        outcome(0, 200, 5),
        outcome(1, 200, 15),
        outcome(2, 404, 16),
        outcome(3, 200, 17),
        outcome(4, 200, 95),
    ];
    let report = summarize(&batch, 120, 10, 25).unwrap();
    assert_eq!(
        report_lines(&report, "29.6000", "33.78"),
        vec![
            "Total Responses: 5",
            "Total: 120 ms",
            "Average: 29.6000 ms",
            "Slowest: 95 ms",
            "Fastest: 5 ms",
            "Req/s: 33.78",
            "",
            "Responses by time (cut off: 25%):",
            "   10-20    - 3     |#############",
            "",
            "Status Codes:",
            "  [                            OK] - 4     |#################",
            "  [                     Not Found] - 1     |#####",
        ]
    );
}

#[test]
fn report_on_nothing_as_it_is_shown() {
    let report = summarize(&Vec::new(), 0, 10, 0).unwrap();
    assert_eq!(
        report_lines(&report, "0.0000", "0.00"),
        vec![
            "Total Responses: 0",
            "Total: 0 ms",
            "Average: 0.0000 ms",
            "Slowest: 0 ms",
            "Fastest: 0 ms",
            "Req/s: 0.00",
            "",
            "Responses by time (cut off: 0%):",
            "",
            "Status Codes:",
        ]
    );
}

#[test]
fn outcome_as_it_is_shown() {
    let answered = PyResponse::from_answer(
        0,
        Received {
            status_code: 200,
            headers: vec![
                ("content-type".to_string(), Some("text/plain".to_string())),
                ("x-id".to_string(), Some("7".to_string())),
            ],
            body: Some("hello\nworld".to_string()),
            duration: 12,
        },
    );
    assert_eq!(
        answered.describe(),
        vec![
            "Response:",
            "  Status: 200 OK",
            "  Duration: 12",
            "  Headers:\n    (content-type: text/plain),\n    (x-id: 7)",
            "  Body:\nhello\nworld",
        ]
    );
    let failed = PyResponse::from_failure(
        3,
        TransportError { kind: TransportKind::Timeout, status: None, elapsed: 30_000 },
    );
    assert_eq!(
        failed.describe(),
        vec![
            "Response:",
            "  Status: 500 Internal Server Error",
            "  Duration: 30000",
            "  Headers:\n    ",
            "  Body:\nNone",
        ]
    );
}
