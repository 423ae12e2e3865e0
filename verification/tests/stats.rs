use neocurl::batch::{PyAsyncResponses, ResponseStats};
use neocurl::response::{PyResponse, Received};
use neocurl::stats::{
    bar, summarize, IndexError, Ratio, StatsError, TimeBucket, MAX_CHARS,
};

fn outcome(index: u32, code: u16, millis: u64) -> PyResponse {
    PyResponse::from_answer(
        index,
        Received { status_code: code, headers: vec![], body: Some(String::new()), duration: millis },
    )
}

fn outcomes(durations: &[u64]) -> Vec<PyResponse> {
    durations.iter().enumerate().map(|(i, d)| outcome(i as u32, 200, *d)).collect()
}


#[test]
fn histogram_buckets_of_width_ten() {
    let report = summarize(&outcomes(&[5, 15, 25, 95]), 100, 10, 0).unwrap();
    assert_eq!(
        report.by_time,
        vec![
            TimeBucket { from: 0, to: 10, amount: 1, chars: 6, shown: true },
            TimeBucket { from: 10, to: 20, amount: 1, chars: 6, shown: true },
            TimeBucket { from: 20, to: 30, amount: 1, chars: 6, shown: true },
            TimeBucket { from: 90, to: 100, amount: 1, chars: 6, shown: true },
        ]
    );
}

#[test]
fn throughput_goes_by_the_sum_of_durations() {
    for batch_millis in [1u64, 100, 400, 1_000_000] {
        let report = summarize(&outcomes(&[100, 100, 100, 100]), batch_millis, 10, 0).unwrap();
        assert_eq!(report.throughput, Ratio { num: 4000, den: 400 });
        assert_eq!(report.throughput.floor(), 10);
        assert_eq!(report.throughput.num as f64 / report.throughput.den as f64, 10.0);
        assert_eq!(report.total_duration, batch_millis);
    }
}

#[test]
fn summarize_twice_gives_the_same_report() {
    let batch = vec![
        outcome(0, 200, 12),
        outcome(1, 404, 7),
        outcome(2, 200, 33),
        outcome(3, 500, 12),
        outcome(4, 200, 0),
    ];
    let first = summarize(&batch, 50, 5, 25).unwrap();
    let second = summarize(&batch, 50, 5, 25).unwrap();
    assert_eq!(first, second);
    assert_eq!(format!("{:?}", first), format!("{:?}", second));
}

#[test]
fn buckets_do_not_depend_on_arrival_order() {
    let forward = summarize(&outcomes(&[95, 5, 15, 17, 25, 5]), 1, 10, 0).unwrap();
    let backward = summarize(&outcomes(&[5, 25, 17, 15, 5, 95]), 1, 10, 0).unwrap();
    assert_eq!(forward.by_time, backward.by_time);
    assert_eq!(
        forward.by_time.iter().map(|b| (b.from, b.amount)).collect::<Vec<_>>(),
        vec![(0, 2), (10, 2), (20, 1), (90, 1)]
    );
}

#[test]
fn aggregate_numbers() {
    let report = summarize(&outcomes(&[30, 10, 20, 41]), 60, 10, 0).unwrap();
    assert_eq!(report.total_responses, 4);
    assert_eq!(report.duration_sum, 101);
    assert_eq!(report.average, Ratio { num: 101, den: 4 });
    assert_eq!(report.average.floor(), 25);
    assert_eq!(report.average.num as f64 / report.average.den as f64, 25.25);
    assert_eq!(report.slowest, 41);
    assert_eq!(report.fastest, 10);
    assert_eq!(report.throughput, Ratio { num: 4000, den: 101 });
    assert_eq!(report.throughput.floor(), 39);
    assert_eq!(report.cut_off, 0);
}

#[test]
fn report_on_nothing_is_all_zero() {
    let report = summarize(&Vec::new(), 0, 10, 5).unwrap();
    assert_eq!(report.total_responses, 0);
    assert_eq!(report.duration_sum, 0);
    assert_eq!(report.average.floor(), 0);
    assert_eq!(report.average, Ratio { num: 0, den: 1 });
    assert_eq!(report.slowest, 0);
    assert_eq!(report.fastest, 0);
    assert_eq!(report.throughput, Ratio { num: 0, den: 1 });
    assert!(report.by_time.is_empty());
    assert!(report.by_status.is_empty());
}

#[test]
fn report_on_nothing_needs_no_bucket_width() {
    for cutoff in [0u32, 5, 100] {
        let report = summarize(&Vec::new(), 3, 0, cutoff).unwrap();
        assert_eq!(report.total_responses, 0);
        assert_eq!(report.total_duration, 3);
        assert_eq!(report.duration_sum, 0);
        assert_eq!(report.average, Ratio { num: 0, den: 1 });
        assert_eq!(report.average.floor(), 0);
        assert_eq!(report.slowest, 0);
        assert_eq!(report.fastest, 0);
        assert_eq!(report.throughput, Ratio { num: 0, den: 1 });
        assert_eq!(report.cut_off, cutoff);
        assert!(report.by_time.is_empty());
        assert!(report.by_status.is_empty());
        assert_eq!(report, summarize(&Vec::new(), 3, 10, cutoff).unwrap());
    }
    let empty = PyAsyncResponses::new(Vec::new(), 0);
    assert_eq!(empty.summarize(0, 0).unwrap().total_responses, 0);
}

#[test]
fn throughput_is_zero_when_durations_sum_to_zero() {
    let report = summarize(&outcomes(&[0, 0, 0]), 9, 10, 0).unwrap();
    assert_eq!(report.throughput, Ratio { num: 0, den: 1 });
    assert_eq!(report.average, Ratio { num: 0, den: 3 });
    assert_eq!(report.average.floor(), 0);
    assert_eq!(report.by_time, vec![TimeBucket { from: 0, to: 10, amount: 3, chars: 21, shown: true }]);
}

#[test]
fn zero_bucket_width_is_refused() {
    assert_eq!(summarize(&outcomes(&[1, 2]), 3, 0, 0).err(), Some(StatsError::ZeroBucketWidth));
    assert_eq!(summarize(&outcomes(&[0]), 3, 0, 0).err(), Some(StatsError::ZeroBucketWidth));
}

#[test]
fn bar_lengths_grow_with_the_share() {
    // 1 of 8, 3 of 8 and 4 of 8: floor(20 * share) + 1.
    let report = summarize(&outcomes(&[1, 11, 12, 13, 21, 22, 23, 24]), 1, 10, 0).unwrap();
    assert_eq!(
        report.by_time.iter().map(|b| (b.amount, b.chars)).collect::<Vec<_>>(),
        vec![(1, 3), (3, 8), (4, 11)]
    );
    assert_eq!(MAX_CHARS, 20);
    let full = summarize(&outcomes(&[7, 7]), 1, 10, 0).unwrap();
    assert_eq!(full.by_time[0].chars, 21);
}

#[test]
fn buckets_below_the_cutoff_are_not_shown_but_count() {
    // Shares: 10 %, 30 %, 60 %.
    let report =
        summarize(&outcomes(&[1, 11, 12, 13, 21, 22, 23, 24, 25, 26]), 1, 10, 30).unwrap();
    assert_eq!(
        report.by_time.iter().map(|b| (b.from, b.amount, b.shown)).collect::<Vec<_>>(),
        vec![(0, 1, false), (10, 3, true), (20, 6, true)]
    );
    assert_eq!(report.total_responses, 10);
    assert_eq!(report.duration_sum, 178);
    assert_eq!(report.cut_off, 30);
    let all = summarize(&outcomes(&[1, 11, 12, 13]), 1, 10, 101).unwrap();
    assert!(all.by_time.iter().all(|b| !b.shown));
}

#[test]
fn the_top_bucket_does_not_overflow() {
    let report = summarize(&outcomes(&[u64::MAX]), 1, 10, 0).unwrap();
    assert_eq!(report.by_time.len(), 1);
    assert_eq!(report.by_time[0].from, u64::MAX - 5);
    assert_eq!(report.by_time[0].to, u64::MAX as u128 + 5);
}

#[test]
fn status_histogram_is_sorted_by_code() {
    let batch = vec![
        outcome(0, 500, 1),
        outcome(1, 200, 1),
        outcome(2, 404, 1),
        outcome(3, 200, 1),
        outcome(4, 200, 1),
    ];
    let report = summarize(&batch, 5, 10, 0).unwrap();
    let lines: Vec<(u16, &str, usize, u32)> =
        report.by_status.iter().map(|l| (l.code, l.status.as_str(), l.amount, l.chars)).collect();
    assert_eq!(
        lines,
        vec![(200, "OK", 3, 13), (404, "Not Found", 1, 5), (500, "Internal Server Error", 1, 5)]
    );
}

#[test]
fn status_text_is_that_of_the_first_outcome_with_the_code() {
    let mut odd = outcome(1, 200, 1);
    odd.status = "Fine".to_string();
    let report = summarize(&vec![outcome(0, 200, 1), odd], 5, 10, 0).unwrap();
    assert_eq!(report.by_status.len(), 1);
    assert_eq!(report.by_status[0].status, "OK");
    assert_eq!(report.by_status[0].amount, 2);
}

#[test]
fn bar_is_drawn_with_hashes() {
    assert_eq!(bar(0), "");
    assert_eq!(bar(1), "#");
    assert_eq!(bar(6), "######");
    assert_eq!(bar(21), "#".repeat(21));
}

#[test]
fn batch_keeps_figures_of_its_outcomes() {
    let batch = PyAsyncResponses::new(vec![outcome(1, 200, 30), outcome(0, 404, 10)], 35);
    assert_eq!(batch.amount(), 2);
    assert_eq!(batch.responses_stats.durations, vec![30, 10]);
    assert_eq!(batch.responses_stats.responses, vec![200, 404]);
    assert_eq!(batch.responses_stats.total_duration, 35);
    let stats = ResponseStats::of(&batch.responses, 36);
    assert_eq!(stats.durations, vec![30, 10]);
    assert_eq!(stats.responses, vec![200, 404]);
    assert_eq!(stats.total_duration, 36);
    let report = batch.summarize(20, 0).unwrap();
    assert_eq!(report.total_duration, 35);
    assert_eq!(report.total_responses, 2);
    assert_eq!(report.by_time.len(), 2);
    assert_eq!(batch.summarize(0, 0).err(), Some(StatsError::ZeroBucketWidth));
}

#[test]
fn nth_checks_its_index() {
    let batch = PyAsyncResponses::new(vec![outcome(1, 200, 30), outcome(0, 404, 10)], 35);
    assert_eq!(batch.nth(0).unwrap().index, 1);
    assert_eq!(batch.nth(1).unwrap().status_code, 404);
    assert_eq!(batch.nth(-1).err(), Some(IndexError::Negative));
    assert_eq!(batch.nth(2).err(), Some(IndexError::OutOfBounds { index: 2, size: 2 }));
    assert_eq!(batch.nth(isize::MAX).err(), Some(IndexError::OutOfBounds { index: isize::MAX as usize, size: 2 }));
}

#[test]
fn report_does_not_depend_on_arrival_order() {
    let arrived = vec![
        outcome(0, 200, 12),
        outcome(1, 404, 7),
        outcome(2, 200, 33),
        outcome(3, 500, 12),
        outcome(4, 200, 0),
        outcome(5, 404, 95),
    ];
    let mut backwards = arrived.clone();
    backwards.reverse();
    let mut shuffled = arrived.clone();
    shuffled.swap(0, 3);
    shuffled.swap(1, 5);
    shuffled.rotate_left(2);
    let report = summarize(&arrived, 50, 10, 20).unwrap();
    assert_eq!(summarize(&backwards, 50, 10, 20).unwrap(), report);
    assert_eq!(summarize(&shuffled, 50, 10, 20).unwrap(), report);
    assert_eq!(report.by_status.len(), 3);
    assert_eq!(report.by_time.len(), 4);
}
