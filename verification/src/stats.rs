//! Reducing the outcomes of a batch to a report: totals, extremes, a
//! latency histogram and a status-code histogram.
//!
//! A report is a function of the outcomes, the bucket width and the cutoff,
//! and of nothing else: the order in which outcomes arrived decides only
//! which status text stands beside a code that came with more than one.

use crate::dispatch::outcomes_view;
use crate::groups::{group, grouping, is_grouping, lemma_occurrences, occurrences, Group};
use crate::rearranged::{
    is_rearranged, lemma_rearranged_len, lemma_rearranged_member, lemma_rearranged_symmetric,
    lemma_weighed_rearranged, weighed,
};
use crate::response::{Outcome, PyResponse};
use vstd::prelude::*;

verus! {

/// The longest bar of a histogram has this many glyphs, and one more.
pub const MAX_CHARS: u32 = 20;

/// The glyph that histogram bars are drawn with.
pub const BAR_GLYPH: char = '#';

/// Why no report could be made.
#[derive(Clone, Copy, Debug, PartialEq, Eq, Structural)]
pub enum StatsError {
    /// There are outcomes to put in buckets, and the buckets have no width.
    ZeroBucketWidth,
}

/// Why a batch has no outcome at an index.
#[derive(Clone, Copy, Debug, PartialEq, Eq, Structural)]
pub enum IndexError {
    /// The index is below zero.
    Negative,
    /// The index is not below the number of outcomes, which is `size`.
    OutOfBounds { index: usize, size: usize },
}

/// A quotient of two whole numbers, kept exact. A denominator of zero
/// stands for the number zero.
#[derive(Clone, Copy, Debug, PartialEq, Eq, Structural)]
pub struct Ratio {
    pub num: u128,
    pub den: u128,
}

impl Ratio {
    /// The whole part of the quotient.
    pub open spec fn spec_floor(&self) -> u128 {
        if self.den == 0 {
            0
        } else {
            self.num / self.den
        }
    }

    /// Computes [`Self::spec_floor`].
    #[verifier::when_used_as_spec(spec_floor)]
    pub fn floor(&self) -> (r: u128)
        ensures
            r == self.spec_floor(),
    {
        if self.den == 0 {
            0
        } else {
            self.num / self.den
        }
    }
}

/// The sum of `durations`.
pub open spec fn sum(durations: Seq<u64>) -> nat
    decreases durations.len(),
{
    if durations.len() == 0 {
        0
    } else {
        sum(durations.drop_last()) + durations.last() as nat
    }
}

/// `value` is the greatest of `durations`, or zero where there is none.
pub open spec fn is_slowest(durations: Seq<u64>, value: u64) -> bool {
    if durations.len() == 0 {
        value == 0
    } else {
        &&& forall|i: int| 0 <= i < durations.len() ==> durations[i] <= value
        &&& exists|i: int| 0 <= i < durations.len() && durations[i] == value
    }
}

/// `value` is the least of `durations`, or zero where there is none.
pub open spec fn is_fastest(durations: Seq<u64>, value: u64) -> bool {
    if durations.len() == 0 {
        value == 0
    } else {
        &&& forall|i: int| 0 <= i < durations.len() ==> durations[i] >= value
        &&& exists|i: int| 0 <= i < durations.len() && durations[i] == value
    }
}

/// The arithmetic mean of `durations` in milliseconds; zero where there is
/// none.
pub open spec fn mean(durations: Seq<u64>) -> Ratio {
    if durations.len() == 0 {
        Ratio { num: 0, den: 1 }
    } else {
        Ratio { num: sum(durations) as u128, den: durations.len() as u128 }
    }
}

/// Requests per second: the number of outcomes over the sum of their
/// durations in seconds. The time the whole batch took plays no part in it.
/// Zero where the durations sum to zero.
pub open spec fn throughput(durations: Seq<u64>) -> Ratio {
    if sum(durations) == 0 {
        Ratio { num: 0, den: 1 }
    } else {
        Ratio { num: (durations.len() * 1000) as u128, den: sum(durations) as u128 }
    }
}

/// The lower bound of the bucket of `width` that `duration` falls into.
pub open spec fn bucket_floor(duration: u64, width: u64) -> u64 {
    (duration / width * width) as u64
}

/// The length of the bar for `amount` out of `total`: at least one glyph,
/// and one more for each twentieth of the total.
pub open spec fn bar_weight(amount: nat, total: nat) -> nat {
    amount * (MAX_CHARS as nat) / total + 1
}

/// Whether a bucket of `amount` out of `total` is listed under a cutoff of
/// `cutoff` percent: it is unless its share is below the cutoff.
pub open spec fn is_shown(amount: nat, total: nat, cutoff: u32) -> bool {
    amount * 100 >= cutoff * total
}

/// One bucket of the latency histogram.
#[derive(Clone, Copy, Debug, PartialEq, Eq, Structural)]
pub struct TimeBucket {
    /// Lower bound in milliseconds; belongs to the bucket.
    pub from: u64,
    /// Upper bound in milliseconds; does not belong to the bucket.
    pub to: u128,
    /// How many outcomes fall into the bucket.
    pub amount: usize,
    /// The length of the bucket's bar.
    pub chars: u32,
    /// Whether the bucket is at or above the cutoff. A bucket below it is
    /// left out of the listing, and counts all the same.
    pub shown: bool,
}

/// One line of the status-code histogram.
#[derive(Debug, Clone, PartialEq, Eq)]
pub struct StatusBucket {
    pub code: u16,
    /// The status text of the first outcome that came with the code.
    pub status: String,
    /// How many outcomes came with the code.
    pub amount: usize,
    /// The length of the line's bar.
    pub chars: u32,
}

/// A line of the status-code histogram, as plain values.
pub struct StatusLine {
    pub code: u16,
    pub status: Seq<char>,
    pub amount: usize,
    pub chars: u32,
}

impl View for StatusBucket {
    type V = StatusLine;

    open spec fn view(&self) -> StatusLine {
        StatusLine {
            code: self.code,
            status: self.status@,
            amount: self.amount,
            chars: self.chars,
        }
    }
}

/// What is known of a batch once it is over.
#[derive(Debug, Clone, PartialEq, Eq)]
pub struct Report {
    /// The number of outcomes.
    pub total_responses: usize,
    /// Milliseconds from the start of the batch to its last outcome.
    pub total_duration: u64,
    /// The sum of the outcomes' durations in milliseconds.
    pub duration_sum: u128,
    pub average: Ratio,
    pub slowest: u64,
    pub fastest: u64,
    pub throughput: Ratio,
    /// The cutoff in percent that `by_time` was marked with.
    pub cut_off: u32,
    /// The latency histogram, by rising lower bound.
    pub by_time: Vec<TimeBucket>,
    /// The status-code histogram, by rising code.
    pub by_status: Vec<StatusBucket>,
}

/// A report as plain values.
pub struct Summary {
    pub total_responses: usize,
    pub total_duration: u64,
    pub duration_sum: u128,
    pub average: Ratio,
    pub slowest: u64,
    pub fastest: u64,
    pub throughput: Ratio,
    pub cut_off: u32,
    pub by_time: Seq<TimeBucket>,
    pub by_status: Seq<StatusLine>,
}

impl View for Report {
    type V = Summary;

    open spec fn view(&self) -> Summary {
        Summary {
            total_responses: self.total_responses,
            total_duration: self.total_duration,
            duration_sum: self.duration_sum,
            average: self.average,
            slowest: self.slowest,
            fastest: self.fastest,
            throughput: self.throughput,
            cut_off: self.cut_off,
            by_time: self.by_time@,
            by_status: Seq::new(self.by_status@.len(), |i: int| self.by_status@[i]@),
        }
    }
}

/// The durations of `outcomes`, in their order.
pub open spec fn durations_of(outcomes: Seq<Outcome>) -> Seq<u64> {
    Seq::new(outcomes.len(), |i: int| outcomes[i].duration)
}

/// The status codes of `outcomes`, in their order.
pub open spec fn codes_of(outcomes: Seq<Outcome>) -> Seq<u16> {
    Seq::new(outcomes.len(), |i: int| outcomes[i].status_code)
}

/// For each duration the lower bound of its bucket.
pub open spec fn bucket_keys(durations: Seq<u64>, width: u64) -> Seq<u64> {
    Seq::new(durations.len(), |i: int| bucket_floor(durations[i], width))
}

/// The status codes of `outcomes` as grouping keys.
pub open spec fn status_keys(outcomes: Seq<Outcome>) -> Seq<u64> {
    Seq::new(outcomes.len(), |i: int| outcomes[i].status_code as u64)
}

/// The bucket that a group of equal lower bounds becomes.
pub open spec fn time_bucket(group: Group, width: u64, total: nat, cutoff: u32) -> TimeBucket {
    TimeBucket {
        from: group.key,
        to: (group.key + width) as u128,
        amount: group.amount,
        chars: bar_weight(group.amount as nat, total) as u32,
        shown: is_shown(group.amount as nat, total, cutoff),
    }
}

/// The latency histogram of `durations`: one bucket for each lower bound
/// that some duration falls on, by rising lower bound.
pub open spec fn time_histogram(durations: Seq<u64>, width: u64, cutoff: u32) -> Seq<TimeBucket> {
    let groups = grouping(bucket_keys(durations, width));
    Seq::new(groups.len(), |g: int| time_bucket(groups[g], width, durations.len(), cutoff))
}

/// The line that a group of equal status codes becomes.
pub open spec fn status_line(group: Group, outcomes: Seq<Outcome>) -> StatusLine {
    StatusLine {
        code: group.key as u16,
        status: outcomes[group.first as int].status,
        amount: group.amount,
        chars: bar_weight(group.amount as nat, outcomes.len()) as u32,
    }
}

/// The status-code histogram of `outcomes`: one line for each code that
/// occurs, by rising code.
pub open spec fn status_histogram(outcomes: Seq<Outcome>) -> Seq<StatusLine> {
    let groups = grouping(status_keys(outcomes));
    Seq::new(groups.len(), |g: int| status_line(groups[g], outcomes))
}

/// The two histograms of a report on `outcomes` are well defined: the
/// lower bounds of the buckets have a grouping, and so have the status
/// codes.
pub open spec fn histograms_defined(outcomes: Seq<Outcome>, width: u64) -> bool {
    &&& is_grouping(
        grouping(bucket_keys(durations_of(outcomes), width)),
        bucket_keys(durations_of(outcomes), width),
    )
    &&& is_grouping(grouping(status_keys(outcomes)), status_keys(outcomes))
}

/// The histograms of every list of outcomes that memory can hold are well
/// defined.
pub proof fn lemma_histograms_defined(outcomes: Seq<Outcome>, width: u64)
    requires
        outcomes.len() <= usize::MAX,
    ensures
        histograms_defined(outcomes, width),
{
    crate::groups::lemma_grouping_exists(bucket_keys(durations_of(outcomes), width));
    crate::groups::lemma_grouping_exists(status_keys(outcomes));
}

/// `summary` is the report on `outcomes` for a batch that took
/// `total_duration`, with buckets of `width` and a cutoff of `cutoff`
/// percent.
pub open spec fn is_summary_of(
    summary: Summary,
    outcomes: Seq<Outcome>,
    total_duration: u64,
    width: u64,
    cutoff: u32,
) -> bool {
    &&& summary.total_responses == outcomes.len()
    &&& summary.total_duration == total_duration
    &&& summary.duration_sum == sum(durations_of(outcomes))
    &&& summary.average == mean(durations_of(outcomes))
    &&& is_slowest(durations_of(outcomes), summary.slowest)
    &&& is_fastest(durations_of(outcomes), summary.fastest)
    &&& summary.throughput == throughput(durations_of(outcomes))
    &&& summary.cut_off == cutoff
    &&& summary.by_time == time_histogram(durations_of(outcomes), width, cutoff)
    &&& summary.by_status == status_histogram(outcomes)
}

/// A report depends on nothing but what it is a report on: two reports on
/// the same outcomes, made with the same width and cutoff, are equal in
/// every field.
pub proof fn law_report_determined(
    first: Summary,
    second: Summary,
    outcomes: Seq<Outcome>,
    total_duration: u64,
    width: u64,
    cutoff: u32,
)
    requires
        is_summary_of(first, outcomes, total_duration, width, cutoff),
        is_summary_of(second, outcomes, total_duration, width, cutoff),
    ensures
        first == second,
{
    let durations = durations_of(outcomes);
    if durations.len() > 0 {
        let i = choose|i: int| 0 <= i < durations.len() && durations[i] == first.slowest;
        let j = choose|j: int| 0 <= j < durations.len() && durations[j] == second.slowest;
        assert(durations[i] <= second.slowest && durations[j] <= first.slowest);
        let k = choose|k: int| 0 <= k < durations.len() && durations[k] == first.fastest;
        let l = choose|l: int| 0 <= l < durations.len() && durations[l] == second.fastest;
        assert(durations[k] >= second.fastest && durations[l] >= first.fastest);
    }
}

/// Outcomes that came with one code came with one status text.
pub open spec fn status_goes_with_code(outcomes: Seq<Outcome>) -> bool {
    forall|i: int, j: int|
        0 <= i < outcomes.len() && 0 <= j < outcomes.len() && (#[trigger] outcomes[i]).status_code
            == (#[trigger] outcomes[j]).status_code ==> outcomes[i].status == outcomes[j].status
}

/// The weight of an outcome in the sum of durations.
pub open spec fn by_duration() -> spec_fn(Outcome) -> nat {
    |outcome: Outcome| outcome.duration as nat
}

/// The weight that counts the outcomes in the bucket with the lower bound
/// `key`.
pub open spec fn in_bucket(width: u64, key: u64) -> spec_fn(Outcome) -> nat {
    |outcome: Outcome|
        if bucket_floor(outcome.duration, width) == key {
            1nat
        } else {
            0nat
        }
}

/// The weight that counts the outcomes whose status code, as a grouping
/// key, is `key`.
pub open spec fn with_code(key: u64) -> spec_fn(Outcome) -> nat {
    |outcome: Outcome|
        if outcome.status_code as u64 == key {
            1nat
        } else {
            0nat
        }
}

/// The figures that a report adds up or counts are sums of weights over the
/// outcomes.
proof fn lemma_figures_are_weights(outcomes: Seq<Outcome>, width: u64, key: u64)
    ensures
        sum(durations_of(outcomes)) == weighed(outcomes, by_duration()),
        occurrences(bucket_keys(durations_of(outcomes), width), key) == weighed(
            outcomes,
            in_bucket(width, key),
        ),
        occurrences(status_keys(outcomes), key) == weighed(outcomes, with_code(key)),
    decreases outcomes.len(),
{
    if outcomes.len() > 0 {
        let front = outcomes.drop_last();
        lemma_figures_are_weights(front, width, key);
        assert(durations_of(outcomes).drop_last() =~= durations_of(front));
        assert(bucket_keys(durations_of(outcomes), width).drop_last() =~= bucket_keys(
            durations_of(front),
            width,
        ));
        assert(status_keys(outcomes).drop_last() =~= status_keys(front));
    }
}

/// The greatest and the least duration of a list are those of the list
/// rearranged.
proof fn lemma_extremes_rearranged(
    first: Seq<Outcome>,
    second: Seq<Outcome>,
    slowest: u64,
    fastest: u64,
)
    requires
        is_rearranged(first, second),
        is_slowest(durations_of(first), slowest),
        is_fastest(durations_of(first), fastest),
    ensures
        is_slowest(durations_of(second), slowest),
        is_fastest(durations_of(second), fastest),
{
    lemma_rearranged_len(first, second);
    lemma_rearranged_symmetric(first, second);
    let ours = durations_of(first);
    let theirs = durations_of(second);
    if first.len() > 0 {
        assert forall|i: int| 0 <= i < theirs.len() implies slowest >= (#[trigger] theirs[i])
            && theirs[i] >= fastest by {
            lemma_rearranged_member(first, second, i);
            let j = choose|j: int| 0 <= j < first.len() && first[j] == second[i];
            assert(ours[j] == theirs[i]);
        }
        let high = choose|i: int| 0 <= i < ours.len() && ours[i] == slowest;
        lemma_rearranged_member(second, first, high);
        let high_there = choose|j: int| 0 <= j < second.len() && second[j] == first[high];
        assert(theirs[high_there] == slowest);
        let low = choose|i: int| 0 <= i < ours.len() && ours[i] == fastest;
        lemma_rearranged_member(second, first, low);
        let low_there = choose|j: int| 0 <= j < second.len() && second[j] == first[low];
        assert(theirs[low_there] == fastest);
    }
}

/// A report does not depend on the order in which the outcomes arrived:
/// the reports on a list of outcomes and on the same outcomes in another
/// order are equal in every field. This is so where the status text goes
/// with the status code; where one code came with two texts, the text shown
/// beside it is that of the outcome that arrived first.
pub proof fn law_report_ignores_arrival_order(
    first: Summary,
    second: Summary,
    outcomes: Seq<Outcome>,
    rearranged: Seq<Outcome>,
    total_duration: u64,
    width: u64,
    cutoff: u32,
)
    requires
        is_summary_of(first, outcomes, total_duration, width, cutoff),
        is_summary_of(second, rearranged, total_duration, width, cutoff),
        is_rearranged(outcomes, rearranged),
        status_goes_with_code(outcomes),
        outcomes.len() <= usize::MAX,
    ensures
        first == second,
{
    lemma_rearranged_len(outcomes, rearranged);
    lemma_rearranged_symmetric(outcomes, rearranged);
    lemma_figures_are_weights(outcomes, width, 0);
    lemma_figures_are_weights(rearranged, width, 0);
    lemma_weighed_rearranged(outcomes, rearranged, by_duration());
    lemma_extremes_rearranged(outcomes, rearranged, first.slowest, first.fastest);
    lemma_extremes_are_one(
        durations_of(rearranged),
        first.slowest,
        second.slowest,
        first.fastest,
        second.fastest,
    );
    lemma_histograms_defined(outcomes, width);
    lemma_histograms_defined(rearranged, width);

    let our_keys = bucket_keys(durations_of(outcomes), width);
    let their_keys = bucket_keys(durations_of(rearranged), width);
    assert forall|key: u64|
        #![trigger occurrences(our_keys, key)]
        #![trigger occurrences(their_keys, key)]
        occurrences(our_keys, key) == occurrences(their_keys, key) by {
        lemma_figures_are_weights(outcomes, width, key);
        lemma_figures_are_weights(rearranged, width, key);
        lemma_weighed_rearranged(outcomes, rearranged, in_bucket(width, key));
    }
    let ours = grouping(our_keys);
    let theirs = grouping(their_keys);
    crate::groups::lemma_groupings_agree(ours, our_keys, theirs, their_keys);
    assert(first.by_time =~= second.by_time) by {
        assert forall|g: int| 0 <= g < ours.len() implies time_bucket(
            ours[g],
            width,
            outcomes.len(),
            cutoff,
        ) == time_bucket(theirs[g], width, rearranged.len(), cutoff) by {
            assert(ours[g].key == theirs[g].key && ours[g].amount == theirs[g].amount);
        }
    }

    let our_codes = status_keys(outcomes);
    let their_codes = status_keys(rearranged);
    assert forall|key: u64|
        #![trigger occurrences(our_codes, key)]
        #![trigger occurrences(their_codes, key)]
        occurrences(our_codes, key) == occurrences(their_codes, key) by {
        lemma_figures_are_weights(outcomes, width, key);
        lemma_figures_are_weights(rearranged, width, key);
        lemma_weighed_rearranged(outcomes, rearranged, with_code(key));
    }
    let our_lines = grouping(our_codes);
    let their_lines = grouping(their_codes);
    crate::groups::lemma_groupings_agree(our_lines, our_codes, their_lines, their_codes);
    assert(first.by_status =~= second.by_status) by {
        assert forall|g: int| 0 <= g < our_lines.len() implies status_line(our_lines[g], outcomes)
            == status_line(their_lines[g], rearranged) by {
            let here = our_lines[g];
            let there = their_lines[g];
            assert(here.key == there.key && here.amount == there.amount);
            assert(crate::groups::is_first(our_codes, here.key, here.first as int));
            assert(crate::groups::is_first(their_codes, there.key, there.first as int));
            lemma_rearranged_member(outcomes, rearranged, there.first as int);
            let j = choose|j: int|
                0 <= j < outcomes.len() && outcomes[j] == rearranged[there.first as int];
            assert(our_codes[here.first as int] == outcomes[here.first as int].status_code as u64);
            assert(their_codes[there.first as int] == rearranged[there.first as int].status_code
                as u64);
            assert(outcomes[j].status_code == outcomes[here.first as int].status_code);
            assert(outcomes[j].status == outcomes[here.first as int].status);
        }
    }
}

/// What is the greatest of a list is so in one way only, and so is what is
/// the least.
proof fn lemma_extremes_are_one(
    durations: Seq<u64>,
    slowest: u64,
    other_slowest: u64,
    fastest: u64,
    other_fastest: u64,
)
    requires
        is_slowest(durations, slowest),
        is_slowest(durations, other_slowest),
        is_fastest(durations, fastest),
        is_fastest(durations, other_fastest),
    ensures
        slowest == other_slowest,
        fastest == other_fastest,
{
    if durations.len() > 0 {
        let i = choose|i: int| 0 <= i < durations.len() && durations[i] == slowest;
        let j = choose|j: int| 0 <= j < durations.len() && durations[j] == other_slowest;
        assert(durations[i] <= other_slowest && durations[j] <= slowest);
        let k = choose|k: int| 0 <= k < durations.len() && durations[k] == fastest;
        let l = choose|l: int| 0 <= l < durations.len() && durations[l] == other_fastest;
        assert(durations[k] >= other_fastest && durations[l] >= fastest);
    }
}

/// The number of outcomes in `buckets`, all buckets together.
pub open spec fn bucket_total(buckets: Seq<TimeBucket>) -> nat
    decreases buckets.len(),
{
    if buckets.len() == 0 {
        0
    } else {
        bucket_total(buckets.drop_last()) + buckets.last().amount as nat
    }
}

/// The buckets made of groups hold what the groups hold.
proof fn lemma_bucket_total(groups: Seq<Group>, width: u64, total: nat, cutoff: u32)
    ensures
        bucket_total(Seq::new(groups.len(), |g: int| time_bucket(groups[g], width, total, cutoff)))
            == crate::groups::amounts(groups),
    decreases groups.len(),
{
    let buckets = Seq::new(groups.len(), |g: int| time_bucket(groups[g], width, total, cutoff));
    if groups.len() > 0 {
        let front = groups.drop_last();
        lemma_bucket_total(front, width, total, cutoff);
        assert(buckets.drop_last() =~= Seq::new(
            front.len(),
            |g: int| time_bucket(front[g], width, total, cutoff),
        ));
    }
}

/// Every outcome is counted in exactly one bucket of the latency
/// histogram, whether the bucket is shown or not: the amounts of all
/// buckets add up to the number of outcomes.
pub proof fn law_buckets_count_every_outcome(
    summary: Summary,
    outcomes: Seq<Outcome>,
    total_duration: u64,
    width: u64,
    cutoff: u32,
)
    requires
        is_summary_of(summary, outcomes, total_duration, width, cutoff),
        outcomes.len() <= usize::MAX,
    ensures
        bucket_total(summary.by_time) == outcomes.len(),
{
    lemma_histograms_defined(outcomes, width);
    let durations = durations_of(outcomes);
    lemma_bucket_total(grouping(bucket_keys(durations, width)), width, durations.len(), cutoff);
}

/// The rate of a report goes by the durations of the outcomes alone: two
/// reports on the same outcomes show the same requests per second, however
/// long the two batches took as a whole.
pub proof fn law_throughput_ignores_batch_time(
    first: Summary,
    second: Summary,
    outcomes: Seq<Outcome>,
    first_duration: u64,
    second_duration: u64,
    width: u64,
    cutoff: u32,
)
    requires
        is_summary_of(first, outcomes, first_duration, width, cutoff),
        is_summary_of(second, outcomes, second_duration, width, cutoff),
    ensures
        first.throughput == second.throughput,
        first.throughput == throughput(durations_of(outcomes)),
{
}

/// The sum of durations is at most as many times the greatest duration as
/// there are durations.
pub proof fn lemma_sum_bound(durations: Seq<u64>)
    ensures
        sum(durations) <= durations.len() * (u64::MAX as nat),
    decreases durations.len(),
{
    if durations.len() > 0 {
        lemma_sum_bound(durations.drop_last());
        assert((durations.len() - 1) * (u64::MAX as nat) + (u64::MAX as nat) == durations.len() * (
        u64::MAX as nat)) by (nonlinear_arith);
    }
}

/// A bar of `chars` glyphs.
pub fn bar(chars: u32) -> (r: String)
    ensures
        r@ == Seq::new(chars as nat, |i: int| BAR_GLYPH),
{
    let mut line = String::new();
    let mut drawn: u32 = 0;
    while drawn < chars
        invariant
            drawn <= chars,
            line@ == Seq::new(drawn as nat, |i: int| BAR_GLYPH),
        decreases chars - drawn,
    {
        line.append("#");
        proof {
            reveal_strlit("#");
            assert("#"@ =~= seq![BAR_GLYPH]);
            assert(line@ =~= Seq::new((drawn + 1) as nat, |i: int| BAR_GLYPH));
        }
        drawn += 1;
    }
    line
}

/// A bar is never longer than [`MAX_CHARS`] and one.
pub proof fn lemma_bar_weight(amount: nat, total: nat)
    requires
        0 < total,
        amount <= total,
    ensures
        1 <= bar_weight(amount, total) <= MAX_CHARS + 1,
        amount >= 1 ==> bar_weight(amount, total) == amount * 20 / total + 1,
{
    assert(amount * 20 / total <= 20) by (nonlinear_arith)
        requires
            0 < total,
            amount <= total,
    ;
    assert(amount * 20 / total >= 0) by (nonlinear_arith)
        requires
            0 < total,
    ;
}

/// The latency histogram of the durations of `outcomes`.
fn time_buckets(outcomes: &Vec<PyResponse>, width: u64, cutoff: u32) -> (r: Vec<TimeBucket>)
    requires
        width > 0 || outcomes.len() == 0,
    ensures
        r@ == time_histogram(durations_of(outcomes_view(outcomes@)), width, cutoff),
        is_grouping(
            grouping(bucket_keys(durations_of(outcomes_view(outcomes@)), width)),
            bucket_keys(durations_of(outcomes_view(outcomes@)), width),
        ),
{
    let ghost durations = durations_of(outcomes_view(outcomes@));
    let total = outcomes.len();
    let mut keys: Vec<u64> = Vec::new();
    let mut i: usize = 0;
    while i < total
        invariant
            width > 0 || total == 0,
            total == outcomes.len(),
            i <= total,
            keys.len() == i,
            durations == durations_of(outcomes_view(outcomes@)),
            forall|k: int| 0 <= k < i ==> keys[k] == bucket_floor(durations[k], width),
        decreases total - i,
    {
        let duration = outcomes[i].duration;
        assert(duration == durations[i as int]);
        assert(duration / width * width <= duration) by (nonlinear_arith)
            requires
                width > 0,
        ;
        keys.push(duration / width * width);
        i += 1;
    }
    assert(keys@ =~= bucket_keys(durations, width));
    let groups = group(&keys);
    let mut buckets: Vec<TimeBucket> = Vec::new();
    let mut g: usize = 0;
    while g < groups.len()
        invariant
            g <= groups.len(),
            buckets.len() == g,
            total == keys.len(),
            total == durations.len(),
            is_grouping(groups@, keys@),
            forall|k: int|
                0 <= k < g ==> buckets[k] == time_bucket(groups[k], width, total as nat, cutoff),
        decreases groups.len() - g,
    {
        let found = groups[g];
        proof {
            lemma_occurrences(keys@, found.key);
            lemma_bar_weight(found.amount as nat, total as nat);
        }
        assert(cutoff * total <= 0xffff_ffff * 0xffff_ffff_ffff_ffff) by (nonlinear_arith)
            requires
                cutoff <= 0xffff_ffff,
                total <= 0xffff_ffff_ffff_ffff,
        ;
        let chars = (found.amount as u128 * 20 / (total as u128) + 1) as u32;
        let shown = found.amount as u128 * 100 >= cutoff as u128 * (total as u128);
        buckets.push(
            TimeBucket {
                from: found.key,
                to: found.key as u128 + width as u128,
                amount: found.amount,
                chars,
                shown,
            },
        );
        g += 1;
    }
    assert(buckets@ =~= time_histogram(durations, width, cutoff));
    buckets
}

/// The status-code histogram of `outcomes`.
fn status_buckets(outcomes: &Vec<PyResponse>) -> (r: Vec<StatusBucket>)
    ensures
        Seq::new(r@.len(), |i: int| r@[i]@) == status_histogram(outcomes_view(outcomes@)),
        is_grouping(
            grouping(status_keys(outcomes_view(outcomes@))),
            status_keys(outcomes_view(outcomes@)),
        ),
{
    let ghost seen = outcomes_view(outcomes@);
    let total = outcomes.len();
    let mut keys: Vec<u64> = Vec::new();
    let mut i: usize = 0;
    while i < total
        invariant
            total == outcomes.len(),
            i <= total,
            keys.len() == i,
            seen == outcomes_view(outcomes@),
            forall|k: int| 0 <= k < i ==> keys[k] == seen[k].status_code as u64,
        decreases total - i,
    {
        assert(outcomes[i as int]@ == seen[i as int]);
        keys.push(outcomes[i].status_code as u64);
        i += 1;
    }
    assert(keys@ =~= status_keys(seen));
    let groups = group(&keys);
    let mut lines: Vec<StatusBucket> = Vec::new();
    let mut g: usize = 0;
    while g < groups.len()
        invariant
            g <= groups.len(),
            lines.len() == g,
            total == keys.len(),
            total == outcomes.len(),
            seen == outcomes_view(outcomes@),
            keys@ == status_keys(seen),
            is_grouping(groups@, keys@),
            forall|k: int| 0 <= k < g ==> (#[trigger] lines[k])@ == status_line(groups[k], seen),
        decreases groups.len() - g,
    {
        let found = groups[g];
        proof {
            lemma_occurrences(keys@, found.key);
            lemma_bar_weight(found.amount as nat, total as nat);
            assert(crate::groups::is_first(keys@, found.key, found.first as int));
            assert(keys[found.first as int] == seen[found.first as int].status_code as u64);
            assert(outcomes[found.first as int]@ == seen[found.first as int]);
        }
        let chars = (found.amount as u128 * 20 / (total as u128) + 1) as u32;
        let first = &outcomes[found.first];
        lines.push(
            StatusBucket {
                code: first.status_code,
                status: first.status.clone(),
                amount: found.amount,
                chars,
            },
        );
        g += 1;
    }
    assert(Seq::new(lines@.len(), |i: int| lines@[i]@) =~= status_histogram(seen));
    lines
}

/// Reduces the outcomes of a batch to a report. `total_duration` is what
/// the batch took from its start to its last outcome; latencies are put in
/// buckets of `bucket_width` milliseconds, and buckets that hold less than
/// `cutoff_percent` percent of the outcomes are marked as not shown.
/// Without outcomes the report is all zeros and both histograms are empty,
/// whatever the width. A width of zero is an error only where there is an
/// outcome to put in a bucket.
pub fn summarize(
    outcomes: &Vec<PyResponse>,
    total_duration: u64,
    bucket_width: u64,
    cutoff_percent: u32,
) -> (r: Result<Report, StatsError>)
    ensures
        r is Err <==> bucket_width == 0 && outcomes.len() > 0,
        r matches Err(e) ==> e == StatsError::ZeroBucketWidth,
        r matches Ok(report) ==> is_summary_of(
            report@,
            outcomes_view(outcomes@),
            total_duration,
            bucket_width,
            cutoff_percent,
        ) && histograms_defined(outcomes_view(outcomes@), bucket_width),
{
    if bucket_width == 0 && outcomes.len() > 0 {
        return Err(StatsError::ZeroBucketWidth);
    }
    let ghost durations = durations_of(outcomes_view(outcomes@));
    let total = outcomes.len();
    let mut duration_sum: u128 = 0;
    let mut slowest: u64 = 0;
    let mut fastest: u64 = 0;
    let mut i: usize = 0;
    assert(durations.take(0) =~= Seq::<u64>::empty());
    while i < total
        invariant
            total == outcomes.len(),
            i <= total,
            durations == durations_of(outcomes_view(outcomes@)),
            duration_sum == sum(durations.take(i as int)),
            is_slowest(durations.take(i as int), slowest),
            is_fastest(durations.take(i as int), fastest),
        decreases total - i,
    {
        let duration = outcomes[i].duration;
        let ghost before = durations.take(i as int);
        let ghost now = durations.take(i + 1);
        proof {
            assert(duration == durations[i as int]);
            assert(now.drop_last() =~= before);
            assert(now.last() == duration);
            lemma_sum_bound(now);
            assert(now.len() * (u64::MAX as nat) <= usize::MAX * (u64::MAX as nat))
                by (nonlinear_arith)
                requires
                    now.len() <= usize::MAX,
            ;
            assert(usize::MAX * (u64::MAX as nat) <= u64::MAX * (u64::MAX as nat))
                by (nonlinear_arith)
                requires
                    usize::MAX <= u64::MAX,
            ;
            assert(forall|k: int| 0 <= k < before.len() ==> before[k] == now[k]);
        }
        duration_sum = duration_sum + duration as u128;
        if i == 0 || duration > slowest {
            slowest = duration;
        }
        if i == 0 || duration < fastest {
            fastest = duration;
        }
        proof {
            assert(is_slowest(now, slowest)) by {
                if slowest == duration {
                    assert(now[i as int] == slowest);
                    assert forall|k: int| 0 <= k < now.len() implies now[k] <= slowest by {
                        if k < i {
                            assert(before[k] == now[k]);
                        }
                    }
                } else {
                    let k = choose|k: int| 0 <= k < before.len() && before[k] == slowest;
                    assert(now[k] == slowest);
                    assert forall|k: int| 0 <= k < now.len() implies now[k] <= slowest by {
                        if k < i {
                            assert(before[k] == now[k]);
                        }
                    }
                }
            }
            assert(is_fastest(now, fastest)) by {
                if fastest == duration {
                    assert(now[i as int] == fastest);
                    assert forall|k: int| 0 <= k < now.len() implies now[k] >= fastest by {
                        if k < i {
                            assert(before[k] == now[k]);
                        }
                    }
                } else {
                    let k = choose|k: int| 0 <= k < before.len() && before[k] == fastest;
                    assert(now[k] == fastest);
                    assert forall|k: int| 0 <= k < now.len() implies now[k] >= fastest by {
                        if k < i {
                            assert(before[k] == now[k]);
                        }
                    }
                }
            }
        }
        i += 1;
    }
    assert(durations.take(total as int) =~= durations);
    let average = if total == 0 {
        Ratio { num: 0, den: 1 }
    } else {
        Ratio { num: duration_sum, den: total as u128 }
    };
    let throughput = if duration_sum == 0 {
        Ratio { num: 0, den: 1 }
    } else {
        Ratio { num: total as u128 * 1000, den: duration_sum }
    };
    let by_time = time_buckets(outcomes, bucket_width, cutoff_percent);
    let by_status = status_buckets(outcomes);
    Ok(
        Report {
            total_responses: total,
            total_duration,
            duration_sum,
            average,
            slowest,
            fastest,
            throughput,
            cut_off: cutoff_percent,
            by_time,
            by_status,
        },
    )
}

} // verus!
