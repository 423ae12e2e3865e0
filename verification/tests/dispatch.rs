use neocurl::dispatch::{shares, Action, DispatchError, Dispatcher, Share};
use neocurl::error::SetupError;
use neocurl::response::{PyResponse, Received, TransportError, TransportKind};

fn answer(code: u16, millis: u64) -> Result<Received, TransportError> {
    Ok(Received {
        status_code: code,
        headers: vec![("content-type".to_string(), Some("text/plain".to_string()))],
        body: Some("ok".to_string()),
        duration: millis,
    })
}

fn timeout(millis: u64) -> Result<Received, TransportError> {
    Err(TransportError { kind: TransportKind::Timeout, status: None, elapsed: millis })
}

/// Drives a batch to its end. `pick` chooses which of the requests in flight
/// ends next; `result` says how the request with a given ordinal ends.
/// Returns the outcomes and the most requests seen in flight at once.
fn drive(
    count: u32,
    permits: u32,
    pick: fn(&[u32], u32) -> usize,
    result: fn(u32) -> Result<Received, TransportError>,
) -> (Vec<PyResponse>, u32) {
    let mut dispatcher = Dispatcher::new(count, permits).unwrap();
    let mut flying: Vec<u32> = Vec::new();
    let mut high_water = 0;
    let mut turn = 0;
    loop {
        match dispatcher.advance() {
            Action::Launch(ordinal) => {
                flying.push(ordinal);
                assert_eq!(dispatcher.in_flight() as usize, flying.len());
                if dispatcher.in_flight() > high_water {
                    high_water = dispatcher.in_flight();
                }
                assert!(dispatcher.in_flight() <= permits);
            }
            Action::Wait => {
                let at = pick(&flying, turn);
                let ordinal = flying.remove(at);
                let before = dispatcher.completed();
                dispatcher.finish(ordinal, result(ordinal)).unwrap();
                assert_eq!(dispatcher.completed(), before + 1);
                turn += 1;
            }
            Action::Finished => break,
        }
    }
    assert!(flying.is_empty());
    assert!(dispatcher.is_done());
    (dispatcher.into_outcomes(), high_water)
}

fn oldest(_flying: &[u32], _turn: u32) -> usize {
    0
}

fn youngest(flying: &[u32], _turn: u32) -> usize {
    flying.len() - 1
}

fn scattered(flying: &[u32], turn: u32) -> usize {
    (turn as usize * 7 + 3) % flying.len()
}

fn always_ok(_ordinal: u32) -> Result<Received, TransportError> {
    answer(200, 10)
}

fn third_times_out(ordinal: u32) -> Result<Received, TransportError> {
    if ordinal == 3 {
        timeout(30_000)
    } else {
        answer(200, 10)
    }
}

fn assert_each_ordinal_once(outcomes: &[PyResponse], count: u32) {
    assert_eq!(outcomes.len(), count as usize);
    let mut seen = vec![false; count as usize];
    for outcome in outcomes {
        assert!(outcome.index < count);
        assert!(!seen[outcome.index as usize]);
        seen[outcome.index as usize] = true;
    }
    assert!(seen.iter().all(|s| *s));
}

#[test]
fn ten_requests_two_permits() {
    let (outcomes, high_water) = drive(10, 2, oldest, always_ok);
    assert_eq!(outcomes.len(), 10);
    assert!(outcomes.iter().all(|o| o.status_code == 200));
    assert!(outcomes.iter().all(|o| o.status == "OK"));
    assert_eq!(high_water, 2);
    assert_each_ordinal_once(&outcomes, 10);
}

#[test]
fn one_timeout_does_not_abort_the_batch() {
    let (outcomes, high_water) = drive(5, 2, youngest, third_times_out);
    assert_eq!(outcomes.len(), 5);
    assert!(high_water <= 2);
    assert_eq!(outcomes.iter().filter(|o| o.status_code == 200).count(), 4);
    let failed: Vec<&PyResponse> = outcomes.iter().filter(|o| o.status_code == 500).collect();
    assert_eq!(failed.len(), 1);
    assert_eq!(failed[0].index, 3);
    assert_eq!(failed[0].status, "Internal Server Error");
    assert_eq!(failed[0].duration, 30_000);
    assert!(failed[0].body.is_none());
    assert!(failed[0].headers.is_empty());
    assert_each_ordinal_once(&outcomes, 5);
}

#[test]
fn never_more_in_flight_than_permits() {
    let picks: [fn(&[u32], u32) -> usize; 3] = [oldest, youngest, scattered];
    for count in [0u32, 1, 2, 7, 40] {
        for permits in [1u32, 2, 3, 8, 100] {
            for pick in picks {
                let (outcomes, high_water) = drive(count, permits, pick, always_ok);
                assert!(high_water <= permits);
                assert_eq!(high_water, count.min(permits));
                assert_each_ordinal_once(&outcomes, count);
            }
        }
    }
}

#[test]
fn outcomes_come_in_order_of_completion() {
    let (outcomes, _) = drive(4, 4, youngest, always_ok);
    let order: Vec<u32> = outcomes.iter().map(|o| o.index).collect();
    assert_eq!(order, vec![3, 2, 1, 0]);
}

#[test]
fn no_permits_is_a_setup_error() {
    assert_eq!(Dispatcher::new(5, 0).err(), Some(SetupError::NoPermits));
    assert_eq!(Dispatcher::new(0, 0).err(), Some(SetupError::NoPermits));
    assert_eq!(shares(5, 0).err(), Some(SetupError::NoPermits));
}

#[test]
fn empty_batch_is_finished_at_once() {
    let mut dispatcher = Dispatcher::new(0, 3).unwrap();
    assert!(dispatcher.is_done());
    assert_eq!(dispatcher.advance(), Action::Finished);
    assert!(dispatcher.into_outcomes().is_empty());
}

#[test]
fn finish_is_refused_for_a_request_without_permit() {
    let mut dispatcher = Dispatcher::new(3, 1).unwrap();
    assert_eq!(dispatcher.finish(0, always_ok(0)), Err(DispatchError::NotInFlight));
    assert_eq!(dispatcher.finish(3, always_ok(3)), Err(DispatchError::UnknownOrdinal));
    assert_eq!(dispatcher.start_next(), Some(0));
    assert_eq!(dispatcher.start_next(), None);
    assert_eq!(dispatcher.finish(1, always_ok(1)), Err(DispatchError::NotInFlight));
    assert_eq!(dispatcher.finish(0, always_ok(0)), Ok(()));
    assert_eq!(dispatcher.finish(0, always_ok(0)), Err(DispatchError::NotInFlight));
    assert_eq!(dispatcher.completed(), 1);
    assert_eq!(dispatcher.in_flight(), 0);
    assert_eq!(dispatcher.waiting(), 2);
    assert_eq!(dispatcher.count(), 3);
    assert_eq!(dispatcher.limit(), 1);
}

#[test]
fn a_given_request_starts_only_once_and_only_with_a_permit() {
    let mut dispatcher = Dispatcher::new(4, 2).unwrap();
    assert!(dispatcher.start(2));
    assert!(!dispatcher.start(2));
    assert!(!dispatcher.start(4));
    assert!(dispatcher.start(0));
    assert!(!dispatcher.start(1));
    assert_eq!(dispatcher.advance(), Action::Wait);
    dispatcher.finish(2, always_ok(2)).unwrap();
    assert_eq!(dispatcher.advance(), Action::Launch(1));
    assert_eq!(dispatcher.advance(), Action::Wait);
    dispatcher.finish(0, always_ok(0)).unwrap();
    assert_eq!(dispatcher.advance(), Action::Launch(3));
    dispatcher.finish(1, always_ok(1)).unwrap();
    dispatcher.finish(3, always_ok(3)).unwrap();
    assert_eq!(dispatcher.advance(), Action::Finished);
    assert_each_ordinal_once(&dispatcher.into_outcomes(), 4);
}

#[test]
fn workers_driving_their_shares_stay_within_the_permits() {
    let split = shares(11, 3).unwrap();
    let mut dispatcher = Dispatcher::new(11, 3).unwrap();
    let mut cursor: Vec<u32> = split.iter().map(|s| s.first).collect();
    let mut busy: Vec<Option<u32>> = vec![None; 3];
    let mut high_water = 0;
    let mut turn = 0usize;
    while !dispatcher.is_done() {
        let w = turn % 3;
        match busy[w] {
            Some(ordinal) => {
                dispatcher.finish(ordinal, always_ok(ordinal)).unwrap();
                busy[w] = None;
            }
            None => {
                if cursor[w] < split[w].first + split[w].len {
                    assert!(dispatcher.start(cursor[w]));
                    busy[w] = Some(cursor[w]);
                    cursor[w] += 1;
                }
            }
        }
        high_water = high_water.max(dispatcher.in_flight());
        turn += if turn % 5 == 0 { 2 } else { 1 };
    }
    assert!(high_water <= 3);
    assert_each_ordinal_once(&dispatcher.into_outcomes(), 11);
}

#[test]
fn shares_split_the_batch_without_remainder() {
    assert_eq!(
        shares(10, 3).unwrap(),
        vec![
            Share { first: 0, len: 4 },
            Share { first: 4, len: 3 },
            Share { first: 7, len: 3 },
        ]
    );
    assert_eq!(
        shares(2, 4).unwrap(),
        vec![
            Share { first: 0, len: 1 },
            Share { first: 1, len: 1 },
            Share { first: 2, len: 0 },
            Share { first: 2, len: 0 },
        ]
    );
    assert_eq!(shares(6, 2).unwrap(), vec![Share { first: 0, len: 3 }, Share { first: 3, len: 3 }]);
    assert_eq!(shares(0, 1).unwrap(), vec![Share { first: 0, len: 0 }]);
    for count in [0u32, 1, 5, 17, 100] {
        for workers in [1u32, 2, 3, 7, 16] {
            let split = shares(count, workers).unwrap();
            assert_eq!(split.len(), workers as usize);
            let mut next = 0;
            for share in &split {
                assert_eq!(share.first, next);
                next += share.len;
            }
            assert_eq!(next, count);
        }
    }
}
