use neocurl::response::{
    status_text_of, PyResponse, Received, TransportError, TransportKind, SENTINEL_STATUS,
    UNKNOWN_STATUS,
};

#[test]
fn status_text_is_the_reason_phrase() {
    assert_eq!(status_text_of(200), "OK");
    assert_eq!(status_text_of(404), "Not Found");
    assert_eq!(status_text_of(500), "Internal Server Error");
    assert_eq!(status_text_of(418), "I'm a teapot");
}

#[test]
fn status_text_of_an_unregistered_code_is_unknown() {
    assert_eq!(UNKNOWN_STATUS, "Unknown");
    assert_eq!(status_text_of(299), "Unknown");
    assert_eq!(status_text_of(0), "Unknown");
    assert_eq!(status_text_of(99), "Unknown");
    assert_eq!(status_text_of(1000), "Unknown");
    assert_eq!(status_text_of(u16::MAX), "Unknown");
}

#[test]
fn answered_request_becomes_an_outcome() {
    let answer = Received {
        status_code: 201,
        headers: vec![
            ("set-cookie".to_string(), Some("a=1".to_string())),
            ("x-binary".to_string(), None),
            ("set-cookie".to_string(), Some("b=2".to_string())),
        ],
        body: Some("{}".to_string()),
        duration: 12,
    };
    let outcome = PyResponse::from_answer(7, answer);
    assert_eq!(outcome.status_code, 201);
    assert_eq!(outcome.status, "Created");
    assert_eq!(
        outcome.headers,
        vec![
            ("set-cookie".to_string(), "a=1".to_string()),
            ("x-binary".to_string(), "".to_string()),
            ("set-cookie".to_string(), "b=2".to_string()),
        ]
    );
    assert_eq!(outcome.body.as_deref(), Some("{}"));
    assert_eq!(outcome.duration, 12);
    assert_eq!(outcome.index, 7);
}

#[test]
fn failure_without_status_gets_the_sentinel() {
    assert_eq!(SENTINEL_STATUS, 500);
    let failure = TransportError { kind: TransportKind::Connect, status: None, elapsed: 3 };
    assert_eq!(failure.status_code(), 500);
    let outcome = PyResponse::from_failure(2, failure);
    assert_eq!(outcome.status_code, 500);
    assert_eq!(outcome.status, "Internal Server Error");
    assert!(outcome.headers.is_empty());
    assert!(outcome.body.is_none());
    assert_eq!(outcome.duration, 3);
    assert_eq!(outcome.index, 2);
}

#[test]
fn failure_keeps_the_status_it_came_with() {
    let failure = TransportError { kind: TransportKind::Other, status: Some(502), elapsed: 40 };
    assert_eq!(failure.status_code(), 502);
    let outcome = PyResponse::settle(0, Err(failure));
    assert_eq!(outcome.status_code, 502);
    assert_eq!(outcome.status, "Bad Gateway");
    assert!(outcome.body.is_none());
}

#[test]
fn settle_takes_an_answer_as_it_is() {
    let outcome = PyResponse::settle(
        4,
        Ok(Received { status_code: 404, headers: vec![], body: None, duration: 1 }),
    );
    assert_eq!(outcome.status_code, 404);
    assert_eq!(outcome.status, "Not Found");
    assert_eq!(outcome.index, 4);
}

#[test]
fn replicate_copies_every_field() {
    let outcome = PyResponse::from_answer(
        9,
        Received {
            status_code: 200,
            headers: vec![("a".to_string(), Some("b".to_string()))],
            body: Some("body".to_string()),
            duration: 77,
        },
    );
    let copy = outcome.replicate();
    assert_eq!(copy.status, outcome.status);
    assert_eq!(copy.status_code, outcome.status_code);
    assert_eq!(copy.headers, outcome.headers);
    assert_eq!(copy.body, outcome.body);
    assert_eq!(copy.duration, outcome.duration);
    assert_eq!(copy.index, outcome.index);
}
