use filehttpd::connection::{
    decide_continuation, transition, Action, Connection, Continuation, Event, State,
};
use filehttpd::headers::Headers;
use filehttpd::line::next_line;
use filehttpd::resolve::ResolveOutcome;
use filehttpd::{Config, HttpVersion};

/// What a scripted connection did.
struct Run {
    sent: Vec<Vec<u8>>,
    resolved: Vec<Vec<u8>>,
    closed: bool,
    unread: usize,
}

/// Drives a connection over `input` as a line reader would, answering each
/// resolver call with the next of `outcomes`.
fn run(input: &[u8], outcomes: Vec<ResolveOutcome>) -> Run {
    let mut outcomes = outcomes.into_iter();
    let config = Config::build(None, None, None);
    let mut connection = Connection::new(&config, 1);
    let mut pos = 0;
    let mut action = Action::ReadLine;
    let mut done = Run { sent: Vec::new(), resolved: Vec::new(), closed: false, unread: 0 };
    loop {
        let event = match action {
            Action::ReadLine => {
                let end = next_line(input, pos).unwrap_or(input.len());
                let line = input[pos..end].to_vec();
                pos = end;
                Event::Line(line)
            }
            Action::Resolve { target } => {
                done.resolved.push(target);
                match outcomes.next() {
                    Some(outcome) => Event::Resolved(outcome),
                    None => break,
                }
            }
            Action::Send { bytes } => {
                done.sent.push(bytes);
                Event::Flushed
            }
            Action::Close => {
                done.closed = true;
                break;
            }
        };
        action = connection.step(event);
    }
    assert_eq!(done.closed, connection.is_closed());
    assert_eq!(connection.con_no, 1);
    assert_eq!(connection.config.web_root, ".");
    done.unread = input.len() - pos;
    done
}

fn found(bytes: &[u8], content_type: &[u8]) -> ResolveOutcome {
    ResolveOutcome::Found { bytes: bytes.to_vec(), content_type: content_type.to_vec() }
}

#[test]
fn get_http10_found_is_answered_and_closed() {
    let done = run(
        b"GET / HTTP/1.0\r\nHost: example.com\r\n\r\n",
        vec![found(b"hi", b"text/plain")],
    );
    assert_eq!(done.resolved, vec![b"/".to_vec()]);
    assert_eq!(
        done.sent,
        vec![b"HTTP/1.0 200 OK\r\nContent-Type: text/plain\r\nContent-Length: 2\r\n\r\nhi".to_vec()]
    );
    assert!(done.closed);
}

#[test]
fn missing_resource_http11_is_answered_and_connection_stays_open() {
    let config = Config::build(None, None, None);
    let mut connection = Connection::new(&config, 0);
    let mut action = connection.step(Event::Line(b"GET /missing HTTP/1.1\r\n".to_vec()));
    assert_eq!(action, Action::ReadLine);
    action = connection.step(Event::Line(b"\r\n".to_vec()));
    assert_eq!(action, Action::Resolve { target: b"/missing".to_vec() });
    action = connection.step(Event::Resolved(ResolveOutcome::NotFound));
    assert_eq!(
        action,
        Action::Send { bytes: b"HTTP/1.1 404 Not Found\r\nContent-Length: 0\r\n\r\n".to_vec() }
    );
    action = connection.step(Event::Flushed);
    assert_eq!(action, Action::ReadLine);
    assert_eq!(connection.state, State::AwaitingRequest);
    assert!(!connection.is_closed());
}

#[test]
fn garbage_request_line_is_rejected_without_asking_the_resolver() {
    let done = run(b"GARBAGE / HTTP/9.9\r\n\r\n", vec![found(b"never", b"text/plain")]);
    assert!(done.resolved.is_empty());
    assert_eq!(done.sent, vec![b"HTTP/1.1 400 Bad Request\r\nContent-Length: 0\r\n\r\n".to_vec()]);
    assert!(done.closed);
    assert_eq!(done.unread, 2);
}

#[test]
fn immediate_end_of_stream_closes_without_a_response() {
    let done = run(b"", Vec::new());
    assert!(done.sent.is_empty());
    assert!(done.resolved.is_empty());
    assert!(done.closed);
}

#[test]
fn end_of_stream_inside_a_head_closes_without_a_response() {
    let done = run(b"GET / HTTP/1.1\r\nHost: a\r\n", Vec::new());
    assert!(done.sent.is_empty());
    assert!(done.resolved.is_empty());
    assert!(done.closed);
}

#[test]
fn http11_serves_a_second_request_on_the_same_connection() {
    let done = run(
        b"GET /a HTTP/1.1\r\nHost: x\r\n\r\nGET /b HTTP/1.1\r\nConnection: close\r\n\r\nGET /c HTTP/1.1\r\n\r\n",
        vec![found(b"A", b"text/plain"), found(b"BB", b"text/html"), found(b"C", b"x/y")],
    );
    assert_eq!(done.resolved, vec![b"/a".to_vec(), b"/b".to_vec()]);
    assert_eq!(
        done.sent,
        vec![
            b"HTTP/1.1 200 OK\r\nContent-Type: text/plain\r\nContent-Length: 1\r\n\r\nA".to_vec(),
            b"HTTP/1.1 200 OK\r\nContent-Type: text/html\r\nContent-Length: 2\r\n\r\nBB".to_vec(),
        ]
    );
    assert!(done.closed);
    assert_eq!(done.unread, b"GET /c HTTP/1.1\r\n\r\n".len());
}

#[test]
fn http10_closes_after_one_response() {
    let done = run(
        b"GET /a HTTP/1.0\r\n\r\nGET /b HTTP/1.0\r\n\r\n",
        vec![found(b"A", b"text/plain"), found(b"B", b"text/plain")],
    );
    assert_eq!(done.resolved, vec![b"/a".to_vec()]);
    assert_eq!(done.sent.len(), 1);
    assert!(done.closed);
}

#[test]
fn http10_with_keep_alive_stays_open() {
    let done = run(
        b"GET /a HTTP/1.0\r\nConnection: keep-alive\r\n\r\nGET /b HTTP/1.0\r\n\r\n",
        vec![found(b"A", b"text/plain"), found(b"B", b"text/plain")],
    );
    assert_eq!(done.resolved, vec![b"/a".to_vec(), b"/b".to_vec()]);
    assert_eq!(done.sent.len(), 2);
    assert!(done.closed);
}

#[test]
fn the_last_connection_header_decides() {
    let done = run(
        b"GET /a HTTP/1.0\r\nConnection: keep-alive\r\nCONNECTION: close\r\n\r\nGET /b HTTP/1.0\r\n\r\n",
        vec![found(b"A", b"text/plain"), found(b"B", b"text/plain")],
    );
    assert_eq!(done.resolved, vec![b"/a".to_vec()]);
    assert!(done.closed);
}

#[test]
fn head_is_answered_without_body_and_without_length() {
    let done = run(b"HEAD / HTTP/1.0\r\n\r\n", vec![found(b"hi", b"text/plain")]);
    assert_eq!(done.sent, vec![b"HTTP/1.0 200 OK\r\nContent-Type: text/plain\r\n\r\n".to_vec()]);
    let done = run(b"HEAD / HTTP/1.0\r\n\r\n", vec![ResolveOutcome::NotFound]);
    assert_eq!(done.sent, vec![b"HTTP/1.0 404 Not Found\r\n\r\n".to_vec()]);
}

#[test]
fn other_resolver_failures_are_answered_with_500() {
    for outcome in [ResolveOutcome::Forbidden, ResolveOutcome::Failed] {
        let done = run(b"GET /secret HTTP/1.1\r\nConnection: close\r\n\r\n", vec![outcome]);
        assert_eq!(
            done.sent,
            vec![b"HTTP/1.1 500 Internal Server Error\r\nContent-Length: 0\r\n\r\n".to_vec()]
        );
        assert!(done.closed);
    }
}

#[test]
fn resolver_failure_keeps_an_http11_connection_open() {
    let done = run(
        b"GET /secret HTTP/1.1\r\n\r\nGET /b HTTP/1.1\r\nConnection: close\r\n\r\n",
        vec![ResolveOutcome::Forbidden, found(b"B", b"text/plain")],
    );
    assert_eq!(done.resolved, vec![b"/secret".to_vec(), b"/b".to_vec()]);
    assert_eq!(done.sent.len(), 2);
}

#[test]
fn malformed_header_is_rejected_in_the_version_of_the_request() {
    let done = run(
        b"GET / HTTP/1.0\r\nConnection: keep-alive\r\nno colon\r\n\r\n",
        vec![found(b"never", b"text/plain")],
    );
    assert!(done.resolved.is_empty());
    assert_eq!(done.sent, vec![b"HTTP/1.0 400 Bad Request\r\nContent-Length: 0\r\n\r\n".to_vec()]);
    assert!(done.closed);
}

#[test]
fn line_without_cr_lf_is_rejected() {
    let done = run(b"GET / HTTP/1.1\n\n", vec![found(b"never", b"text/plain")]);
    assert!(done.resolved.is_empty());
    assert_eq!(done.sent, vec![b"HTTP/1.1 400 Bad Request\r\nContent-Length: 0\r\n\r\n".to_vec()]);
    assert!(done.closed);
    let done = run(b"GET / HTTP/1.1\r\nHost: a", Vec::new());
    assert_eq!(done.sent, vec![b"HTTP/1.1 400 Bad Request\r\nContent-Length: 0\r\n\r\n".to_vec()]);
    assert!(done.closed);
}

#[test]
fn unexpected_events_end_the_connection() {
    let (state, action) = transition(State::AwaitingRequest, Event::Flushed);
    assert!(matches!(state, State::Closing));
    assert!(matches!(action, Action::Close));
    let (state, action) = transition(State::AwaitingRequest, Event::Resolved(ResolveOutcome::NotFound));
    assert!(matches!(state, State::Closing));
    assert!(matches!(action, Action::Close));
    let (state, action) =
        transition(State::Responding { next: Continuation::Idle }, Event::Line(b"x\r\n".to_vec()));
    assert!(matches!(state, State::Closing));
    assert!(matches!(action, Action::Close));
    let (state, action) = transition(State::Closing, Event::Line(b"GET / HTTP/1.1\r\n".to_vec()));
    assert!(matches!(state, State::Closing));
    assert!(matches!(action, Action::Close));
}

#[test]
fn abort_ends_the_connection_in_every_state() {
    let config = Config::build(None, None, None);
    let mut connection = Connection::new(&config, 3);
    assert!(matches!(connection.step(Event::Line(b"GET / HTTP/1.1\r\n".to_vec())), Action::ReadLine));
    assert!(matches!(connection.state, State::Parsing { .. }));
    assert!(matches!(connection.step(Event::Aborted), Action::Close));
    assert!(connection.is_closed());
    let (state, action) = transition(State::Responding { next: Continuation::Idle }, Event::Aborted);
    assert!(matches!(state, State::Closing));
    assert!(matches!(action, Action::Close));
}

#[test]
fn flushed_follows_the_recorded_continuation() {
    let (state, action) = transition(State::Responding { next: Continuation::Idle }, Event::Flushed);
    assert!(matches!(state, State::AwaitingRequest));
    assert!(matches!(action, Action::ReadLine));
    let (state, action) =
        transition(State::Responding { next: Continuation::Closing }, Event::Flushed);
    assert!(matches!(state, State::Closing));
    assert!(matches!(action, Action::Close));
}

#[test]
fn keep_alive_policy() {
    let none = Headers::new();
    assert_eq!(decide_continuation(HttpVersion::OneOne, &none), Continuation::Idle);
    assert_eq!(decide_continuation(HttpVersion::OneOh, &none), Continuation::Closing);
    let mut close = Headers::new();
    close.insert(b"Connection", b"close");
    assert_eq!(decide_continuation(HttpVersion::OneOne, &close), Continuation::Closing);
    assert_eq!(decide_continuation(HttpVersion::OneOh, &close), Continuation::Closing);
    let mut keep = Headers::new();
    keep.insert(b"connection", b"keep-alive");
    assert_eq!(decide_continuation(HttpVersion::OneOne, &keep), Continuation::Idle);
    assert_eq!(decide_continuation(HttpVersion::OneOh, &keep), Continuation::Idle);
    let mut other = Headers::new();
    other.insert(b"Connection", b"Keep-Alive");
    assert_eq!(decide_continuation(HttpVersion::OneOne, &other), Continuation::Idle);
    assert_eq!(decide_continuation(HttpVersion::OneOh, &other), Continuation::Closing);
}

#[test]
fn new_connection_awaits_a_request() {
    let config = Config::new("root".to_string(), "/".to_string(), Vec::new());
    let connection = Connection::new(&config, 42);
    assert_eq!(connection.con_no, 42);
    assert_eq!(connection.config.web_root, "root");
    assert!(matches!(connection.state, State::AwaitingRequest));
    assert!(!connection.is_closed());
}

#[test]
fn parsing_state_holds_the_request_read_so_far() {
    let (state, action) =
        transition(State::AwaitingRequest, Event::Line(b"HEAD /x HTTP/1.0\r\n".to_vec()));
    assert_eq!(action, Action::ReadLine);
    let (state, action) = transition(state, Event::Line(b"B: 2\r\n".to_vec()));
    assert_eq!(action, Action::ReadLine);
    let (state, action) = transition(state, Event::Line(b"a:1\r\n".to_vec()));
    assert_eq!(action, Action::ReadLine);
    let mut headers = Headers::new();
    headers.insert(b"A", b"1");
    headers.insert(b"b", b"2");
    let expected = filehttpd::request::Request::new(
        filehttpd::HttpMethod::HEAD,
        b"/x".to_vec(),
        HttpVersion::OneOh,
        headers,
    );
    match &state {
        State::Parsing { request } => assert_eq!(request, &expected),
        other => panic!("{:?}", other),
    }
    let (state, action) = transition(state, Event::Line(b"\r\n".to_vec()));
    assert_eq!(action, Action::Resolve { target: b"/x".to_vec() });
    assert_eq!(state, State::Resolving { request: expected });
}

#[test]
fn line_by_line_and_from_a_buffer_read_the_same_request() {
    let input = b"GET /a?b HTTP/1.1\r\nHost: h\r\nAccept: */*\r\nhost: i\r\n\r\nrest";
    let (request, consumed) = filehttpd::request::Request::build(input).unwrap().unwrap();
    let mut state = State::AwaitingRequest;
    let mut pos = 0;
    loop {
        let end = next_line(input, pos).unwrap();
        let (next, action) = transition(state, Event::Line(input[pos..end].to_vec()));
        state = next;
        pos = end;
        if action != Action::ReadLine {
            assert_eq!(action, Action::Resolve { target: b"/a?b".to_vec() });
            break;
        }
    }
    assert_eq!(pos, consumed);
    assert_eq!(state, State::Resolving { request });
}
