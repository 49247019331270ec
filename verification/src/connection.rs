//! The state machine of one connection.
//!
//! The machine performs no input or output. Its driver reads a line when
//! told to, asks the resolver when told to, sends and flushes the bytes it
//! is handed, and reports back what happened as the next event.

use vstd::prelude::*;
use crate::headers::{lookup, Headers};
use crate::line::{content, lemma_line_end, line_end, strip_terminator};
use crate::octets::{ascii, ascii_bytes, lower, same, CR, LF};
use crate::request::{
    parse_header_line,
    parse_request_line,
    parsed_head,
    parsed_header_line,
    parsed_headers,
    parsed_request_line,
    Request,
    RequestView,
};
use crate::resolve::{answer, refusal, refuse, respond, OutcomeView, ResolveOutcome};
use crate::response::wire;
use crate::{Config, HttpVersion};

verus! {

/// What becomes of the connection once a response is out.
#[derive(Debug, Clone, Copy, PartialEq, Eq, Structural)]
pub enum Continuation {
    /// The connection stays open and awaits the next request.
    Idle,
    /// The connection is closed.
    Closing,
}

/// The name of the header that negotiates persistence.
pub open spec fn connection_name() -> Seq<u8> {
    ascii("Connection"@)
}

/// The value that asks to close the connection after the response.
pub open spec fn close_token() -> Seq<u8> {
    ascii("close"@)
}

/// The value that asks to keep the connection open after the response.
pub open spec fn keep_alive_token() -> Seq<u8> {
    ascii("keep-alive"@)
}

/// The keep-alive policy. HTTP/1.1 is persistent unless the request says
/// `Connection: close`; HTTP/1.0 closes unless the request says
/// `Connection: keep-alive`. The value is compared byte for byte.
pub open spec fn continuation(version: HttpVersion, headers: Map<Seq<u8>, Seq<u8>>)
    -> Continuation {
    match version {
        HttpVersion::OneOne => if lookup(headers, connection_name()) == Some(close_token()) {
            Continuation::Closing
        } else {
            Continuation::Idle
        },
        HttpVersion::OneOh => if lookup(headers, connection_name()) == Some(keep_alive_token()) {
            Continuation::Idle
        } else {
            Continuation::Closing
        },
    }
}

/// What becomes of the connection after the response to a request with
/// this version and these headers.
pub fn decide_continuation(version: HttpVersion, headers: &Headers) -> (c: Continuation)
    ensures
        c == continuation(version, headers@),
{
    proof {
        reveal_strlit("Connection");
        reveal_strlit("close");
        reveal_strlit("keep-alive");
    }
    let value = headers.get(ascii_bytes("Connection"));
    match version {
        HttpVersion::OneOne => match value {
            Some(v) => if same(v.as_slice(), ascii_bytes("close")) {
                Continuation::Closing
            } else {
                Continuation::Idle
            },
            None => Continuation::Idle,
        },
        HttpVersion::OneOh => match value {
            Some(v) => if same(v.as_slice(), ascii_bytes("keep-alive")) {
                Continuation::Idle
            } else {
                Continuation::Closing
            },
            None => Continuation::Closing,
        },
    }
}

/// Where a connection stands.
#[derive(Debug, PartialEq, Eq)]
pub enum State {
    /// Nothing of the next request has been read.
    AwaitingRequest,
    /// The request line has been read; `request` holds it and the headers
    /// read since.
    Parsing { request: Request },
    /// The request is complete and its target is with the resolver.
    Resolving { request: Request },
    /// A response has been handed out and is not flushed yet.
    Responding { next: Continuation },
    /// The connection is over.
    Closing,
}

/// What the driver reports.
#[derive(Debug, PartialEq, Eq)]
pub enum Event {
    /// What one read of a line gave, terminator included. No bytes at
    /// all mean that the peer has closed the stream.
    Line(Vec<u8>),
    /// The resolver's outcome for the target it was asked for.
    Resolved(ResolveOutcome),
    /// The response was written and flushed.
    Flushed,
    /// Reading or writing failed, or the connection was cancelled.
    Aborted,
}

/// What the driver is to do next.
#[derive(Debug, PartialEq, Eq)]
pub enum Action {
    /// Read one line and report it.
    ReadLine,
    /// Resolve the target and report the outcome.
    Resolve { target: Vec<u8> },
    /// Write these bytes, flush, and report.
    Send { bytes: Vec<u8> },
    /// Release the stream. Nothing is to be reported after this.
    Close,
}

/// A state as contracts speak of it.
pub enum StateView {
    AwaitingRequest,
    Parsing { request: RequestView },
    Resolving { request: RequestView },
    Responding { next: Continuation },
    Closing,
}

/// An event as contracts speak of it.
pub enum EventView {
    Line(Seq<u8>),
    Resolved(OutcomeView),
    Flushed,
    Aborted,
}

/// An action as contracts speak of it.
pub enum ActionView {
    ReadLine,
    Resolve { target: Seq<u8> },
    Send { bytes: Seq<u8> },
    Close,
}

impl View for State {
    type V = StateView;

    open spec fn view(&self) -> StateView {
        match self {
            State::AwaitingRequest => StateView::AwaitingRequest,
            State::Parsing { request } => StateView::Parsing { request: request@ },
            State::Resolving { request } => StateView::Resolving { request: request@ },
            State::Responding { next } => StateView::Responding { next: *next },
            State::Closing => StateView::Closing,
        }
    }
}

impl View for Event {
    type V = EventView;

    open spec fn view(&self) -> EventView {
        match self {
            Event::Line(line) => EventView::Line(line@),
            Event::Resolved(outcome) => EventView::Resolved(outcome@),
            Event::Flushed => EventView::Flushed,
            Event::Aborted => EventView::Aborted,
        }
    }
}

impl View for Action {
    type V = ActionView;

    open spec fn view(&self) -> ActionView {
        match self {
            Action::ReadLine => ActionView::ReadLine,
            Action::Resolve { target } => ActionView::Resolve { target: target@ },
            Action::Send { bytes } => ActionView::Send { bytes: bytes@ },
            Action::Close => ActionView::Close,
        }
    }
}

/// The end of a connection: nothing is sent.
pub open spec fn closed() -> (StateView, ActionView) {
    (StateView::Closing, ActionView::Close)
}

/// A request that the grammar rejects is answered with 400, and the
/// connection closes after that response whatever the request asked for.
pub open spec fn rejected(version: HttpVersion) -> (StateView, ActionView) {
    (
        StateView::Responding { next: Continuation::Closing },
        ActionView::Send { bytes: wire(refusal(version)) },
    )
}

/// The step on the first line of a request. A request line that the
/// grammar accepts starts a request without headers; any other line is
/// rejected, in HTTP/1.1 since the request named no version the server
/// speaks.
pub open spec fn on_request_line(line: Seq<u8>) -> (StateView, ActionView) {
    if line.len() == 0 {
        closed()
    } else {
        match content(line) {
            None => rejected(HttpVersion::OneOne),
            Some(c) => match parsed_request_line(c) {
                Err(_) => rejected(HttpVersion::OneOne),
                Ok((method, target, version)) => (
                    StateView::Parsing {
                        request: RequestView { method, target, version, headers: Map::empty() },
                    },
                    ActionView::ReadLine,
                ),
            },
        }
    }
}

/// The step on a line behind the request line. The blank line completes
/// the request and sends its target to the resolver; a header line adds
/// its header, replacing one of the same name; any other line is
/// rejected.
pub open spec fn on_header_line(request: RequestView, line: Seq<u8>) -> (StateView, ActionView) {
    if line.len() == 0 {
        closed()
    } else {
        match content(line) {
            None => rejected(request.version),
            Some(c) => if c.len() == 0 {
                (StateView::Resolving { request }, ActionView::Resolve { target: request.target })
            } else {
                match parsed_header_line(c) {
                    Err(_) => rejected(request.version),
                    Ok((name, value)) => (
                        StateView::Parsing {
                            request: RequestView {
                                headers: request.headers.insert(lower(name), value),
                                ..request
                            },
                        },
                        ActionView::ReadLine,
                    ),
                }
            },
        }
    }
}

/// The step on the resolver's outcome: the response goes out, and the
/// keep-alive policy of the request decides what follows it.
pub open spec fn on_outcome(request: RequestView, outcome: OutcomeView) -> (StateView, ActionView) {
    (
        StateView::Responding { next: continuation(request.version, request.headers) },
        ActionView::Send { bytes: wire(answer(request.method, request.version, outcome)) },
    )
}

/// The step once the response is flushed.
pub open spec fn on_flushed(next: Continuation) -> (StateView, ActionView) {
    match next {
        Continuation::Idle => (StateView::AwaitingRequest, ActionView::ReadLine),
        Continuation::Closing => closed(),
    }
}

/// The next state and the action to take, for every state and event. An
/// event that the state does not wait for ends the connection, and so does
/// every event once it is over.
pub open spec fn step(state: StateView, event: EventView) -> (StateView, ActionView) {
    match (state, event) {
        (StateView::AwaitingRequest, EventView::Line(line)) => on_request_line(line),
        (StateView::Parsing { request }, EventView::Line(line)) => on_header_line(request, line),
        (StateView::Resolving { request }, EventView::Resolved(outcome)) => on_outcome(
            request,
            outcome,
        ),
        (StateView::Responding { next }, EventView::Flushed) => on_flushed(next),
        _ => closed(),
    }
}

/// The action always fits the state that the step leads to: the driver
/// reads while a request is awaited or being read, asks the resolver
/// exactly when a request is complete, sends exactly when a response is
/// due, and closes exactly when the connection is over.
pub proof fn lemma_action_fits_state(state: StateView, event: EventView)
    ensures
        step(state, event).1 is ReadLine <==> (step(state, event).0 is AwaitingRequest || step(
            state,
            event,
        ).0 is Parsing),
        step(state, event).1 is Resolve <==> step(state, event).0 is Resolving,
        step(state, event).1 is Send <==> step(state, event).0 is Responding,
        step(state, event).1 is Close <==> step(state, event).0 is Closing,
{
}

/// A connection that is over stays over, and an abort ends a connection
/// in every state.
pub proof fn lemma_closing_is_final(state: StateView, event: EventView)
    ensures
        step(StateView::Closing, event) == closed(),
        step(state, EventView::Aborted) == closed(),
{
}

/// The resolver is asked only for the target of a request that passed the
/// grammar: the only step that asks is the one on the blank line behind
/// the headers, and it asks for that request's target.
pub proof fn lemma_resolves_only_complete_requests(state: StateView, event: EventView)
    requires
        step(state, event).1 is Resolve,
    ensures
        state is Parsing,
        event == EventView::Line(seq![CR, LF]),
        step(state, event).0 == (StateView::Resolving { request: state->Parsing_request }),
        step(state, event).1 == (ActionView::Resolve {
            target: state->Parsing_request.target,
        }),
{
    let line = event->Line_0;
    assert(line =~= seq![CR, LF]);
}

/// The blank line ends the head whatever was read before it: the step on
/// it reads nothing more and hands the request as it stands to the
/// resolver.
pub proof fn lemma_blank_line_completes(request: RequestView)
    ensures
        step(
            StateView::Parsing { request },
            EventView::Line(seq![CR, LF]),
        ) == (StateView::Resolving { request }, ActionView::Resolve { target: request.target }),
{
}

/// No bytes on a read, that is the end of the stream, end the connection
/// without a response while a request is awaited or being read.
pub proof fn lemma_end_of_stream_closes(request: RequestView)
    ensures
        step(StateView::AwaitingRequest, EventView::Line(Seq::empty())) == closed(),
        step(StateView::Parsing { request }, EventView::Line(Seq::empty())) == closed(),
{
}

/// A line that is not empty and that the grammar rejects, be it the
/// request line or a line behind it, is answered with the 400 response in
/// the version of the request if it named one. The resolver is not asked,
/// and the connection closes once the response is flushed, whatever the
/// request said of keeping it open.
pub proof fn lemma_rejection_closes(state: StateView, line: Seq<u8>)
    requires
        line.len() > 0,
        match state {
            StateView::AwaitingRequest => content(line) is None || parsed_request_line(
                content(line)->0,
            ) is Err,
            StateView::Parsing { .. } => content(line) is None || (content(line)->0.len() > 0
                && parsed_header_line(content(line)->0) is Err),
            _ => false,
        },
    ensures
        step(state, EventView::Line(line)) == rejected(
            match state {
                StateView::Parsing { request } => request.version,
                _ => HttpVersion::OneOne,
            },
        ),
        step(step(state, EventView::Line(line)).0, EventView::Flushed) == closed(),
{
}

/// The keep-alive policy at work. Once the response to an HTTP/1.1 request
/// without `Connection: close` is flushed, the connection awaits the next
/// request and reads on; after an HTTP/1.0 request without
/// `Connection: keep-alive` it closes.
pub proof fn lemma_keep_alive(request: RequestView, outcome: OutcomeView)
    ensures
        step(StateView::Resolving { request }, EventView::Resolved(outcome)).1 == (
        ActionView::Send { bytes: wire(answer(request.method, request.version, outcome)) }),
        request.version == HttpVersion::OneOne && lookup(request.headers, connection_name())
            != Some(close_token()) ==> {
            let responding = step(
                StateView::Resolving { request },
                EventView::Resolved(outcome),
            ).0;
            &&& responding == (StateView::Responding { next: Continuation::Idle })
            &&& step(responding, EventView::Flushed) == (
                StateView::AwaitingRequest,
                ActionView::ReadLine,
            )
        },
        request.version == HttpVersion::OneOh && lookup(request.headers, connection_name())
            != Some(keep_alive_token()) ==> {
            let responding = step(
                StateView::Resolving { request },
                EventView::Resolved(outcome),
            ).0;
            &&& responding == (StateView::Responding { next: Continuation::Closing })
            &&& step(responding, EventView::Flushed) == closed()
        },
{
}

/// Where a connection gets by reading the complete lines of `input` from
/// `from` on, one line per step, for as long as it is told to read: the
/// state, the action that is due, and the position behind the last line
/// it read. A connection that is still told to read when the lines run
/// out waits there.
pub open spec fn after_lines(state: StateView, input: Seq<u8>, from: int) -> (
    StateView,
    ActionView,
    int,
)
    decreases input.len() - from,
    via after_lines_decreases
{
    match line_end(input, from) {
        None => (state, ActionView::ReadLine, from),
        Some(end) => {
            let next = step(state, EventView::Line(input.subrange(from, end)));
            if next.1 is ReadLine {
                after_lines(next.0, input, end)
            } else {
                (next.0, next.1, end)
            }
        },
    }
}

#[via_fn]
proof fn after_lines_decreases(state: StateView, input: Seq<u8>, from: int) {
    lemma_line_end(input, from);
}

/// A connection that reads line by line accepts exactly the heads that
/// are accepted when read from a buffer. Where the buffer holds a whole
/// head, the connection has read precisely that head and asks the
/// resolver for the target of the same request; where a line is rejected,
/// it sends a response and closes after it; where the head is not
/// complete, it goes on reading and has sent nothing.
pub proof fn lemma_connection_reads_heads(input: Seq<u8>)
    ensures
        match parsed_head(input) {
            Ok(Some((request, n))) => after_lines(StateView::AwaitingRequest, input, 0) == (
                StateView::Resolving { request },
                ActionView::Resolve { target: request.target },
                n,
            ),
            Ok(None) => after_lines(StateView::AwaitingRequest, input, 0).1 is ReadLine,
            Err(_) => {
                &&& after_lines(StateView::AwaitingRequest, input, 0).0 == (StateView::Responding {
                    next: Continuation::Closing,
                })
                &&& after_lines(StateView::AwaitingRequest, input, 0).1 is Send
            },
        },
{
    lemma_line_end(input, 0);
    match line_end(input, 0) {
        None => {},
        Some(end) => {
            match content(input.take(end)) {
                None => {},
                Some(c) => match parsed_request_line(c) {
                    Err(_) => {},
                    Ok((method, target, version)) => {
                        lemma_connection_reads_headers(
                            RequestView { method, target, version, headers: Map::empty() },
                            input,
                            end,
                        );
                    },
                },
            }
        },
    }
}

proof fn lemma_connection_reads_headers(request: RequestView, input: Seq<u8>, from: int)
    ensures
        match parsed_headers(input, from, request) {
            Ok(Some((complete, n))) => after_lines(StateView::Parsing { request }, input, from)
                == (
                StateView::Resolving { request: complete },
                ActionView::Resolve { target: complete.target },
                n,
            ),
            Ok(None) => after_lines(StateView::Parsing { request }, input, from).1 is ReadLine,
            Err(_) => {
                &&& after_lines(StateView::Parsing { request }, input, from).0 == (
                StateView::Responding { next: Continuation::Closing })
                &&& after_lines(StateView::Parsing { request }, input, from).1 is Send
            },
        },
    decreases input.len() - from,
{
    lemma_line_end(input, from);
    match line_end(input, from) {
        None => {},
        Some(end) => match content(input.subrange(from, end)) {
            None => {},
            Some(c) => if c.len() > 0 {
                match parsed_header_line(c) {
                    Err(_) => {},
                    Ok((name, value)) => {
                        let next = RequestView {
                            headers: request.headers.insert(lower(name), value),
                            ..request
                        };
                        lemma_connection_reads_headers(next, input, end);
                    },
                }
            },
        },
    }
}

fn reject(version: HttpVersion) -> (r: (State, Action))
    ensures
        (r.0@, r.1@) == rejected(version),
{
    (
        State::Responding { next: Continuation::Closing },
        Action::Send { bytes: refuse(version).to_bytes() },
    )
}

fn request_line_read(line: &[u8]) -> (r: (State, Action))
    ensures
        (r.0@, r.1@) == on_request_line(line@),
{
    if line.len() == 0 {
        return (State::Closing, Action::Close);
    }
    match strip_terminator(line) {
        None => reject(HttpVersion::OneOne),
        Some(c) => match parse_request_line(c) {
            Err(_) => reject(HttpVersion::OneOne),
            Ok((method, target, version)) => (
                State::Parsing { request: Request::new(method, target, version, Headers::new()) },
                Action::ReadLine,
            ),
        },
    }
}

fn header_line_read(request: Request, line: &[u8]) -> (r: (State, Action))
    ensures
        (r.0@, r.1@) == on_header_line(request@, line@),
{
    if line.len() == 0 {
        return (State::Closing, Action::Close);
    }
    match strip_terminator(line) {
        None => reject(request.version),
        Some(c) => if c.len() == 0 {
            let target = request.target.clone();
            (State::Resolving { request }, Action::Resolve { target })
        } else {
            match parse_header_line(c) {
                Err(_) => reject(request.version),
                Ok((name, value)) => {
                    let mut request = request;
                    request.headers.insert(name, value);
                    (State::Parsing { request }, Action::ReadLine)
                },
            }
        },
    }
}

/// The next state and the action to take.
pub fn transition(state: State, event: Event) -> (r: (State, Action))
    ensures
        (r.0@, r.1@) == step(state@, event@),
{
    match state {
        State::AwaitingRequest => match event {
            Event::Line(line) => request_line_read(line.as_slice()),
            _ => (State::Closing, Action::Close),
        },
        State::Parsing { request } => match event {
            Event::Line(line) => header_line_read(request, line.as_slice()),
            _ => (State::Closing, Action::Close),
        },
        State::Resolving { request } => match event {
            Event::Resolved(outcome) => {
                let next = decide_continuation(request.version, &request.headers);
                let bytes = respond(request.method, request.version, outcome).to_bytes();
                (State::Responding { next }, Action::Send { bytes })
            },
            _ => (State::Closing, Action::Close),
        },
        State::Responding { next } => match event {
            Event::Flushed => match next {
                Continuation::Idle => (State::AwaitingRequest, Action::ReadLine),
                Continuation::Closing => (State::Closing, Action::Close),
            },
            _ => (State::Closing, Action::Close),
        },
        State::Closing => (State::Closing, Action::Close),
    }
}

/// One accepted connection: the configuration that all connections
/// share, the sequence number that the connection source gave it, and
/// where it stands.
#[derive(Debug)]
pub struct Connection<'a> {
    pub config: &'a Config,
    pub con_no: u64,
    pub state: State,
}

impl<'a> Connection<'a> {
    /// A connection on which nothing has been read. Its driver starts by
    /// reading a line.
    pub fn new(config: &'a Config, con_no: u64) -> (c: Connection<'a>)
        ensures
            c.config == config,
            c.con_no == con_no,
            c.state@ == StateView::AwaitingRequest,
    {
        Connection { config, con_no, state: State::AwaitingRequest }
    }

    /// Takes the event in and says what to do next. The configuration and
    /// the sequence number stay as they are.
    pub fn step(&mut self, event: Event) -> (action: Action)
        ensures
            (final(self).state@, action@) == step(old(self).state@, event@),
            final(self).config == old(self).config,
            final(self).con_no == old(self).con_no,
    {
        let mut state = State::Closing;
        std::mem::swap(&mut state, &mut self.state);
        let (next, action) = transition(state, event);
        self.state = next;
        action
    }

    /// Whether the connection is over.
    pub fn is_closed(&self) -> (b: bool)
        ensures
            b == (self.state@ == StateView::Closing),
    {
        match self.state {
            State::Closing => true,
            _ => false,
        }
    }
}

} // verus!
