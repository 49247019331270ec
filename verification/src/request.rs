//! Requests and the grammar of the request line and of header lines.

use vstd::prelude::*;
use vstd::utf8::encode_utf8;
use crate::headers::{stored, Headers};
use crate::line::{
    content,
    lemma_line_end,
    lemma_line_of_prefix,
    lemma_reads_line,
    line_end,
    next_line,
    strip_terminator,
};
use crate::lemma_tokens_name_themselves;
use crate::octets::{
    find,
    first_index,
    lemma_first_index,
    lemma_first_index_is,
    lower,
    trim,
    trimmed,
    COLON,
    CR,
    LF,
    SP,
};
use crate::{HttpMethod, HttpVersion};

verus! {

/// Why a request was not accepted.
#[derive(Debug, Clone, Copy, PartialEq, Eq, Structural)]
pub enum ParseError {
    /// The request line is well-formed but names a method other than GET
    /// and HEAD.
    UnsupportedMethod,
    /// The request line is not `METHOD SP TARGET SP HTTP/VERSION`, or does
    /// not end in CR LF.
    MalformedRequestLine,
    /// A header line holds no colon, or does not end in CR LF.
    MalformedHeader,
}

/// A request as contracts speak of it.
pub struct RequestView {
    pub method: HttpMethod,
    pub target: Seq<u8>,
    pub version: HttpVersion,
    pub headers: Map<Seq<u8>, Seq<u8>>,
}

/// A request that passed the grammar: method, target as it was written,
/// version, and the headers by case-folded name.
#[derive(Debug, PartialEq, Eq)]
pub struct Request {
    pub method: HttpMethod,
    pub target: Vec<u8>,
    pub version: HttpVersion,
    pub headers: Headers,
}

impl View for Request {
    type V = RequestView;

    open spec fn view(&self) -> RequestView {
        RequestView {
            method: self.method,
            target: self.target@,
            version: self.version,
            headers: self.headers@,
        }
    }
}

impl Clone for Request {
    fn clone(&self) -> (r: Request)
        ensures
            r@ == self@,
    {
        Request {
            method: self.method,
            target: self.target.clone(),
            version: self.version,
            headers: self.headers.clone(),
        }
    }
}

impl Request {
    /// A request made of its four parts.
    pub fn new(method: HttpMethod, target: Vec<u8>, version: HttpVersion, headers: Headers) -> (r:
        Request)
        ensures
            r.method == method,
            r.target == target,
            r.version == version,
            r.headers == headers,
    {
        Request { method, target, version, headers }
    }

    /// Reads the head of a request from the start of `input`: the request
    /// line, then header lines up to the blank line. Gives the request and
    /// the number of bytes that the head takes, the blank line included;
    /// `None` where the head is not complete yet. A line that the grammar
    /// rejects is reported as soon as it is complete.
    pub fn build(input: &[u8]) -> (r: Result<Option<(Request, usize)>, ParseError>)
        ensures
            match r {
                Ok(Some((request, n))) => parsed_head(input@) == Ok::<
                    Option<(RequestView, int)>,
                    ParseError,
                >(Some((request@, n as int))),
                Ok(None) => parsed_head(input@) == Ok::<Option<(RequestView, int)>, ParseError>(
                    None,
                ),
                Err(e) => parsed_head(input@) == Err::<Option<(RequestView, int)>, ParseError>(e),
            },
    {
        let first_end = match next_line(input, 0) {
            None => {
                return Ok(None);
            },
            Some(end) => end,
        };
        let first = vstd::slice::slice_subrange(input, 0, first_end);
        let first_content = match strip_terminator(first) {
            None => {
                return Err(ParseError::MalformedRequestLine);
            },
            Some(c) => c,
        };
        let (method, target, version) = match parse_request_line(first_content) {
            Err(e) => {
                return Err(e);
            },
            Ok(parts) => parts,
        };
        let mut request = Request::new(method, target, version, Headers::new());
        let mut pos = first_end;
        loop
            invariant
                pos <= input@.len(),
                parsed_head(input@) == parsed_headers(input@, pos as int, request@),
            decreases input@.len() - pos,
        {
            let end = match next_line(input, pos) {
                None => {
                    return Ok(None);
                },
                Some(end) => end,
            };
            proof {
                lemma_line_end(input@, pos as int);
            }
            let line = vstd::slice::slice_subrange(input, pos, end);
            let c = match strip_terminator(line) {
                None => {
                    return Err(ParseError::MalformedHeader);
                },
                Some(c) => c,
            };
            if c.len() == 0 {
                return Ok(Some((request, end)));
            }
            match parse_header_line(c) {
                Err(e) => {
                    return Err(e);
                },
                Ok((name, value)) => {
                    request.headers.insert(name, value);
                },
            }
            pos = end;
        }
    }
}

/// What the lines from `from` on add to `request`: each header line stores
/// its value under its case-folded name, and the blank line ends the head
/// at the position behind it. `None` where the input ends before the blank
/// line.
pub open spec fn parsed_headers(input: Seq<u8>, from: int, request: RequestView) -> Result<
    Option<(RequestView, int)>,
    ParseError,
>
    decreases input.len() - from,
    via parsed_headers_decreases
{
    match line_end(input, from) {
        None => Ok(None),
        Some(end) => match content(input.subrange(from, end)) {
            None => Err(ParseError::MalformedHeader),
            Some(c) => if c.len() == 0 {
                Ok(Some((request, end)))
            } else {
                match parsed_header_line(c) {
                    Err(e) => Err(e),
                    Ok((name, value)) => parsed_headers(
                        input,
                        end,
                        RequestView {
                            headers: request.headers.insert(lower(name), value),
                            ..request
                        },
                    ),
                }
            },
        },
    }
}

#[via_fn]
proof fn parsed_headers_decreases(input: Seq<u8>, from: int, request: RequestView) {
    lemma_line_end(input, from);
}

/// What the head of a request at the start of `input` says: the request
/// and the length of the head, `None` where the head is not complete, or
/// the error of the first line that the grammar rejects.
pub open spec fn parsed_head(input: Seq<u8>) -> Result<Option<(RequestView, int)>, ParseError> {
    match line_end(input, 0) {
        None => Ok(None),
        Some(end) => match content(input.take(end)) {
            None => Err(ParseError::MalformedRequestLine),
            Some(c) => match parsed_request_line(c) {
                Err(e) => Err(e),
                Ok((method, target, version)) => parsed_headers(
                    input,
                    end,
                    RequestView { method, target, version, headers: Map::empty() },
                ),
            },
        },
    }
}

/// What a request line says. `line` is the line without its CR LF.
///
/// The line must hold exactly two spaces, with a token that is not empty
/// before, between and after them; the first token must name a method and
/// the last a version. A line of another shape is malformed, whatever its
/// first token is.
pub open spec fn parsed_request_line(line: Seq<u8>) -> Result<
    (HttpMethod, Seq<u8>, HttpVersion),
    ParseError,
> {
    let i = first_index(line, SP);
    let rest = line.skip(i + 1);
    let j = first_index(rest, SP);
    let last = rest.skip(j + 1);
    if i == 0 || i >= line.len() || j == 0 || j >= rest.len() || last.len() == 0 || last.contains(
        SP,
    ) {
        Err(ParseError::MalformedRequestLine)
    } else {
        match HttpMethod::named_by(line.take(i)) {
            None => Err(ParseError::UnsupportedMethod),
            Some(method) => match HttpVersion::named_by(last) {
                None => Err(ParseError::MalformedRequestLine),
                Some(version) => Ok((method, rest.take(j), version)),
            },
        }
    }
}

/// A request line written as a method the server answers, a space, a
/// target, a space and a version the server speaks.
pub open spec fn request_line(method: HttpMethod, target: Seq<u8>, version: HttpVersion) -> Seq<
    u8,
> {
    method.token() + seq![SP] + target + seq![SP] + version.token()
}

/// Every request line whose target is not empty and holds no space is
/// read as exactly its method, its target and its version.
pub proof fn lemma_request_line_is_read_back(
    method: HttpMethod,
    target: Seq<u8>,
    version: HttpVersion,
)
    requires
        target.len() > 0,
        !target.contains(SP),
    ensures
        parsed_request_line(request_line(method, target, version)) == Ok::<
            (HttpMethod, Seq<u8>, HttpVersion),
            ParseError,
        >((method, target, version)),
{
    lemma_tokens_name_themselves(method, version);
    let m = method.token();
    let v = version.token();
    let line = request_line(method, target, version);
    lemma_first_index_is(line, SP, m.len() as int);
    let rest = line.skip((m.len() + 1) as int);
    lemma_first_index_is(rest, SP, target.len() as int);
    let last = rest.skip((target.len() + 1) as int);
    assert(last =~= v);
    assert(line.take(m.len() as int) =~= m);
    assert(rest.take(target.len() as int) =~= target);
}

/// Only a request line of that shape is accepted: a line that is read as
/// a method, a target and a version is made of exactly these, and the
/// target is not empty and holds no space.
pub proof fn lemma_accepted_request_line(line: Seq<u8>)
    requires
        parsed_request_line(line) is Ok,
    ensures
        line == request_line(
            parsed_request_line(line)->Ok_0.0,
            parsed_request_line(line)->Ok_0.1,
            parsed_request_line(line)->Ok_0.2,
        ),
        parsed_request_line(line)->Ok_0.1.len() > 0,
        !parsed_request_line(line)->Ok_0.1.contains(SP),
{
    let i = first_index(line, SP);
    let rest = line.skip(i + 1);
    lemma_first_index(line, SP);
    lemma_first_index(rest, SP);
}

/// Reads a request line. `line` is the line without its CR LF.
pub fn parse_request_line(line: &[u8]) -> (r: Result<(HttpMethod, Vec<u8>, HttpVersion), ParseError>)
    ensures
        match r {
            Ok((method, target, version)) => parsed_request_line(line@) == Ok::<
                (HttpMethod, Seq<u8>, HttpVersion),
                ParseError,
            >((method, target@, version)),
            Err(e) => parsed_request_line(line@) == Err::<
                (HttpMethod, Seq<u8>, HttpVersion),
                ParseError,
            >(e),
        },
{
    let i = find(line, SP);
    if i == 0 || i >= line.len() {
        return Err(ParseError::MalformedRequestLine);
    }
    let rest = vstd::slice::slice_subrange(line, i + 1, line.len());
    let j = find(rest, SP);
    if j == 0 || j >= rest.len() {
        return Err(ParseError::MalformedRequestLine);
    }
    let last = vstd::slice::slice_subrange(rest, j + 1, rest.len());
    proof {
        lemma_first_index(last@, SP);
    }
    if last.len() == 0 || find(last, SP) < last.len() {
        return Err(ParseError::MalformedRequestLine);
    }
    let first = vstd::slice::slice_subrange(line, 0, i);
    let method = match HttpMethod::from_token(first) {
        None => {
            return Err(ParseError::UnsupportedMethod);
        },
        Some(method) => method,
    };
    let version = match HttpVersion::from_token(last) {
        None => {
            return Err(ParseError::MalformedRequestLine);
        },
        Some(version) => version,
    };
    let middle = vstd::slice::slice_subrange(rest, 0, j);
    Ok((method, vstd::slice::slice_to_vec(middle), version))
}

/// What a header line says: the name before the first colon, as it is
/// written, and the value behind that colon without the blanks around it.
/// `line` is the line without its CR LF. A line without a colon is
/// malformed.
pub open spec fn parsed_header_line(line: Seq<u8>) -> Result<(Seq<u8>, Seq<u8>), ParseError> {
    let i = first_index(line, COLON);
    if i >= line.len() {
        Err(ParseError::MalformedHeader)
    } else {
        Ok((line.take(i), trim(line.skip(i + 1))))
    }
}

/// Reads a header line. `line` is the line without its CR LF.
pub fn parse_header_line(line: &[u8]) -> (r: Result<(&[u8], &[u8]), ParseError>)
    ensures
        match r {
            Ok((name, value)) => parsed_header_line(line@) == Ok::<(Seq<u8>, Seq<u8>), ParseError>(
                (name@, value@),
            ),
            Err(e) => parsed_header_line(line@) == Err::<(Seq<u8>, Seq<u8>), ParseError>(e),
        },
{
    let i = find(line, COLON);
    if i >= line.len() {
        return Err(ParseError::MalformedHeader);
    }
    let name = vstd::slice::slice_subrange(line, 0, i);
    let rest = vstd::slice::slice_subrange(line, i + 1, line.len());
    Ok((name, trimmed(rest)))
}

/// The name and the value of each header line from `from` on, in their
/// order, up to the first line that is blank, incomplete or malformed.
pub open spec fn header_entries(input: Seq<u8>, from: int) -> Seq<(Seq<u8>, Seq<u8>)>
    decreases input.len() - from,
    via header_entries_decreases
{
    match line_end(input, from) {
        None => Seq::empty(),
        Some(end) => match content(input.subrange(from, end)) {
            None => Seq::empty(),
            Some(c) => if c.len() == 0 {
                Seq::empty()
            } else {
                match parsed_header_line(c) {
                    Err(_) => Seq::empty(),
                    Ok(entry) => seq![entry] + header_entries(input, end),
                }
            },
        },
    }
}

#[via_fn]
proof fn header_entries_decreases(input: Seq<u8>, from: int) {
    lemma_line_end(input, from);
}

/// The headers of a request that was read are those of its header lines,
/// stored one after the other in the order of the lines; nothing else of
/// the request changes while they are read.
pub proof fn lemma_headers_are_stored_in_order(input: Seq<u8>, from: int, request: RequestView)
    requires
        parsed_headers(input, from, request) matches Ok(Some(_)),
    ensures
        parsed_headers(input, from, request)->Ok_0->Some_0.0 == (RequestView {
            headers: stored(request.headers, header_entries(input, from)),
            ..request
        }),
    decreases input.len() - from,
{
    lemma_line_end(input, from);
    let end = line_end(input, from)->0;
    let c = content(input.subrange(from, end))->0;
    if c.len() > 0 {
        let entry = parsed_header_line(c)->Ok_0;
        let next = RequestView {
            headers: request.headers.insert(lower(entry.0), entry.1),
            ..request
        };
        lemma_headers_are_stored_in_order(input, end, next);
        let entries = header_entries(input, from);
        assert(entries.skip(1) =~= header_entries(input, end));
    }
}

/// A request that was read from a buffer holds what its lines say: the
/// method, target and version of its first line, and the headers of the
/// lines behind it, each stored under its case-folded name in the order of
/// the lines, so that of several lines with one name the last one wins.
pub proof fn lemma_head_is_its_lines(input: Seq<u8>)
    requires
        parsed_head(input) matches Ok(Some(_)),
    ensures
        ({
            let request = parsed_head(input)->Ok_0->Some_0.0;
            let end = line_end(input, 0)->0;
            &&& line_end(input, 0) is Some
            &&& content(input.take(end)) is Some
            &&& parsed_request_line(content(input.take(end))->0) == Ok::<
                (HttpMethod, Seq<u8>, HttpVersion),
                ParseError,
            >((request.method, request.target, request.version))
            &&& request.headers == stored(Map::empty(), header_entries(input, end))
        }),
{
    let end = line_end(input, 0)->0;
    let parts = parsed_request_line(content(input.take(end))->0)->Ok_0;
    lemma_headers_are_stored_in_order(
        input,
        end,
        RequestView { method: parts.0, target: parts.1, version: parts.2, headers: Map::empty() },
    );
}

/// The head of a request ends with its blank line, and nothing behind the
/// blank line has a say: whatever follows the head, the same request is
/// read and the same number of bytes is taken.
pub proof fn lemma_head_ignores_what_follows(input: Seq<u8>, other: Seq<u8>)
    requires
        parsed_head(input) matches Ok(Some(_)),
    ensures
        ({
            let n = parsed_head(input)->Ok_0->Some_0.1;
            &&& 4 <= n <= input.len()
            &&& input[n - 2] == CR
            &&& input[n - 1] == LF
            &&& input[n - 3] == LF
            &&& parsed_head(input.take(n) + other) == parsed_head(input)
        }),
{
    let end = line_end(input, 0)->0;
    let parts = parsed_request_line(content(input.take(end))->0)->Ok_0;
    let request = RequestView {
        method: parts.0,
        target: parts.1,
        version: parts.2,
        headers: Map::empty(),
    };
    lemma_headers_ignore_what_follows(input, end, request, other);
    let n = parsed_head(input)->Ok_0->Some_0.1;
    let cut = input.take(n) + other;
    assert(cut.take(end) =~= input.take(end));
    lemma_line_of_prefix(input, 0, cut);
}

proof fn lemma_headers_ignore_what_follows(
    input: Seq<u8>,
    from: int,
    request: RequestView,
    other: Seq<u8>,
)
    requires
        0 < from,
        from <= input.len() ==> input[from - 1] == LF,
        parsed_headers(input, from, request) matches Ok(Some(_)),
    ensures
        ({
            let n = parsed_headers(input, from, request)->Ok_0->Some_0.1;
            &&& from + 2 <= n <= input.len()
            &&& input[n - 2] == CR
            &&& input[n - 1] == LF
            &&& input[n - 3] == LF
            &&& parsed_headers(input.take(n) + other, from, request) == parsed_headers(
                input,
                from,
                request,
            )
        }),
    decreases input.len() - from,
{
    lemma_line_end(input, from);
    let end = line_end(input, from)->0;
    let c = content(input.subrange(from, end))->0;
    let n = parsed_headers(input, from, request)->Ok_0->Some_0.1;
    if c.len() > 0 {
        let entry = parsed_header_line(c)->Ok_0;
        let next = RequestView {
            headers: request.headers.insert(lower(entry.0), entry.1),
            ..request
        };
        lemma_headers_ignore_what_follows(input, end, next, other);
    }
    let cut = input.take(n) + other;
    assert(cut.take(end) =~= input.take(end));
    lemma_line_of_prefix(input, from, cut);
}

/// A request line of the accepted shape whose target holds no line feed,
/// ended by CR LF and followed by the blank line, is read as the request
/// with exactly that method, target and version and without headers, and
/// the whole input is its head.
pub proof fn lemma_bare_request_is_read_back(
    method: HttpMethod,
    target: Seq<u8>,
    version: HttpVersion,
)
    requires
        target.len() > 0,
        !target.contains(SP),
        !target.contains(LF),
    ensures
        parsed_head(request_line(method, target, version) + seq![CR, LF] + seq![CR, LF]) == Ok::<
            Option<(RequestView, int)>,
            ParseError,
        >(
            Some(
                (
                    RequestView { method, target, version, headers: Map::empty() },
                    (request_line(method, target, version).len() + 4) as int,
                ),
            ),
        ),
{
    lemma_tokens_name_themselves(method, version);
    lemma_request_line_is_read_back(method, target, version);
    let line = request_line(method, target, version);
    let none = Seq::<u8>::empty();
    lemma_reads_line(none, line, seq![CR, LF]);
    lemma_reads_line(line + seq![CR, LF], none, none);
}

/// `name: value` as text.
pub open spec fn header_text(name: Seq<char>, value: Seq<char>) -> Seq<u8> {
    encode_utf8(name) + seq![COLON, SP] + encode_utf8(value)
}

/// The headers as text, with CR LF between one and the next.
pub open spec fn joined_headers(headers: Seq<(Seq<char>, Seq<char>)>) -> Seq<u8>
    decreases headers.len(),
{
    if headers.len() == 0 {
        Seq::empty()
    } else if headers.len() == 1 {
        header_text(headers[0].0, headers[0].1)
    } else {
        joined_headers(headers.drop_last()) + seq![CR, LF] + header_text(
            headers.last().0,
            headers.last().1,
        )
    }
}

/// The bytes of a request made of a request line and headers: the line,
/// CR LF, and the headers with CR LF between them. Nothing follows the
/// last header.
pub fn build_request_bytes(request_line: &str, headers: Vec<(String, String)>) -> (bytes: Vec<u8>)
    ensures
        bytes@ == encode_utf8(request_line@) + seq![CR, LF] + joined_headers(headers.deep_view()),
{
    let mut bytes: Vec<u8> = Vec::new();
    bytes.extend_from_slice(request_line.as_bytes());
    bytes.push(CR);
    bytes.push(LF);
    let ghost start = bytes@;
    let ghost hs = headers.deep_view();
    let mut i: usize = 0;
    while i < headers.len()
        invariant
            i <= headers@.len(),
            hs == headers.deep_view(),
            hs.len() == headers@.len(),
            bytes@ == start + joined_headers(hs.take(i as int)),
        decreases headers@.len() - i,
    {
        if i > 0 {
            bytes.push(CR);
            bytes.push(LF);
        }
        bytes.extend_from_slice(headers[i].0.as_str().as_bytes());
        bytes.push(COLON);
        bytes.push(SP);
        bytes.extend_from_slice(headers[i].1.as_str().as_bytes());
        proof {
            let next = hs.take(i + 1);
            assert(next.drop_last() =~= hs.take(i as int));
        }
        i = i + 1;
    }
    assert(hs.take(i as int) =~= hs);
    bytes
}

} // verus!
