//! Responses and their framing on the wire.

use vstd::prelude::*;
use crate::line::{lemma_reads_line, lines_to_blank};
use crate::octets::{
    ascii,
    ascii_bytes,
    decimal,
    decimal_value,
    lemma_decimal,
    lemma_first_index_is,
    to_decimal,
    trim_end,
    trim_start,
    COLON,
    CR,
    LF,
    SP,
};
use crate::request::{parsed_header_line, ParseError};
use crate::{lemma_tokens_name_themselves, HttpVersion};

verus! {

/// The status codes the server produces.
#[derive(Debug, Clone, Copy, PartialEq, Eq, Structural)]
pub enum Status {
    Success,
    BadRequest,
    NotFound,
    InternalServerError,
}

impl Status {
    /// The three-digit code.
    pub open spec fn code(self) -> nat {
        match self {
            Status::Success => 200,
            Status::BadRequest => 400,
            Status::NotFound => 404,
            Status::InternalServerError => 500,
        }
    }

    /// The reason phrase, which is fixed for each code.
    pub open spec fn reason(self) -> Seq<u8> {
        match self {
            Status::Success => ascii("OK"@),
            Status::BadRequest => ascii("Bad Request"@),
            Status::NotFound => ascii("Not Found"@),
            Status::InternalServerError => ascii("Internal Server Error"@),
        }
    }

    /// The three-digit code.
    pub fn number(&self) -> (n: u16)
        ensures
            n == self.code(),
    {
        match self {
            Status::Success => 200,
            Status::BadRequest => 400,
            Status::NotFound => 404,
            Status::InternalServerError => 500,
        }
    }

    /// The reason phrase.
    pub fn reason_phrase(&self) -> (r: &'static [u8])
        ensures
            r@ == self.reason(),
    {
        proof {
            reveal_strlit("OK");
            reveal_strlit("Bad Request");
            reveal_strlit("Not Found");
            reveal_strlit("Internal Server Error");
        }
        match self {
            Status::Success => ascii_bytes("OK"),
            Status::BadRequest => ascii_bytes("Bad Request"),
            Status::NotFound => ascii_bytes("Not Found"),
            Status::InternalServerError => ascii_bytes("Internal Server Error"),
        }
    }
}

/// A response as contracts speak of it.
pub struct ResponseView {
    pub version: HttpVersion,
    pub status: Status,
    pub headers: Seq<(Seq<u8>, Seq<u8>)>,
    pub body: Option<Seq<u8>>,
}

/// A response: the version and status of its status line, its headers in
/// the order in which they are sent, and its body. `None` is a response
/// without a body, which also carries no `Content-Length`; the header is
/// never among `headers`, because the framing adds it.
#[derive(Debug, PartialEq, Eq)]
pub struct Response {
    pub version: HttpVersion,
    pub status: Status,
    pub headers: Vec<(Vec<u8>, Vec<u8>)>,
    pub body: Option<Vec<u8>>,
}

/// The headers of a response as contracts speak of them.
pub open spec fn fields(headers: Seq<(Vec<u8>, Vec<u8>)>) -> Seq<(Seq<u8>, Seq<u8>)> {
    Seq::new(headers.len(), |i: int| (headers[i].0@, headers[i].1@))
}

/// The body of a response as contracts speak of it.
pub open spec fn payload(body: Option<Vec<u8>>) -> Option<Seq<u8>> {
    match body {
        Some(b) => Some(b@),
        None => None,
    }
}

impl View for Response {
    type V = ResponseView;

    open spec fn view(&self) -> ResponseView {
        ResponseView {
            version: self.version,
            status: self.status,
            headers: fields(self.headers@),
            body: payload(self.body),
        }
    }
}

/// The line terminator.
pub open spec fn crlf() -> Seq<u8> {
    seq![CR, LF]
}

/// The name of the header that frames the body.
pub open spec fn content_length() -> Seq<u8> {
    ascii("Content-Length"@)
}

/// `HTTP/1.x CODE REASON`.
pub open spec fn status_content(version: HttpVersion, status: Status) -> Seq<u8> {
    version.token() + seq![SP] + decimal(status.code()) + seq![SP] + status.reason()
}

/// The status line with its terminator.
pub open spec fn status_line(version: HttpVersion, status: Status) -> Seq<u8> {
    status_content(version, status) + crlf()
}

/// `Name: Value`.
pub open spec fn header_content(name: Seq<u8>, value: Seq<u8>) -> Seq<u8> {
    name + seq![COLON, SP] + value
}

/// A header line with its terminator.
pub open spec fn header_line(name: Seq<u8>, value: Seq<u8>) -> Seq<u8> {
    header_content(name, value) + crlf()
}

/// The header lines one after another, in their order.
pub open spec fn header_lines(headers: Seq<(Seq<u8>, Seq<u8>)>) -> Seq<u8>
    decreases headers.len(),
{
    if headers.len() == 0 {
        Seq::empty()
    } else {
        header_lines(headers.drop_last()) + header_line(headers.last().0, headers.last().1)
    }
}

/// The `Content-Length` line of a response with a body: the exact number
/// of bytes of the body, in decimal. Nothing for a response without one.
pub open spec fn length_line(body: Option<Seq<u8>>) -> Seq<u8> {
    match body {
        Some(b) => header_line(content_length(), decimal(b.len())),
        None => Seq::empty(),
    }
}

/// All that precedes the body: status line, header lines, the
/// `Content-Length` line where there is a body, and one blank line.
pub open spec fn head(r: ResponseView) -> Seq<u8> {
    status_line(r.version, r.status) + header_lines(r.headers) + length_line(r.body) + crlf()
}

/// The bytes of the body; none for a response without one.
pub open spec fn body_bytes(body: Option<Seq<u8>>) -> Seq<u8> {
    match body {
        Some(b) => b,
        None => Seq::empty(),
    }
}

/// A response on the wire: its head, then the body as it is.
pub open spec fn wire(r: ResponseView) -> Seq<u8> {
    head(r) + body_bytes(r.body)
}

/// What each line of the head holds, in the order of the lines and
/// without the blank line: the status, the headers, and the
/// `Content-Length` where there is a body.
pub open spec fn head_contents(r: ResponseView) -> Seq<Seq<u8>> {
    seq![status_content(r.version, r.status)] + header_contents(r.headers) + match r.body {
        Some(b) => seq![header_content(content_length(), decimal(b.len()))],
        None => Seq::empty(),
    }
}

/// What each header line holds.
pub open spec fn header_contents(headers: Seq<(Seq<u8>, Seq<u8>)>) -> Seq<Seq<u8>> {
    Seq::new(headers.len(), |i: int| header_content(headers[i].0, headers[i].1))
}

/// A response can be framed by lines when no name and no value of its
/// headers holds a line feed.
pub open spec fn framed_by_lines(r: ResponseView) -> bool {
    forall|i: int|
        0 <= i < r.headers.len() ==> !(#[trigger] r.headers[i]).0.contains(LF)
            && !r.headers[i].1.contains(LF)
}

/// The body of a response is framed exactly. Read back line by line, the
/// wire form gives the lines of the head up to the first blank line; the
/// last of them is `Content-Length` with the number of bytes of the body;
/// and behind the blank line stand the bytes of the body, all of them and
/// nothing else.
pub proof fn lemma_body_is_framed(r: ResponseView, body: Seq<u8>)
    requires
        framed_by_lines(r),
        r.body == Some(body),
    ensures
        lines_to_blank(wire(r), 0) == Some((head_contents(r), head(r).len() as int)),
        head_contents(r).last() == header_content(content_length(), decimal(body.len())),
        wire(r).len() == head(r).len() + body.len(),
        wire(r).skip(head(r).len() as int) == body,
{
    lemma_head_is_read_back(r);
}

/// Read back line by line, the wire form of a response gives the lines of
/// its head and ends them at the blank line; what follows is the body.
pub proof fn lemma_head_is_read_back(r: ResponseView)
    requires
        framed_by_lines(r),
    ensures
        lines_to_blank(wire(r), 0) == Some((head_contents(r), head(r).len() as int)),
        wire(r).skip(head(r).len() as int) == body_bytes(r.body),
{
    let input = wire(r);
    let none = Seq::<u8>::empty();
    let status = status_content(r.version, r.status);
    let fields = header_lines(r.headers);
    let length = length_line(r.body);
    let body = body_bytes(r.body);
    lemma_status_is_one_line(r.version, r.status);
    assert(input =~= none + status + crlf() + (fields + length + crlf() + body));
    lemma_reads_nonblank(none, status, fields + length + crlf() + body);
    assert(input =~= status_line(r.version, r.status) + fields + (length + crlf() + body));
    lemma_reads_headers(status_line(r.version, r.status), r.headers, length + crlf() + body);
    let at_length = status_line(r.version, r.status) + fields;
    let at_blank = at_length + length;
    match r.body {
        Some(b) => {
            let text = header_content(content_length(), decimal(b.len()));
            lemma_length_is_one_line(b.len());
            assert(input =~= at_length + text + crlf() + (crlf() + body));
            lemma_reads_nonblank(at_length, text, crlf() + body);
        },
        None => {},
    }
    lemma_reads_line(at_blank, none, body);
}

/// The `Content-Length` line is read by the header grammar as that name
/// with the decimal numeral as its value, and the numeral denotes the
/// number it was made from.
pub proof fn lemma_length_is_read_back(n: nat)
    ensures
        parsed_header_line(header_content(content_length(), decimal(n))) == Ok::<
            (Seq<u8>, Seq<u8>),
            ParseError,
        >((content_length(), decimal(n))),
        decimal_value(decimal(n)) == n,
{
    reveal_strlit("Content-Length");
    lemma_decimal(n);
    let name = content_length();
    let value = decimal(n);
    let line = header_content(name, value);
    lemma_first_index_is(line, COLON, name.len() as int);
    assert(line.take(name.len() as int) =~= name);
    let rest = line.skip((name.len() + 1) as int);
    assert(rest.skip(1) =~= value);
    assert(trim_start(value) == value);
}

proof fn lemma_status_is_one_line(version: HttpVersion, status: Status)
    ensures
        !status_content(version, status).contains(LF),
        status_content(version, status).len() > 0,
{
    reveal_strlit("OK");
    reveal_strlit("Bad Request");
    reveal_strlit("Not Found");
    reveal_strlit("Internal Server Error");
    lemma_tokens_name_themselves(crate::HttpMethod::GET, version);
    lemma_decimal(status.code());
}

proof fn lemma_length_is_one_line(n: nat)
    ensures
        !header_content(content_length(), decimal(n)).contains(LF),
        header_content(content_length(), decimal(n)).len() > 0,
{
    reveal_strlit("Content-Length");
    lemma_decimal(n);
}

proof fn lemma_reads_nonblank(before: Seq<u8>, c: Seq<u8>, after: Seq<u8>)
    requires
        !c.contains(LF),
        c.len() > 0,
    ensures
        lines_to_blank(before + c + crlf() + after, before.len() as int) == match lines_to_blank(
            before + c + crlf() + after,
            (before.len() + c.len() + 2) as int,
        ) {
            None => None::<(Seq<Seq<u8>>, int)>,
            Some((rest, last)) => Some((seq![c] + rest, last)),
        },
{
    lemma_reads_line(before, c, after);
}

proof fn lemma_header_lines_from_the_front(headers: Seq<(Seq<u8>, Seq<u8>)>)
    requires
        headers.len() > 0,
    ensures
        header_lines(headers) == header_line(headers[0].0, headers[0].1) + header_lines(
            headers.skip(1),
        ),
    decreases headers.len(),
{
    if headers.len() == 1 {
        assert(headers.drop_last() =~= headers.skip(1));
    } else {
        lemma_header_lines_from_the_front(headers.drop_last());
        assert(headers.drop_last().skip(1) =~= headers.skip(1).drop_last());
    }
}

proof fn lemma_reads_headers(before: Seq<u8>, headers: Seq<(Seq<u8>, Seq<u8>)>, after: Seq<u8>)
    requires
        forall|i: int|
            0 <= i < headers.len() ==> !(#[trigger] headers[i]).0.contains(LF)
                && !headers[i].1.contains(LF),
    ensures
        lines_to_blank(before + header_lines(headers) + after, before.len() as int)
            == match lines_to_blank(
            before + header_lines(headers) + after,
            (before.len() + header_lines(headers).len()) as int,
        ) {
            None => None::<(Seq<Seq<u8>>, int)>,
            Some((rest, last)) => Some((header_contents(headers) + rest, last)),
        },
    decreases headers.len(),
{
    let input = before + header_lines(headers) + after;
    if headers.len() > 0 {
        let name = headers[0].0;
        let value = headers[0].1;
        let c = header_content(name, value);
        let tail = headers.skip(1);
        lemma_header_lines_from_the_front(headers);
        assert(input =~= before + c + crlf() + (header_lines(tail) + after));
        lemma_reads_nonblank(before, c, header_lines(tail) + after);
        let next = before + header_line(name, value);
        assert(input =~= next + header_lines(tail) + after);
        lemma_reads_headers(next, tail, after);
    }
}

fn put(out: &mut Vec<u8>, bytes: &[u8])
    ensures
        final(out)@ == old(out)@ + bytes@,
{
    out.extend_from_slice(bytes);
}

fn put_header(out: &mut Vec<u8>, name: &[u8], value: &[u8])
    ensures
        final(out)@ == old(out)@ + header_line(name@, value@),
{
    put(out, name);
    out.push(COLON);
    out.push(SP);
    put(out, value);
    out.push(CR);
    out.push(LF);
}

impl Response {
    /// The response on the wire.
    pub fn to_bytes(&self) -> (out: Vec<u8>)
        ensures
            out@ == wire(self@),
    {
        let mut out: Vec<u8> = Vec::new();
        put(&mut out, self.version.as_bytes());
        out.push(SP);
        let code = to_decimal(self.status.number() as usize);
        put(&mut out, code.as_slice());
        out.push(SP);
        put(&mut out, self.status.reason_phrase());
        out.push(CR);
        out.push(LF);
        let ghost hs = fields(self.headers@);
        let mut i: usize = 0;
        while i < self.headers.len()
            invariant
                i <= self.headers@.len(),
                hs == fields(self.headers@),
                out@ == status_line(self.version, self.status) + header_lines(hs.take(i as int)),
            decreases self.headers@.len() - i,
        {
            put_header(&mut out, self.headers[i].0.as_slice(), self.headers[i].1.as_slice());
            proof {
                let next = hs.take(i + 1);
                assert(next.drop_last() =~= hs.take(i as int));
            }
            i = i + 1;
        }
        assert(hs.take(i as int) =~= hs);
        match &self.body {
            Some(b) => {
                proof {
                    reveal_strlit("Content-Length");
                }
                let n = to_decimal(b.len());
                put_header(&mut out, ascii_bytes("Content-Length"), n.as_slice());
                out.push(CR);
                out.push(LF);
                put(&mut out, b.as_slice());
            },
            None => {
                out.push(CR);
                out.push(LF);
            },
        }
        out
    }
}

} // verus!
