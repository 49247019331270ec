//! What the resource resolver reports, and the response that each report
//! and each rejected request is answered with. The resolver itself is not
//! part of the engine: the connection asks for a target and is told the
//! outcome.

use vstd::prelude::*;
use crate::octets::{ascii, ascii_bytes, LF};
use crate::response::{framed_by_lines, Response, ResponseView, Status};
use crate::{HttpMethod, HttpVersion};

verus! {

/// What the resolver found for a target.
#[derive(Debug, PartialEq, Eq)]
pub enum ResolveOutcome {
    /// The resource, with its media type.
    Found { bytes: Vec<u8>, content_type: Vec<u8> },
    /// There is no such resource.
    NotFound,
    /// The resource may not be served.
    Forbidden,
    /// The resolver failed in any other way.
    Failed,
}

/// An outcome as contracts speak of it.
pub enum OutcomeView {
    Found { bytes: Seq<u8>, content_type: Seq<u8> },
    NotFound,
    Forbidden,
    Failed,
}

impl View for ResolveOutcome {
    type V = OutcomeView;

    open spec fn view(&self) -> OutcomeView {
        match self {
            ResolveOutcome::Found { bytes, content_type } => OutcomeView::Found {
                bytes: bytes@,
                content_type: content_type@,
            },
            ResolveOutcome::NotFound => OutcomeView::NotFound,
            ResolveOutcome::Forbidden => OutcomeView::Forbidden,
            ResolveOutcome::Failed => OutcomeView::Failed,
        }
    }
}

/// The name of the header that carries the media type.
pub open spec fn content_type() -> Seq<u8> {
    ascii("Content-Type"@)
}

/// The body that goes with a method: the bytes for GET, none for HEAD.
pub open spec fn body_for(method: HttpMethod, bytes: Seq<u8>) -> Option<Seq<u8>> {
    match method {
        HttpMethod::GET => Some(bytes),
        HttpMethod::HEAD => None,
    }
}

/// The status that an outcome is answered with: 200 for a resource, 404
/// where there is none, 500 for every other outcome.
pub open spec fn status_of(outcome: OutcomeView) -> Status {
    match outcome {
        OutcomeView::Found { .. } => Status::Success,
        OutcomeView::NotFound => Status::NotFound,
        OutcomeView::Forbidden => Status::InternalServerError,
        OutcomeView::Failed => Status::InternalServerError,
    }
}

/// The response to a request with this method and version whose target
/// resolved to `outcome`. A resource is sent with its media type; every
/// other outcome has no header of its own and an empty body.
pub open spec fn answer(method: HttpMethod, version: HttpVersion, outcome: OutcomeView)
    -> ResponseView {
    match outcome {
        OutcomeView::Found { bytes, content_type: media } => ResponseView {
            version,
            status: Status::Success,
            headers: seq![(content_type(), media)],
            body: body_for(method, bytes),
        },
        _ => ResponseView {
            version,
            status: status_of(outcome),
            headers: Seq::empty(),
            body: body_for(method, Seq::empty()),
        },
    }
}

/// The response to a request that the grammar rejects: 400 with an empty
/// body, whatever the reason.
pub open spec fn refusal(version: HttpVersion) -> ResponseView {
    ResponseView {
        version,
        status: Status::BadRequest,
        headers: Seq::empty(),
        body: Some(Seq::empty()),
    }
}

/// The responses of the server can be framed by lines: the refusal and
/// the answer to every outcome, provided that the media type of a resource
/// holds no line feed.
pub proof fn lemma_responses_are_framed(
    method: HttpMethod,
    version: HttpVersion,
    outcome: OutcomeView,
)
    requires
        outcome matches OutcomeView::Found { content_type: media, .. } ==> !media.contains(LF),
    ensures
        framed_by_lines(answer(method, version, outcome)),
        framed_by_lines(refusal(version)),
{
    reveal_strlit("Content-Type");
}

/// The response to a request with this method and version whose target
/// resolved to `outcome`.
pub fn respond(method: HttpMethod, version: HttpVersion, outcome: ResolveOutcome) -> (r: Response)
    ensures
        r@ == answer(method, version, outcome@),
{
    match outcome {
        ResolveOutcome::Found { bytes, content_type } => {
            proof {
                reveal_strlit("Content-Type");
            }
            let name = vstd::slice::slice_to_vec(ascii_bytes("Content-Type"));
            let mut headers: Vec<(Vec<u8>, Vec<u8>)> = Vec::new();
            headers.push((name, content_type));
            let body = match method {
                HttpMethod::GET => Some(bytes),
                HttpMethod::HEAD => None,
            };
            let r = Response { version, status: Status::Success, headers, body };
            assert(r@.headers =~= seq![(crate::resolve::content_type(), content_type@)]);
            r
        },
        ResolveOutcome::NotFound => plain(method, version, Status::NotFound),
        ResolveOutcome::Forbidden => plain(method, version, Status::InternalServerError),
        ResolveOutcome::Failed => plain(method, version, Status::InternalServerError),
    }
}

fn plain(method: HttpMethod, version: HttpVersion, status: Status) -> (r: Response)
    ensures
        r@ == (ResponseView {
            version,
            status,
            headers: Seq::empty(),
            body: body_for(method, Seq::empty()),
        }),
{
    let body = match method {
        HttpMethod::GET => Some(Vec::new()),
        HttpMethod::HEAD => None,
    };
    let r = Response { version, status, headers: Vec::new(), body };
    assert(r@.headers =~= Seq::<(Seq<u8>, Seq<u8>)>::empty());
    r
}

/// The response to a request that the grammar rejects.
pub fn refuse(version: HttpVersion) -> (r: Response)
    ensures
        r@ == refusal(version),
{
    let r = Response {
        version,
        status: Status::BadRequest,
        headers: Vec::new(),
        body: Some(Vec::new()),
    };
    assert(r@.headers =~= Seq::<(Seq<u8>, Seq<u8>)>::empty());
    r
}

} // verus!
