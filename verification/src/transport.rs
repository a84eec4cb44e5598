//! The transport boundary: one request/response exchange over a pluggable
//! medium.  The decisions a transport takes — refusing unauthenticated
//! calls before any I/O, attaching the authorization header, classifying
//! how an exchange ended, and routing relayed responses to their waiting
//! callers — are plain functions here, verified for every input; the code
//! that moves bytes over a network or a relay queue drives them from
//! outside.

use vstd::prelude::*;
use crate::state::{Session, SessionModel};
use crate::text::push_all;

verus! {

/// The request method names a transport understands.
#[derive(Clone, Copy, Debug, PartialEq, Eq, Structural)]
pub enum Method {
    Get,
    Post,
    Put,
    Delete,
}

/// Model of a [`Request`].
pub struct RequestModel {
    pub method: Method,
    pub path: Seq<u8>,
    pub headers: Seq<(Seq<u8>, Seq<u8>)>,
    pub body: Seq<u8>,
}

/// Model of a [`Response`].
pub struct ResponseModel {
    pub status: u16,
    pub headers: Seq<(Seq<u8>, Seq<u8>)>,
    pub body: Seq<u8>,
}

/// One protocol request: method, target path, header set and raw body
/// bytes.  Transports do not interpret the body.
#[derive(Debug, PartialEq, Eq)]
pub struct Request {
    pub method: Method,
    pub path: Vec<u8>,
    pub headers: Vec<(Vec<u8>, Vec<u8>)>,
    pub body: Vec<u8>,
}

/// One protocol response: status code, header set and raw body bytes.
#[derive(Debug, PartialEq, Eq)]
pub struct Response {
    pub status: u16,
    pub headers: Vec<(Vec<u8>, Vec<u8>)>,
    pub body: Vec<u8>,
}

/// The header pairs of a request or response as byte strings.
pub open spec fn header_pairs_view(v: Seq<(Vec<u8>, Vec<u8>)>) -> Seq<(Seq<u8>, Seq<u8>)> {
    v.map_values(|p: (Vec<u8>, Vec<u8>)| (p.0@, p.1@))
}

impl View for Request {
    type V = RequestModel;

    open spec fn view(&self) -> RequestModel {
        RequestModel {
            method: self.method,
            path: self.path@,
            headers: header_pairs_view(self.headers@),
            body: self.body@,
        }
    }
}

impl View for Response {
    type V = ResponseModel;

    open spec fn view(&self) -> ResponseModel {
        ResponseModel {
            status: self.status,
            headers: header_pairs_view(self.headers@),
            body: self.body@,
        }
    }
}

/// Failure modes of the transport boundary.
#[derive(Debug, PartialEq, Eq)]
pub enum TransportError {
    /// The call needed a credential and none was present: a caller error,
    /// reported before any I/O is attempted.
    Unauthenticated,
    /// The exchange failed at the transport level, with the cause's
    /// description; transient, the caller may retry with backoff.
    ConnectionFailed(Vec<u8>),
    /// The bounded per-request wait elapsed; transient.
    Timeout,
    /// The relay queue was closed with no response pending: terminal for
    /// this transport instance.
    RelayClosed,
    /// The peer answered with bytes that do not form a response: a protocol
    /// violation, surfaced and not retried.
    MalformedResponse,
}

/// Per-transport settings.  Every blocking operation is bounded by the
/// request timeout; there is no infinite wait.
#[derive(Clone, Copy, Debug, PartialEq, Eq, Structural)]
pub struct TransportConfig {
    /// Upper bound on one exchange, in milliseconds; always finite.
    pub request_timeout_ms: u64,
}

impl Default for TransportConfig {
    /// The default bound of thirty seconds.
    fn default() -> (r: Self)
        ensures
            r.request_timeout_ms == 30000,
    {
        TransportConfig { request_timeout_ms: 30000 }
    }
}

impl TransportConfig {
    /// Settings with the given finite request bound.
    pub fn with_timeout(ms: u64) -> (r: Self)
        ensures
            r.request_timeout_ms == ms,
    {
        TransportConfig { request_timeout_ms: ms }
    }
}

/// `Authorization`
pub open spec fn header_authorization() -> Seq<u8> {
    seq![65u8, 117, 116, 104, 111, 114, 105, 122, 97, 116, 105, 111, 110]
}

/// `Bearer ` followed by the access token.
pub open spec fn bearer(token: Seq<u8>) -> Seq<u8> {
    seq![66u8, 101, 97, 114, 101, 114, 32] + token
}

/// What a prepared request looks like: untouched unless the call needs a
/// credential and one is present, in which case exactly the authorization
/// header is appended.
pub open spec fn prepared_request(
    requires_auth: bool,
    session: Option<SessionModel>,
    q: RequestModel,
) -> RequestModel {
    match session {
        Some(s) => if requires_auth {
            RequestModel {
                method: q.method,
                path: q.path,
                headers: q.headers.push((header_authorization(), bearer(s.access_token))),
                body: q.body,
            }
        } else {
            q
        },
        None => q,
    }
}

/// The `Authorization: Bearer` header value for a session.
fn auth_header_value(session: &Session) -> (r: Vec<u8>)
    ensures
        r@ == bearer(session@.access_token),
{
    let mut r: Vec<u8> = Vec::new();
    r.push(66);
    r.push(101);
    r.push(97);
    r.push(114);
    r.push(101);
    r.push(114);
    r.push(32);
    assert(r@ =~= seq![66u8, 101, 97, 114, 101, 114, 32]);
    push_all(&mut r, &session.access_token);
    r
}

/// The `Authorization` header name.
fn auth_header_name() -> (r: Vec<u8>)
    ensures
        r@ == header_authorization(),
{
    let mut r: Vec<u8> = Vec::new();
    r.push(65);
    r.push(117);
    r.push(116);
    r.push(104);
    r.push(111);
    r.push(114);
    r.push(105);
    r.push(122);
    r.push(97);
    r.push(116);
    r.push(105);
    r.push(111);
    r.push(110);
    assert(r@ =~= header_authorization());
    r
}

/// The auth gate and header step shared by every transport: a call that
/// needs a credential fails with `Unauthenticated` when none is present —
/// before any I/O could happen — and otherwise goes out with the
/// authorization header appended exactly when the call needs it and a
/// session exists.
pub fn prepare_request(requires_auth: bool, session: &Option<Session>, request: Request) -> (r:
    Result<Request, TransportError>)
    ensures
        (requires_auth && session is None) <==> (r matches Err(e) && e is Unauthenticated),
        r is Err ==> (r matches Err(e) && e is Unauthenticated),
        r matches Ok(out) ==> out@ == prepared_request(
            requires_auth,
            match *session {
                Some(ref s) => Some(s@),
                None => None,
            },
            request@,
        ),
{
    match session {
        None => {
            if requires_auth {
                Err(TransportError::Unauthenticated)
            } else {
                Ok(request)
            }
        },
        Some(s) => {
            if requires_auth {
                let ghost q = request@;
                let mut out = request;
                let name = auth_header_name();
                let value = auth_header_value(s);
                out.headers.push((name, value));
                proof {
                    assert(header_pairs_view(out.headers@) =~= q.headers.push(
                        (header_authorization(), bearer(s@.access_token)),
                    ));
                }
                Ok(out)
            } else {
                Ok(request)
            }
        },
    }
}

/// How one direct network exchange ended, as reported by the code that
/// performed it.
#[derive(Debug, PartialEq, Eq)]
pub enum DirectEvent {
    /// The peer answered.
    Responded(Response),
    /// The exchange failed below the protocol, with a description.
    Failed(Vec<u8>),
    /// The peer answered with bytes that do not form a response.
    Malformed,
    /// The bounded wait elapsed.
    TimedOut,
}

/// Classifies a finished direct exchange: a transport reports, it never
/// retries — retry policy belongs to the caller.
pub fn direct_step(event: DirectEvent) -> (r: Result<Response, TransportError>)
    ensures
        event matches DirectEvent::Responded(resp) ==> (r matches Ok(out) && out == resp),
        event matches DirectEvent::Failed(cause) ==> (r matches Err(e) && e matches
            TransportError::ConnectionFailed(c) && c == cause),
        event is Malformed ==> (r matches Err(e) && e is MalformedResponse),
        event is TimedOut ==> (r matches Err(e) && e is Timeout),
{
    match event {
        DirectEvent::Responded(resp) => Ok(resp),
        DirectEvent::Failed(cause) => Err(TransportError::ConnectionFailed(cause)),
        DirectEvent::Malformed => Err(TransportError::MalformedResponse),
        DirectEvent::TimedOut => Err(TransportError::Timeout),
    }
}

/// What one bounded wait on the relay queue produced.
#[derive(Debug, PartialEq, Eq)]
pub enum RelayEvent {
    /// The relay deposited a completed response.
    Delivered(Response),
    /// The queue was closed: the relay shut down for good.
    Closed,
    /// The bounded wait elapsed with nothing delivered.
    TimedOut,
}

/// Resolves a relay wait: a delivered response is handed through, a closed
/// queue is the terminal `RelayClosed`, and an elapsed bound is `Timeout` —
/// never a retry loop inside the transport, so a pending call resolves
/// within its configured bound instead of spinning.
pub fn relay_step(event: RelayEvent) -> (r: Result<Response, TransportError>)
    ensures
        event matches RelayEvent::Delivered(resp) ==> (r matches Ok(out) && out == resp),
        event is Closed ==> (r matches Err(e) && e is RelayClosed),
        event is TimedOut ==> (r matches Err(e) && e is Timeout),
{
    match event {
        RelayEvent::Delivered(resp) => Ok(resp),
        RelayEvent::Closed => Err(TransportError::RelayClosed),
        RelayEvent::TimedOut => Err(TransportError::Timeout),
    }
}

} // verus!
