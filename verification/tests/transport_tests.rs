//! Transport decisions: the auth gate, outcome classification and the
//! relay correlation router.

use matrix_client_core::ids::UserId;
use matrix_client_core::router::RelayRouter;
use matrix_client_core::state::Session;
use matrix_client_core::transport::{
    direct_step, prepare_request, relay_step, DirectEvent, Method, RelayEvent, Request, Response,
    TransportConfig, TransportError,
};

fn sample_request() -> Request {
    Request {
        method: Method::Get,
        path: b"/sync".to_vec(),
        headers: Vec::new(),
        body: Vec::new(),
    }
}

fn sample_session() -> Session {
    Session {
        user_id: UserId::parse("@example:example.com").unwrap(),
        device_id: b"DEVICEID".to_vec(),
        access_token: b"token123".to_vec(),
    }
}

fn sample_response(status: u16, body: &[u8]) -> Response {
    Response { status, headers: Vec::new(), body: body.to_vec() }
}

#[test]
fn auth_required_without_session_is_refused_before_io() {
    let r = prepare_request(true, &None, sample_request());
    assert_eq!(Err(TransportError::Unauthenticated), r);
}

#[test]
fn auth_header_is_attached_exactly_when_needed() {
    let session = Some(sample_session());

    let sent = prepare_request(true, &session, sample_request()).unwrap();
    assert_eq!(1, sent.headers.len());
    assert_eq!(b"Authorization".to_vec(), sent.headers[0].0);
    assert_eq!(b"Bearer token123".to_vec(), sent.headers[0].1);

    let sent = prepare_request(false, &session, sample_request()).unwrap();
    assert!(sent.headers.is_empty());

    let sent = prepare_request(false, &None, sample_request()).unwrap();
    assert!(sent.headers.is_empty());
}

#[test]
fn direct_outcomes_map_to_their_errors() {
    let ok = direct_step(DirectEvent::Responded(sample_response(200, b"{}")));
    assert_eq!(Ok(sample_response(200, b"{}")), ok);
    assert_eq!(
        Err(TransportError::ConnectionFailed(b"refused".to_vec())),
        direct_step(DirectEvent::Failed(b"refused".to_vec()))
    );
    assert_eq!(Err(TransportError::Timeout), direct_step(DirectEvent::TimedOut));
    assert_eq!(Err(TransportError::MalformedResponse), direct_step(DirectEvent::Malformed));
}

#[test]
fn closed_relay_resolves_as_relay_closed() {
    // A queue closed before any response arrives must resolve the pending
    // call, not leave it spinning.
    assert_eq!(Err(TransportError::RelayClosed), relay_step(RelayEvent::Closed));
    assert_eq!(Err(TransportError::Timeout), relay_step(RelayEvent::TimedOut));
    let delivered = relay_step(RelayEvent::Delivered(sample_response(200, b"ok")));
    assert_eq!(Ok(sample_response(200, b"ok")), delivered);
}

#[test]
fn default_timeout_is_finite() {
    let config = TransportConfig::default();
    assert_eq!(30000, config.request_timeout_ms);
    assert_eq!(250, TransportConfig::with_timeout(250).request_timeout_ms);
    assert_eq!(0, TransportConfig::with_timeout(0).request_timeout_ms);
}

#[test]
fn router_routes_each_response_to_its_caller() {
    let mut router = RelayRouter::new();
    let first = router.register().unwrap();
    let second = router.register().unwrap();
    assert_ne!(first, second);

    // Nothing has been delivered yet.
    assert_eq!(None, router.take(first));
    assert_eq!(None, router.take(second));

    // A response for the second request reaches only the second caller.
    assert!(router.deliver(second, sample_response(200, b"second")));
    assert_eq!(None, router.take(first));
    assert_eq!(Some(sample_response(200, b"second")), router.take(second));

    // A slot is single use: the same identifier yields nothing twice.
    assert_eq!(None, router.take(second));
    assert!(!router.deliver(second, sample_response(200, b"again")));
}

#[test]
fn router_rejects_unknown_and_cancelled_identifiers() {
    let mut router = RelayRouter::new();
    assert!(!router.deliver(7, sample_response(200, b"nobody")));

    let id = router.register().unwrap();
    router.cancel(id);
    // The reservation was released: a late response is rejected.
    assert!(!router.deliver(id, sample_response(200, b"late")));
    assert_eq!(None, router.take(id));
}
