use bitcli::error::{Error, ErrorResponse};
use bitcli::remote::{
    classify, parse_response, Body, Endpoint, Parsed, Reply, StatusClass, Violation,
};

fn response(message: &str) -> ErrorResponse {
    ErrorResponse {
        message: message.to_string(),
        description: Some("why".to_string()),
        resource: None,
        errors: None,
    }
}

#[test]
fn statuses_of_the_user_endpoint() {
    for status in 0..=u16::MAX {
        let expected = match status {
            200 => StatusClass::Success,
            403 | 404 | 410 | 500 | 503 => StatusClass::Rejected,
            _ => StatusClass::Unexpected,
        };
        assert_eq!(classify(Endpoint::User, status), expected, "status {status}");
    }
}

#[test]
fn statuses_of_the_shorten_endpoint() {
    for status in 0..=u16::MAX {
        let expected = match status {
            200 | 201 => StatusClass::Success,
            400 | 403 | 410 | 417 | 422 | 429 | 500 | 503 => StatusClass::Rejected,
            _ => StatusClass::Unexpected,
        };
        assert_eq!(classify(Endpoint::Shorten, status), expected, "status {status}");
    }
}

#[test]
fn endpoint_names() {
    assert_eq!(Endpoint::User.name(), "user");
    assert_eq!(Endpoint::Shorten.name(), "shorten");
}

#[test]
fn success_gives_the_value() {
    let reply = Reply::Response { status: 201, body: Body::Value(7u8) };
    assert_eq!(parse_response(Endpoint::Shorten, reply), Parsed::Value(7u8));
}

#[test]
fn created_is_no_answer_of_the_user_endpoint() {
    let reply = Reply::Response { status: 201, body: Body::Value(7u8) };
    assert_eq!(
        parse_response(Endpoint::User, reply),
        Parsed::Violation(Violation::UnexpectedStatus(201))
    );
}

#[test]
fn rejection_carries_the_envelope() {
    let reply: Reply<u8> =
        Reply::Response { status: 429, body: Body::Rejection(response("RATE_LIMITED")) };
    assert_eq!(
        parse_response(Endpoint::Shorten, reply),
        Parsed::Failure(Error::Bitly(response("RATE_LIMITED")))
    );
}

#[test]
fn transport_failure_is_recoverable() {
    let reply: Reply<u8> = Reply::Failed("timed out".to_string());
    assert_eq!(
        parse_response(Endpoint::User, reply),
        Parsed::Failure(Error::Http("timed out".to_string()))
    );
}

#[test]
fn malformed_bodies_break_the_contract() {
    let reply: Reply<u8> = Reply::Response { status: 200, body: Body::Undecoded };
    assert_eq!(
        parse_response(Endpoint::User, reply),
        Parsed::Violation(Violation::InvalidResponse)
    );

    let reply: Reply<u8> =
        Reply::Response { status: 200, body: Body::Rejection(response("ODD")) };
    assert_eq!(
        parse_response(Endpoint::User, reply),
        Parsed::Violation(Violation::InvalidResponse)
    );

    let reply: Reply<u8> = Reply::Response { status: 503, body: Body::Undecoded };
    assert_eq!(
        parse_response(Endpoint::Shorten, reply),
        Parsed::Violation(Violation::InvalidErrorResponse)
    );

    let reply = Reply::Response { status: 403, body: Body::Value(7u8) };
    assert_eq!(
        parse_response(Endpoint::Shorten, reply),
        Parsed::Violation(Violation::InvalidErrorResponse)
    );

    let reply: Reply<u8> =
        Reply::Response { status: 404, body: Body::Rejection(response("NOT_FOUND")) };
    assert_eq!(
        parse_response(Endpoint::Shorten, reply),
        Parsed::Violation(Violation::UnexpectedStatus(404))
    );
}
