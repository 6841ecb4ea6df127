use event_feed::rejection::{handle_rejection, Rejection};
use event_feed::types::Error;

#[test]
fn a_missing_path_is_answered_with_not_found() {
    let reply = handle_rejection(&Rejection::NotFound);
    assert_eq!(reply.code, 404);
    assert_eq!(reply.message, "404 - Not found");
}

#[test]
fn a_failed_feed_is_answered_with_its_message_alone() {
    let error = Error {
        message: "The remote calendar could not be processed.".to_string(),
        details: Some("connection refused".to_string()),
    };
    let reply = handle_rejection(&Rejection::Failed(error));
    assert_eq!(reply.code, 500);
    assert_eq!(reply.message, "The remote calendar could not be processed.");
}

#[test]
fn anything_else_is_answered_with_a_server_error() {
    let reply = handle_rejection(&Rejection::Other);
    assert_eq!(reply.code, 500);
    assert_eq!(reply.message, "500 - Internal server error");
}

#[test]
fn the_default_error_is_empty() {
    let error = Error::default();
    assert_eq!(error.message, "");
    assert!(error.details.is_none());
}
