use quic_vid::control::{
    acknowledgement, done, done_acknowledgement, hello, parse_done, parse_hello,
    validate_acknowledgement, validate_done_acknowledgement, ControlError,
};
use uuid::Uuid;

fn new_id() -> [u8; 16] {
    Uuid::new_v4().into_bytes()
}

fn text(id: [u8; 16]) -> String {
    Uuid::from_bytes(id).to_string()
}

#[test]
fn hello_round_trip_preserves_media_run_and_session_ids() {
    let media_run_id = new_id();
    let session_id = new_id();

    let message = hello(media_run_id, session_id);
    let parsed = parse_hello(&message).unwrap();

    assert_eq!(parsed.media_run_id, media_run_id);
    assert_eq!(parsed.session_id, session_id);
}

#[test]
fn parse_hello_rejects_invalid_uuid() {
    let session_id = text(new_id());
    let result = parse_hello(&format!("HELLO not-a-uuid {session_id}\n"));

    assert!(result.is_err());
}

#[test]
fn parse_hello_rejects_missing_identity() {
    let media_run_id = text(new_id());

    assert!(parse_hello(&format!("HELLO {media_run_id}\n")).is_err());
}

#[test]
fn parse_hello_rejects_wrong_message_type() {
    let media_run_id = text(new_id());
    let session_id = text(new_id());
    let message = format!("GOODBYE {media_run_id} {session_id}\n");

    assert!(parse_hello(&message).is_err());
}

#[test]
fn parse_hello_rejects_extra_fields() {
    let media_run_id = text(new_id());
    let session_id = text(new_id());
    let message = format!("HELLO {media_run_id} {session_id} extra\n");

    assert!(parse_hello(&message).is_err());
}

#[test]
fn acknowledgement_accepts_matching_identities() {
    let media_run_id = new_id();
    let session_id = new_id();
    let response = acknowledgement(media_run_id, session_id);

    assert!(validate_acknowledgement(&response, media_run_id, session_id).is_ok());
}

#[test]
fn acknowledgement_rejects_different_media_run() {
    let expected_media_run = new_id();
    let other_media_run = new_id();
    let session_id = new_id();
    let response = acknowledgement(other_media_run, session_id);

    assert!(validate_acknowledgement(&response, expected_media_run, session_id).is_err());
}

#[test]
fn acknowledgement_rejects_different_session() {
    let media_run_id = new_id();
    let expected_session = new_id();
    let other_session = new_id();
    let response = acknowledgement(media_run_id, other_session);

    assert!(validate_acknowledgement(&response, media_run_id, expected_session).is_err());
}

#[test]
fn done_round_trip_preserves_media_run_session_and_timeline() {
    let media_run_id = new_id();
    let session_id = new_id();
    let message = done(media_run_id, session_id, 300);

    let parsed = parse_done(&message).unwrap();

    assert_eq!(parsed.media_run_id, media_run_id);
    assert_eq!(parsed.session_id, session_id);
    assert_eq!(parsed.final_frame_exclusive, 300);
}

#[test]
fn parse_done_rejects_invalid_final_frame() {
    let media_run_id = text(new_id());
    let session_id = text(new_id());
    let message = format!("DONE {media_run_id} {session_id} bananas\n");

    assert!(parse_done(&message).is_err());
}

#[test]
fn parse_done_rejects_missing_identity() {
    let media_run_id = text(new_id());
    let message = format!("DONE {media_run_id} 10\n");

    assert!(parse_done(&message).is_err());
}

#[test]
fn parse_done_rejects_extra_fields() {
    let media_run_id = text(new_id());
    let session_id = text(new_id());
    let message = format!("DONE {media_run_id} {session_id} 10 extra\n");

    assert!(parse_done(&message).is_err());
}

#[test]
fn done_acknowledgement_accepts_matching_identities() {
    let media_run_id = new_id();
    let session_id = new_id();
    let response = done_acknowledgement(media_run_id, session_id);

    assert!(validate_done_acknowledgement(&response, media_run_id, session_id).is_ok());
}

#[test]
fn done_acknowledgement_rejects_wrong_media_run() {
    let expected_media_run = new_id();
    let other_media_run = new_id();
    let session_id = new_id();
    let response = done_acknowledgement(other_media_run, session_id);

    assert!(validate_done_acknowledgement(&response, expected_media_run, session_id).is_err());
}

#[test]
fn done_acknowledgement_rejects_wrong_session() {
    let media_run_id = new_id();
    let expected_session = new_id();
    let other_session = new_id();
    let response = done_acknowledgement(media_run_id, other_session);

    assert!(validate_done_acknowledgement(&response, media_run_id, expected_session).is_err());
}

#[test]
fn messages_use_hyphenated_lowercase_identities() {
    let media_run_id = [0xabu8; 16];
    let session_id = [0x01u8; 16];

    assert_eq!(
        hello(media_run_id, session_id),
        "HELLO abababab-abab-abab-abab-abababababab 01010101-0101-0101-0101-010101010101\n"
    );
    assert_eq!(
        acknowledgement(media_run_id, session_id),
        format!("OK {} {}\n", text(media_run_id), text(session_id))
    );
    assert_eq!(
        done(media_run_id, session_id, 0),
        format!("DONE {} {} 0\n", text(media_run_id), text(session_id))
    );
    assert_eq!(
        done_acknowledgement(media_run_id, session_id),
        format!("DONE_OK {} {}\n", text(media_run_id), text(session_id))
    );
}

#[test]
fn parse_hello_reports_each_error() {
    let a = text(new_id());
    let b = text(new_id());

    assert_eq!(parse_hello("   \n"), Err(ControlError::MissingMessageType));
    assert_eq!(parse_hello(&format!("DONE {a} {b}")), Err(ControlError::WrongMessageType));
    assert_eq!(parse_hello("HELLO"), Err(ControlError::MissingMediaRunId));
    assert_eq!(parse_hello(&format!("HELLO {a}")), Err(ControlError::MissingSessionId));
    assert_eq!(parse_hello(&format!("HELLO {a} {b} x")), Err(ControlError::ExtraFields));
    assert_eq!(parse_hello(&format!("HELLO nope {b}")), Err(ControlError::InvalidMediaRunId));
    assert_eq!(parse_hello(&format!("HELLO {a} nope")), Err(ControlError::InvalidSessionId));
}

#[test]
fn parse_done_reports_each_error() {
    let a = text(new_id());
    let b = text(new_id());

    assert_eq!(parse_done(""), Err(ControlError::MissingMessageType));
    assert_eq!(parse_done(&format!("HELLO {a} {b} 1")), Err(ControlError::WrongMessageType));
    assert_eq!(parse_done("DONE"), Err(ControlError::MissingMediaRunId));
    assert_eq!(parse_done(&format!("DONE {a}")), Err(ControlError::MissingSessionId));
    assert_eq!(parse_done(&format!("DONE {a} {b}")), Err(ControlError::MissingFinalFrame));
    assert_eq!(parse_done(&format!("DONE {a} {b} 1 2")), Err(ControlError::ExtraFields));
    assert_eq!(parse_done(&format!("DONE x {b} 1")), Err(ControlError::InvalidMediaRunId));
    assert_eq!(parse_done(&format!("DONE {a} y 1")), Err(ControlError::InvalidSessionId));
    assert_eq!(parse_done(&format!("DONE {a} {b} -1")), Err(ControlError::InvalidFinalFrame));
    assert_eq!(
        parse_done(&format!("DONE {a} {b} 18446744073709551616")),
        Err(ControlError::InvalidFinalFrame)
    );
}

#[test]
fn parsing_accepts_any_white_space_and_braced_or_simple_uuids() {
    let id = new_id();
    let simple = Uuid::from_bytes(id).simple().to_string();

    let parsed = parse_done(&format!("\t DONE  {simple}\n{}  18446744073709551615 ", text(id)))
        .unwrap();

    assert_eq!(parsed.media_run_id, id);
    assert_eq!(parsed.session_id, id);
    assert_eq!(parsed.final_frame_exclusive, u64::MAX);
}

#[test]
fn acknowledgement_tolerates_surrounding_white_space_only() {
    let a = new_id();
    let b = new_id();
    let line = format!("OK {} {}", text(a), text(b));

    assert!(validate_acknowledgement(&format!("  {line}\r\n"), a, b).is_ok());
    assert_eq!(
        validate_acknowledgement(&format!("OK  {} {}", text(a), text(b)), a, b),
        Err(ControlError::UnexpectedResponse)
    );
    assert_eq!(
        validate_done_acknowledgement(&line, a, b),
        Err(ControlError::UnexpectedResponse)
    );
}
