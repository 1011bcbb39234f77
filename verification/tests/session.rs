use kwintool::session::{
    idle_expired, interpret_reply, name_request_step, next_wait, NameStep, Outcome,
    NO_WINDOW, SCRIPT_ERROR, TIMED_OUT,
};

#[test]
fn ok_reply_gives_the_trimmed_id_when_asked() {
    assert_eq!(
        interpret_reply(Some("OK  {abc-123} \n"), true, true, false),
        Outcome::Matched(Some("{abc-123}".to_string())),
    );
    assert_eq!(interpret_reply(Some("OK 42"), false, false, false), Outcome::Matched(None));
    assert_eq!(interpret_reply(Some("OK"), false, true, false), Outcome::Matched(None));
    assert_eq!(interpret_reply(Some("OK 7"), true, false, false).exit_code(), Some(0));
}

#[test]
fn not_found_launches_only_with_a_program() {
    assert_eq!(interpret_reply(Some("NotFound"), false, true, false), Outcome::Launch);
    assert_eq!(interpret_reply(Some("NotFound"), true, false, false), Outcome::NothingMatched);
    assert_eq!(Outcome::NothingMatched.exit_code(), Some(1));
    assert_eq!(Outcome::Launch.exit_code(), Some(0));
    // only the exact word counts
    assert_eq!(
        interpret_reply(Some("NotFoundX"), false, true, false),
        Outcome::Unexpected("NotFoundX".to_string()),
    );
}

#[test]
fn error_reply_relays_the_message() {
    let outcome = interpret_reply(Some("ERROR: : no such screen"), false, true, false);
    assert_eq!(outcome, Outcome::ScriptError("no such screen".to_string()));
    assert_eq!(outcome.exit_code(), Some(SCRIPT_ERROR));
    assert_eq!(interpret_reply(Some("ERROR"), false, true, false), Outcome::ScriptError(String::new()));
}

#[test]
fn missing_reply_is_a_timeout() {
    assert_eq!(interpret_reply(None, true, true, false), Outcome::TimedOut);
    assert_eq!(Outcome::TimedOut.exit_code(), Some(TIMED_OUT));
}

#[test]
fn other_replies_are_unexpected() {
    let outcome = interpret_reply(Some("ok 1"), false, true, false);
    assert_eq!(outcome, Outcome::Unexpected("ok 1".to_string()));
    assert_eq!(outcome.exit_code(), None);
}

#[test]
fn name_requests_are_retried_up_to_the_last_attempt() {
    assert_eq!(name_request_step(true, 1), NameStep::Acquired);
    assert_eq!(name_request_step(false, 1), NameStep::Retry);
    assert_eq!(name_request_step(false, 9), NameStep::Retry);
    assert_eq!(name_request_step(false, 10), NameStep::GiveUp);
    assert_eq!(name_request_step(true, 10), NameStep::Acquired);
}

#[test]
fn waits_are_capped_by_the_poll_interval() {
    assert_eq!(next_wait(false, 3000), Some(500));
    assert_eq!(next_wait(false, 120), Some(120));
    assert_eq!(next_wait(false, 0), None);
    assert_eq!(next_wait(true, 3000), None);
    assert!(!idle_expired(9999));
    assert!(idle_expired(10000));
}

#[test]
fn not_found_with_a_running_process_warns_instead_of_launching() {
    let outcome = interpret_reply(Some("NotFound"), false, true, true);
    assert_eq!(outcome, Outcome::RunningWithoutWindow);
    assert_eq!(outcome.exit_code(), Some(127));
    assert_eq!(NO_WINDOW, 127);
    // without a program there is nothing that could be running
    assert_eq!(interpret_reply(Some("NotFound"), false, false, true), Outcome::NothingMatched);
    // a running process does not change any other reply
    assert_eq!(interpret_reply(Some("OK 3"), false, true, true), Outcome::Matched(None));
    assert_eq!(interpret_reply(None, false, true, true), Outcome::TimedOut);
}

#[test]
fn bare_ok_gives_an_empty_id() {
    assert_eq!(
        interpret_reply(Some("OK"), true, true, false),
        Outcome::Matched(Some(String::new())),
    );
    assert_eq!(interpret_reply(Some("OK"), true, false, false).exit_code(), Some(0));
    // only a separator follows
    assert_eq!(
        interpret_reply(Some("OK "), true, true, false),
        Outcome::Matched(Some(String::new())),
    );
    assert_eq!(
        interpret_reply(Some("OK 42"), true, true, false),
        Outcome::Matched(Some("42".to_string())),
    );
}
