use redfoxtool::attempt::{is_slow_response, AttemptOutcome, RetryStep, RetryTracker};
use redfoxtool::classify::{classify, classify_lowered, keyword_score_verdict, redirect_location_accepted};

#[test]
fn classify_is_repeatable() {
    let a = classify(401, None, Some("Welcome home, invalid"));
    let b = classify(401, None, Some("Welcome home, invalid"));
    assert_eq!(a, b);
    assert!(a);
}

#[test]
fn status_200_wins_over_body() {
    assert!(classify(200, None, Some("access denied")));
    assert!(classify(204, Some("/login"), None));
    assert!(classify(299, None, None));
}

#[test]
fn redirect_to_dashboard_succeeds_and_to_login_fails() {
    assert!(classify(302, Some("/dashboard"), None));
    assert!(!classify(302, Some("/login?error=1"), None));
    assert!(!classify(301, Some("/auth/fail"), Some("welcome")));
    assert!(!classify(303, Some("/error"), None));
}

#[test]
fn redirect_marker_match_is_case_sensitive() {
    assert!(classify(302, Some("/LOGIN"), None));
    assert!(redirect_location_accepted("/Home"));
    assert!(!redirect_location_accepted("/relogin"));
}

#[test]
fn redirect_without_location_falls_back_to_body() {
    assert!(classify(302, None, Some("Welcome to your dashboard")));
    assert!(!classify(302, None, None));
}

#[test]
fn keyword_tie_is_failure() {
    assert!(!classify(401, None, Some("welcome back, logged in; invalid credentials, error")));
    assert!(!classify(401, None, Some("nothing here")));
}

#[test]
fn keyword_majority_of_success_words_succeeds() {
    assert!(classify(401, None, Some("Welcome HOME, Logout now. Wrong?")));
    assert!(classify_lowered(500, None, Some("profile profile profile error")));
}

#[test]
fn keyword_counts_are_non_overlapping_and_summed() {
    // "login failed" counts once for itself and "failed" once more: 2 failure words.
    assert!(!keyword_score_verdict("login failed welcome"));
    assert!(!keyword_score_verdict("login failed welcome home"));
    assert!(keyword_score_verdict("login failed welcome home logout"));
    // "homehome" holds two non-overlapping "home".
    assert!(keyword_score_verdict("homehome wrong"));
}

#[test]
fn undecodable_body_is_failure() {
    assert!(!classify(500, None, None));
    assert!(!classify(404, Some("/dashboard"), None));
}

#[test]
fn lowercasing_is_applied_to_the_body_only() {
    assert!(classify(403, None, Some("WELCOME")));
    assert!(!classify_lowered(403, None, Some("WELCOME")));
}

#[test]
fn transport_that_always_fails_gets_four_tries() {
    let mut t = RetryTracker::standard();
    let mut sends = 1;
    let mut delays = Vec::new();
    loop {
        match t.record_failure(format!("connection refused #{}", sends)) {
            RetryStep::RetryAfter { delay_ms } => {
                delays.push(delay_ms);
                sends += 1;
            }
            RetryStep::Exhausted => break,
        }
    }
    assert_eq!(sends, 4);
    assert_eq!(delays, vec![200, 400, 600]);
    assert!(t.is_exhausted());
    assert_eq!(t.failures(), 4);
    match t.into_failure(1234) {
        AttemptOutcome::TransportFailed { error, elapsed_ms } => {
            assert_eq!(error, "connection refused #4");
            assert_eq!(elapsed_ms, 1234);
        }
        other => panic!("unexpected {:?}", other),
    }
}

#[test]
fn zero_retry_budget_gives_up_at_once() {
    let mut t = RetryTracker::new(0);
    assert_eq!(t.record_failure("x".to_string()), RetryStep::Exhausted);
}

#[test]
fn responded_outcome_carries_verdict() {
    match AttemptOutcome::responded(401, None, Some("Welcome, logged in"), 77) {
        AttemptOutcome::Responded { status, success, elapsed_ms } => {
            assert_eq!(status, 401);
            assert!(success);
            assert_eq!(elapsed_ms, 77);
        }
        other => panic!("unexpected {:?}", other),
    }
}

#[test]
fn slow_responses_are_flagged_past_five_seconds() {
    assert!(!is_slow_response(5000));
    assert!(is_slow_response(5001));
    assert!(!is_slow_response(0));
}
