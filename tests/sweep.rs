use redfoxtool::attempt::AttemptOutcome;
use redfoxtool::precheck::{keep_successes, precheck_pairs};
use redfoxtool::request::{
    attack_mode_or_normal, parse_attack_mode, AttackMode, ConfigError, SweepConfig,
};
use redfoxtool::sweep::{
    user_chunks, CompletionStep, ScanResult, SweepAction, SweepEngine, AGGRESSIVE_RETRY_DELAY_MS,
    RESULT_CHANNEL_CAPACITY,
};

fn strings(v: &[&str]) -> Vec<String> {
    v.iter().map(|s| s.to_string()).collect()
}

fn ok_200() -> AttemptOutcome {
    AttemptOutcome::Responded { status: 200, success: true, elapsed_ms: 5 }
}

/// Runs a sweep to its end, answering every launch at once with `answer`;
/// returns the results, the largest number in flight and the pauses seen.
fn drive(
    engine: &mut SweepEngine,
    mut answer: impl FnMut(usize, u32) -> AttemptOutcome,
) -> (usize, Vec<u64>) {
    let mut pending: Vec<(usize, u32)> = Vec::new();
    let mut peak = 0;
    let mut pauses = Vec::new();
    loop {
        match engine.next_action() {
            SweepAction::Launch { index, pause_ms } => {
                pauses.push(pause_ms);
                pending.push((index, 1));
                peak = peak.max(engine.in_flight());
            }
            SweepAction::Wait => {
                let (index, tries) = pending.remove(0);
                assert!(engine.is_pending(index));
                match engine.complete(index, answer(index, tries), 42) {
                    CompletionStep::Recorded => {}
                    CompletionStep::RetryAfter { delay_ms } => {
                        assert_eq!(delay_ms, AGGRESSIVE_RETRY_DELAY_MS);
                        pending.push((index, tries + 1));
                    }
                }
            }
            SweepAction::Finished => break,
        }
    }
    (peak, pauses)
}

fn config(mode: AttackMode, workers: usize) -> SweepConfig {
    SweepConfig::new("http://target.test/login", workers, 30, mode)
}

#[test]
fn normal_sweep_of_six_pairs_all_succeed() {
    let cfg = config(AttackMode::Normal, 10);
    let mut e = SweepEngine::new(&cfg, strings(&["alice", "bob"]), strings(&["a", "b", "c"])).unwrap();
    assert_eq!(e.total(), 6);
    let (peak, pauses) = drive(&mut e, |_, _| ok_200());
    assert_eq!(peak, 6);
    assert!(pauses.iter().all(|p| *p == 0));
    let results = e.into_results();
    assert_eq!(results.len(), 6);
    assert!(results.iter().all(|r| r.success && r.status_code == 200 && r.error.is_none()));
    assert!(results.len() <= RESULT_CHANNEL_CAPACITY);
    let mut pairs: Vec<(String, String)> =
        results.iter().map(|r| (r.username.clone(), r.password.clone())).collect();
    pairs.sort();
    assert_eq!(
        pairs,
        vec![
            ("alice".to_string(), "a".to_string()),
            ("alice".to_string(), "b".to_string()),
            ("alice".to_string(), "c".to_string()),
            ("bob".to_string(), "a".to_string()),
            ("bob".to_string(), "b".to_string()),
            ("bob".to_string(), "c".to_string()),
        ]
    );
}

#[test]
fn every_strategy_yields_one_result_per_pair() {
    for mode in [AttackMode::Fast, AttackMode::Normal, AttackMode::Stealth, AttackMode::Aggressive] {
        let cfg = config(mode, 3);
        let mut e = SweepEngine::new(&cfg, strings(&["u1", "u2", "u3", "u4"]), strings(&["pa", "pb"])).unwrap();
        drive(&mut e, |i, _| {
            if i % 2 == 0 {
                ok_200()
            } else {
                AttemptOutcome::TransportFailed { error: "timeout".to_string(), elapsed_ms: 9 }
            }
        });
        assert_eq!(e.completed(), 8);
        assert_eq!(e.in_flight(), 0);
        let results = e.results();
        assert_eq!(results.iter().filter(|r| r.success).count(), 4);
        let failed: Vec<&ScanResult> = results.iter().filter(|r| !r.success).collect();
        assert!(failed.iter().all(|r| r.status_code == 0 && r.error.as_deref() == Some("timeout")));
    }
}

#[test]
fn stealth_runs_one_at_a_time_with_a_pause_before_each() {
    let mut cfg = config(AttackMode::Stealth, 8);
    cfg.stealth_delay_ms = 250;
    let mut e = SweepEngine::new(&cfg, strings(&["a", "b"]), strings(&["1", "2", "3"])).unwrap();
    let (peak, pauses) = drive(&mut e, |_, _| ok_200());
    assert_eq!(peak, 1);
    assert_eq!(pauses.len(), 6);
    assert_eq!(pauses.iter().sum::<u64>(), 6 * 250);
}

#[test]
fn fast_never_exceeds_worker_budget() {
    let cfg = config(AttackMode::Fast, 3);
    let users: Vec<String> = (0..10).map(|i| format!("user{}", i)).collect();
    let mut e = SweepEngine::new(&cfg, users, strings(&["x", "y"])).unwrap();
    let (peak, _) = drive(&mut e, |_, _| ok_200());
    assert_eq!(peak, 3);
    assert_eq!(e.completed(), 20);
}

#[test]
fn fast_concurrency_is_bounded_by_chunk_count_too() {
    // 2 usernames over 5 workers: chunks of 1, so 2 chunks and 2 in flight at most.
    let cfg = config(AttackMode::Fast, 5);
    let mut e = SweepEngine::new(&cfg, strings(&["a", "b"]), strings(&["1", "2", "3"])).unwrap();
    let (peak, _) = drive(&mut e, |_, _| ok_200());
    assert_eq!(peak, 2);
}

#[test]
fn fast_runs_each_chunk_one_pair_at_a_time() {
    // 4 usernames over 2 workers: chunks {u0, u1} and {u2, u3}, each with 3 passwords.
    let cfg = config(AttackMode::Fast, 2);
    let mut e = SweepEngine::new(&cfg, strings(&["u0", "u1", "u2", "u3"]), strings(&["a", "b", "c"])).unwrap();
    assert_eq!((0..12).map(|i| e.lane_of(i)).collect::<Vec<_>>(), vec![0, 0, 0, 0, 0, 0, 1, 1, 1, 1, 1, 1]);
    let mut in_flight: Vec<usize> = Vec::new();
    let mut order_per_lane: Vec<Vec<usize>> = vec![Vec::new(), Vec::new()];
    loop {
        match e.next_action() {
            SweepAction::Launch { index, .. } => {
                let lane = e.lane_of(index);
                assert!(in_flight.iter().all(|j| e.lane_of(*j) != lane));
                order_per_lane[lane].push(index);
                in_flight.push(index);
            }
            SweepAction::Wait => {
                let index = in_flight.remove(0);
                e.complete(index, ok_200(), 0);
            }
            SweepAction::Finished => break,
        }
    }
    assert_eq!(order_per_lane, vec![vec![0, 1, 2, 3, 4, 5], vec![6, 7, 8, 9, 10, 11]]);
    assert_eq!(e.completed(), 12);
}

#[test]
fn other_strategies_launch_pairs_in_order() {
    for mode in [AttackMode::Normal, AttackMode::Stealth, AttackMode::Aggressive] {
        let cfg = config(mode, 2);
        let mut e = SweepEngine::new(&cfg, strings(&["x", "y"]), strings(&["1", "2"])).unwrap();
        let mut launched = Vec::new();
        let mut in_flight = Vec::new();
        loop {
            match e.next_action() {
                SweepAction::Launch { index, .. } => {
                    launched.push(index);
                    in_flight.push(index);
                }
                SweepAction::Wait => {
                    let index = in_flight.remove(0);
                    e.complete(index, ok_200(), 0);
                }
                SweepAction::Finished => break,
            }
        }
        assert_eq!(launched, vec![0, 1, 2, 3]);
    }
}

#[test]
fn aggressive_retries_a_failing_pair_three_times_then_records_it_once() {
    let cfg = config(AttackMode::Aggressive, 2);
    let mut e = SweepEngine::new(&cfg, strings(&["a"]), strings(&["1", "2"])).unwrap();
    let mut tries_seen = Vec::new();
    drive(&mut e, |i, tries| {
        tries_seen.push((i, tries));
        if i == 0 && tries < 3 {
            AttemptOutcome::TransportFailed { error: format!("reset {}", tries), elapsed_ms: 1 }
        } else if i == 1 {
            AttemptOutcome::TransportFailed { error: format!("refused {}", tries), elapsed_ms: 1 }
        } else {
            ok_200()
        }
    });
    let results = e.into_results();
    assert_eq!(results.len(), 2);
    let first = results.iter().find(|r| r.password == "1").unwrap();
    assert!(first.success);
    let second = results.iter().find(|r| r.password == "2").unwrap();
    assert!(!second.success);
    assert_eq!(second.error.as_deref(), Some("refused 3"));
    assert_eq!(tries_seen.iter().filter(|(i, _)| *i == 1).count(), 3);
}

#[test]
fn other_strategies_do_not_retry_pairs() {
    let cfg = config(AttackMode::Normal, 2);
    let mut e = SweepEngine::new(&cfg, strings(&["a"]), strings(&["1"])).unwrap();
    match e.next_action() {
        SweepAction::Launch { index, pause_ms } => {
            assert_eq!((index, pause_ms), (0, 0));
            let step = e.complete(index, AttemptOutcome::TransportFailed { error: "e".into(), elapsed_ms: 0 }, 1);
            assert_eq!(step, CompletionStep::Recorded);
        }
        other => panic!("unexpected {:?}", other),
    }
    assert_eq!(e.next_action(), SweepAction::Finished);
    assert_eq!(e.results()[0].timestamp_ms, 1);
}

#[test]
fn pair_indices_run_username_by_username() {
    let cfg = config(AttackMode::Normal, 1);
    let e = SweepEngine::new(&cfg, strings(&["u", "v"]), strings(&["1", "2", "3"])).unwrap();
    assert_eq!(e.pair(0), ("u".to_string(), "1".to_string()));
    assert_eq!(e.pair(4), ("v".to_string(), "2".to_string()));
    assert!(!e.is_pending(0));
}

#[test]
fn configuration_errors_stop_the_sweep() {
    let users = strings(&["a"]);
    let pw = strings(&["b"]);
    let mut cfg = config(AttackMode::Normal, 4);
    cfg.proxy = Some("http://[::1".to_string());
    assert!(matches!(SweepEngine::new(&cfg, users.clone(), pw.clone()), Err(ConfigError::InvalidProxy)));
    cfg.proxy = Some("http://127.0.0.1:8080".to_string());
    cfg.set_cookies("session=1\nx");
    assert!(matches!(SweepEngine::new(&cfg, users.clone(), pw.clone()), Err(ConfigError::InvalidCookie)));
    cfg.set_cookies("session=1; theme=dark");
    assert!(matches!(SweepEngine::new(&cfg, Vec::new(), pw.clone()), Err(ConfigError::NoUsernames)));
    assert!(matches!(SweepEngine::new(&cfg, users.clone(), Vec::new()), Err(ConfigError::NoPasswords)));
    cfg.max_workers = 0;
    assert!(matches!(SweepEngine::new(&cfg, users.clone(), pw.clone()), Err(ConfigError::NoWorkers)));
    cfg.max_workers = 1;
    assert!(SweepEngine::new(&cfg, users, pw).is_ok());
}

#[test]
fn request_headers_end_with_the_cookie() {
    let mut cfg = config(AttackMode::Normal, 1);
    cfg.extra_headers.push(("X-Test".to_string(), "1".to_string()));
    cfg.set_cookies("sid=abc");
    let h = cfg.request_headers().unwrap();
    assert_eq!(h.len(), 9);
    assert_eq!(h[0].0, "User-Agent");
    assert_eq!(h[7], ("X-Test".to_string(), "1".to_string()));
    assert_eq!(h[8], ("Cookie".to_string(), "sid=abc".to_string()));
    cfg.set_cookies("bad\u{7f}");
    assert_eq!(cfg.request_headers(), Err(ConfigError::InvalidCookie));
    cfg.cookie = None;
    assert_eq!(cfg.request_headers().unwrap().len(), 8);
}

#[test]
fn form_fields_use_configured_names() {
    let mut cfg = config(AttackMode::Normal, 1);
    cfg.username_field = "user".to_string();
    let f = cfg.form_fields("root", "toor");
    assert_eq!(
        f,
        vec![
            ("user".to_string(), "root".to_string()),
            ("password".to_string(), "toor".to_string()),
            ("submit".to_string(), "Login".to_string()),
            ("csrf_token".to_string(), "test".to_string()),
        ]
    );
}

#[test]
fn strategy_names_in_any_case() {
    assert_eq!(parse_attack_mode("FAST"), Ok(AttackMode::Fast));
    assert_eq!(parse_attack_mode("Stealth"), Ok(AttackMode::Stealth));
    assert_eq!(parse_attack_mode("aggressive"), Ok(AttackMode::Aggressive));
    assert_eq!(parse_attack_mode("normal"), Ok(AttackMode::Normal));
    assert_eq!(parse_attack_mode("turbo"), Err("invalid mode: turbo".to_string()));
    assert_eq!(attack_mode_or_normal("turbo"), AttackMode::Normal);
    assert_eq!(attack_mode_or_normal("FaSt"), AttackMode::Fast);
    assert_eq!("stealth".parse::<AttackMode>(), Ok(AttackMode::Stealth));
}

#[test]
fn usernames_are_cut_into_worker_chunks() {
    let users: Vec<String> = (0..10).map(|i| i.to_string()).collect();
    let chunks = user_chunks(&users, 4);
    assert_eq!(chunks.iter().map(|c| c.len()).collect::<Vec<_>>(), vec![3, 3, 3, 1]);
    assert_eq!(chunks.concat(), users);
    let few = strings(&["a", "b", "c"]);
    assert_eq!(user_chunks(&few, 5).len(), 3);
    assert_eq!(user_chunks(&strings(&["a", "b", "c", "d", "e", "f", "g"]), 2).iter().map(|c| c.len()).collect::<Vec<_>>(), vec![4, 3]);
    assert!(user_chunks(&Vec::new(), 3).is_empty());
}

#[test]
fn precheck_tries_common_pairs_that_were_given() {
    let users = strings(&["root", "bob", "admin"]);
    let pw = strings(&["x", "password", "admin"]);
    assert_eq!(
        precheck_pairs(&users, &pw),
        vec![
            ("admin".to_string(), "admin".to_string()),
            ("admin".to_string(), "password".to_string()),
            ("root".to_string(), "admin".to_string()),
            ("root".to_string(), "password".to_string()),
        ]
    );
    assert!(precheck_pairs(&strings(&["bob"]), &pw).is_empty());
}

#[test]
fn precheck_keeps_only_successes() {
    let ok = ScanResult::from_outcome("admin", "admin", &ok_200(), 1);
    let bad = ScanResult::from_outcome(
        "root",
        "x",
        &AttemptOutcome::Responded { status: 401, success: false, elapsed_ms: 3 },
        2,
    );
    let kept = keep_successes(&vec![bad.clone(), ok.clone(), bad]);
    assert_eq!(kept.len(), 1);
    assert_eq!(kept[0].username, "admin");
}

#[test]
fn scan_results_keep_status_zero_for_transport_failures() {
    let ok = ScanResult::from_outcome("u", "p", &ok_200(), 7);
    assert_eq!((ok.status_code, ok.error.is_none(), ok.timestamp_ms, ok.response_time_ms), (200, true, 7, 5));
    let c = ok.copy();
    assert_eq!(c.username, "u");
    let failed = ScanResult::from_outcome(
        "u",
        "p",
        &AttemptOutcome::TransportFailed { error: "reset".to_string(), elapsed_ms: 1 },
        8,
    );
    assert_eq!((failed.status_code, failed.success, failed.error.as_deref()), (0, false, Some("reset")));
    assert!(!AttemptOutcome::Responded { status: 0, success: true, elapsed_ms: 0 }.is_well_formed());
    assert!(AttemptOutcome::responded(999, None, None, 0).is_well_formed());
}

#[test]
fn empty_credential_source_stops_the_sweep() {
    let cfg = config(AttackMode::Normal, 2);
    let users = redfoxtool::parse::parse_inline("");
    assert!(users.is_empty());
    assert!(matches!(SweepEngine::new(&cfg, users, strings(&["a"])), Err(ConfigError::NoUsernames)));
    let passwords = redfoxtool::parse::parse_inline(" \t ");
    assert!(matches!(SweepEngine::new(&cfg, strings(&["a"]), passwords), Err(ConfigError::NoPasswords)));
    assert!(matches!(
        SweepEngine::new(&cfg, strings(&["a"]), redfoxtool::parse::parse_inline(" , ")),
        Err(ConfigError::NoPasswords)
    ));
}
