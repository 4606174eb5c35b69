use std::cell::Cell;

use ribbit::fallback::{
    classify, cooldown, retry_after_secs, run_with_failover, threshold, CallError, FailKind,
    ProviderEntry, Stack, StackState, StackStates,
};

fn entry(id: &str) -> ProviderEntry {
    ProviderEntry {
        id: id.to_string(),
        label: id.to_string(),
        url: format!("https://example.test/{}", id),
        model: "m".to_string(),
        key_env: format!("KEY_{}", id),
    }
}

fn keyed(n: usize) -> Vec<String> {
    vec!["k".to_string(); n]
}

fn no_time() -> u64 {
    0
}

fn no_elapsed(_: usize) -> u64 {
    0
}

/// A clock that advances by `step` milliseconds on every reading.
fn ticking(step: u64) -> impl Fn(usize) -> u64 {
    let elapsed = Cell::new(0u64);
    move |_| {
        elapsed.set(elapsed.get() + step);
        elapsed.get()
    }
}

const SEC: u64 = 1000;

#[test]
fn classify_transient_switches() {
    assert_eq!(classify(Some(429), false), FailKind::Switch);
    assert_eq!(classify(Some(500), false), FailKind::Switch);
    assert_eq!(classify(Some(503), false), FailKind::Switch);
    assert_eq!(classify(None, true), FailKind::Switch);
    assert_eq!(classify(None, false), FailKind::Switch);
}

#[test]
fn classify_hard_does_not_switch() {
    assert_eq!(classify(Some(400), false), FailKind::Hard);
    assert_eq!(classify(Some(401), false), FailKind::Hard);
    assert_eq!(classify(Some(403), false), FailKind::Hard);
    assert_eq!(classify(Some(404), false), FailKind::Hard);
    assert_eq!(classify(Some(200), false), FailKind::Hard);
}

#[test]
fn advances_only_after_threshold_consecutive() {
    let mut st = StackState::new();
    let now = 1_000;
    assert!(!st.record_switch_fail(now, 3, 2, None));
    assert_eq!(st.active, 0);
    assert!(st.record_switch_fail(now, 3, 2, None));
    assert_eq!(st.active, 1);
    assert_eq!(st.consec_fail, 0);
}

#[test]
fn success_resets_tally() {
    let mut st = StackState::new();
    let now = 1_000;
    st.record_switch_fail(now, 3, 2, None);
    st.record_success();
    assert!(!st.record_switch_fail(now, 3, 2, None));
    assert_eq!(st.active, 0);
}

#[test]
fn chains_through_entries() {
    let mut st = StackState::new();
    let now = 1_000;
    st.record_switch_fail(now, 3, 1, None);
    assert_eq!(st.active, 1);
    st.record_switch_fail(now, 3, 1, None);
    assert_eq!(st.active, 2);
    assert!(!st.record_switch_fail(now, 3, 1, None));
    assert_eq!(st.active, 2);
}

#[test]
fn cooldown_resets_to_primary() {
    let mut st = StackState::new();
    let now = 1_000;
    st.record_switch_fail(now, 2, 1, None);
    assert_eq!(st.active, 1);
    st.maybe_reset(now + 30 * SEC, 60 * SEC);
    assert_eq!(st.active, 1);
    st.maybe_reset(now + 61 * SEC, 60 * SEC);
    assert_eq!(st.active, 0);
    assert_eq!(st.consec_fail, 0);
    assert!(st.switched_at.is_none());
}

#[test]
fn a_providers_own_retry_after_outranks_the_cooldown() {
    let mut st = StackState::new();
    let now = 1_000;
    let day_left = 34421 * SEC;
    st.record_switch_fail(now, 2, 1, Some(day_left));
    st.maybe_reset(now + 1800 * SEC, 1800 * SEC);
    assert_eq!(st.active, 1, "cooldown must not override the provider's own wait");
    st.maybe_reset(now + day_left, 1800 * SEC);
    assert_eq!(st.active, 0, "back to primary once the provider's wait is over");
}

#[test]
fn a_short_retry_after_never_shortens_the_cooldown() {
    let mut st = StackState::new();
    let now = 1_000;
    st.record_switch_fail(now, 2, 1, Some(5 * SEC));
    st.maybe_reset(now + 10 * SEC, 1800 * SEC);
    assert_eq!(st.active, 1);
}

#[test]
fn primary_never_cooldown_resets() {
    let mut st = StackState::new();
    let now = 1_000;
    st.maybe_reset(now + 9999 * SEC, 60 * SEC);
    assert_eq!(st.active, 0);
}

#[test]
fn threshold_and_cooldown_clamped() {
    assert_eq!(threshold(None), 2);
    assert_eq!(threshold(Some(0)), 1);
    assert_eq!(cooldown(None), 3600 * SEC);
    assert_eq!(cooldown(Some(5)), 300 * SEC);
}

#[test]
fn threshold_and_cooldown_upper_bounds() {
    assert_eq!(threshold(Some(1000)), 100);
    assert_eq!(threshold(Some(7)), 7);
    assert_eq!(cooldown(Some(100_000)), 1440 * 60 * SEC);
    assert_eq!(cooldown(Some(0)), 60 * SEC);
}

#[test]
fn retry_after_reads_seconds_and_caps_at_a_day() {
    assert_eq!(retry_after_secs("34421"), Some(34421 * SEC));
    assert_eq!(retry_after_secs(" 10 "), Some(10 * SEC));
    assert_eq!(retry_after_secs("+3"), Some(3 * SEC));
    assert_eq!(retry_after_secs("999999"), Some(86_400 * SEC));
    assert_eq!(retry_after_secs("Wed, 21 Oct 2015 07:28:00 GMT"), None);
    assert_eq!(retry_after_secs(""), None);
    assert_eq!(retry_after_secs("-5"), None);
}

#[test]
fn constructors_carry_their_reasons() {
    let e = CallError::http(429, "x".to_string(), Some(5));
    assert_eq!(e.reason, "rate limit / free tier");
    assert_eq!(e.kind, FailKind::Switch);
    assert_eq!(e.retry_after, Some(5));
    assert_eq!(CallError::http(503, String::new(), None).reason, "provider is down");
    assert_eq!(CallError::http(401, String::new(), None).reason, "key rejected");
    assert_eq!(CallError::http(403, String::new(), None).reason, "key rejected");
    assert_eq!(CallError::http(404, String::new(), None).reason, "model or url not found");
    assert_eq!(CallError::http(400, String::new(), None).reason, "request rejected");
    assert_eq!(CallError::http(418, String::new(), None).reason, "call failed");
    assert_eq!(CallError::transport(true, String::new()).reason, "timed out");
    assert_eq!(CallError::transport(false, String::new()).reason, "provider unreachable");
    let r = CallError::rejected("no".to_string());
    assert_eq!((r.status, r.kind, r.reason), (Some(200), FailKind::Hard, "reply unusable"));
    let n = CallError::no_answer("no".to_string());
    assert_eq!((n.status, n.kind, n.reason), (Some(200), FailKind::Switch, "reply incomplete"));
    let k = CallError::no_key("none".to_string());
    assert_eq!((k.kind, k.reason), (FailKind::Hard, "no key set"));
}

#[test]
fn stack_names_and_config_keys() {
    assert_eq!(Stack::Audio.config_key(), "audio_providers");
    assert_eq!(Stack::Text.config_key(), "text_providers");
    assert_eq!(Stack::Audio.name(), "audio");
    assert_eq!(Stack::Text.name(), "text");
}

#[test]
fn failover_success_on_start_entry() {
    let mut states = StackStates::new();
    let entries = [entry("a"), entry("b")];
    let out = run_with_failover(&mut states, Stack::Audio, &entries, &keyed(2), 0, 2, None, no_time, no_elapsed, |e, _| {
        Ok::<_, CallError>(e.id.clone())
    })
    .unwrap();
    assert_eq!(out, ("a".to_string(), 0));
    assert_eq!(states.audio.consec_fail, 0);
}

#[test]
fn failover_transient_rescued_by_next_entry_same_request() {
    let mut states = StackStates::new();
    let entries = [entry("a"), entry("b")];
    let keys = keyed(2);
    let call = |e: &ProviderEntry, _: &String| {
        if e.id == "a" {
            Err(CallError::http(429, "rate limited".into(), None))
        } else {
            Ok(e.id.clone())
        }
    };
    let start = states.audio.active;
    assert_eq!(
        run_with_failover(&mut states, Stack::Audio, &entries, &keys, start, 2, None, no_time, no_elapsed, call).unwrap(),
        ("b".to_string(), 1)
    );
    assert_eq!(states.audio.active, 0);
    let start = states.audio.active;
    assert_eq!(
        run_with_failover(&mut states, Stack::Audio, &entries, &keys, start, 2, None, no_time, no_elapsed, call).unwrap(),
        ("b".to_string(), 1)
    );
    assert_eq!(states.audio.active, 1);
    let start = states.audio.active;
    assert_eq!(
        run_with_failover(&mut states, Stack::Audio, &entries, &keys, start, 2, None, no_time, no_elapsed, call).unwrap(),
        ("b".to_string(), 1)
    );
    assert_eq!(states.audio.consec_fail, 0);
}

#[test]
fn failover_hard_error_stops_walk() {
    let mut states = StackStates::new();
    let entries = [entry("a"), entry("b")];
    let calls = Cell::new(0);
    let out = run_with_failover(&mut states, Stack::Text, &entries, &keyed(2), 0, 2, None, no_time, no_elapsed, |_, _| {
        calls.set(calls.get() + 1);
        Err::<String, _>(CallError::http(401, "bad key".into(), None))
    });
    assert_eq!(out.as_ref().unwrap_err().message, "bad key");
    assert_eq!(out.unwrap_err().reason, "key rejected");
    assert_eq!(calls.get(), 1, "hard error must not try further entries");
    assert_eq!(states.text.consec_fail, 0, "hard errors never feed the switch tally");
}

#[test]
fn failover_skips_entries_without_key() {
    let mut states = StackStates::new();
    let entries = [entry("a"), entry("b")];
    let keys = vec![String::new(), "k".to_string()];
    let out = run_with_failover(&mut states, Stack::Audio, &entries, &keys, 0, 2, None, no_time, no_elapsed, |e, _| {
        Ok::<_, CallError>(e.id.clone())
    })
    .unwrap();
    assert_eq!(out, ("b".to_string(), 1));
    assert_eq!(states.audio.consec_fail, 0, "a key-less skip is not a failure");
}

#[test]
fn failover_no_keys_at_all_is_actionable_error() {
    let mut states = StackStates::new();
    let entries = [entry("a")];
    let keys = vec![String::new()];
    let out = run_with_failover(&mut states, Stack::Audio, &entries, &keys, 0, 2, None, no_time, no_elapsed, |_, _| {
        Ok::<_, CallError>(String::new())
    });
    let err = out.unwrap_err();
    assert!(err.message.contains("no API key"));
    assert_eq!(err.reason, "no key set");
}

#[test]
fn failover_budget_stops_the_walk() {
    let mut states = StackStates::new();
    let entries = [entry("a"), entry("b"), entry("c")];
    let calls = Cell::new(0);
    let out = run_with_failover(
        &mut states,
        Stack::Text,
        &entries,
        &keyed(3),
        0,
        5,
        Some(8 * SEC),
        no_time,
        ticking(5 * SEC),
        |_, _| {
            calls.set(calls.get() + 1);
            Err::<String, _>(CallError::transport(true, "timeout".into()))
        },
    );
    let err = out.unwrap_err();
    assert_eq!(err.message, "timeout");
    assert_eq!(err.reason, "timed out");
    assert_eq!(calls.get(), 2, "third entry starts past the budget and must be skipped");
}

#[test]
fn shipped_budget_lets_an_unreachable_stack_reach_its_last_rung() {
    let mut states = StackStates::new();
    let entries = [entry("a"), entry("b"), entry("c")];
    let calls = Cell::new(0);
    let out = run_with_failover(
        &mut states,
        Stack::Text,
        &entries,
        &keyed(3),
        0,
        5,
        Some(ribbit::postprocess::STACK_BUDGET_SECS * SEC),
        no_time,
        ticking(ribbit::postprocess::CONNECT_TIMEOUT_SECS * SEC),
        |e, _| {
            calls.set(calls.get() + 1);
            if e.id == "c" {
                Ok(e.id.clone())
            } else {
                Err(CallError::transport(false, "connect".into()))
            }
        },
    );
    assert_eq!(out.unwrap(), ("c".to_string(), 2));
    assert_eq!(calls.get(), 3, "the last rung must still get its turn on a stack that fails to connect");
}

#[test]
fn an_answerless_reply_hands_the_turn_to_the_next_provider() {
    let mut states = StackStates::new();
    let entries = [entry("a"), entry("b")];
    let out = run_with_failover(&mut states, Stack::Text, &entries, &keyed(2), 0, 2, None, no_time, no_elapsed, |e, _| {
        if e.id == "a" {
            Err(CallError::no_answer("output truncated (finish_reason=length)".into()))
        } else {
            Ok(e.id.clone())
        }
    });
    assert_eq!(out.unwrap(), ("b".to_string(), 1));
}

#[test]
fn a_refused_answer_is_final_and_does_not_walk_on() {
    let mut states = StackStates::new();
    let entries = [entry("a"), entry("b")];
    let calls = Cell::new(0);
    let out = run_with_failover(&mut states, Stack::Text, &entries, &keyed(2), 0, 2, None, no_time, no_elapsed, |_, _| {
        calls.set(calls.get() + 1);
        Err::<String, _>(CallError::rejected("answer 4x the input".into()))
    });
    assert_eq!(out.unwrap_err().reason, "reply unusable");
    assert_eq!(calls.get(), 1, "a refused answer must not cost the user a second provider");
}

#[test]
fn failover_budget_never_skips_the_starting_entry() {
    let mut states = StackStates::new();
    let entries = [entry("a"), entry("b")];
    let calls = Cell::new(0);
    let out = run_with_failover(
        &mut states,
        Stack::Text,
        &entries,
        &keyed(2),
        0,
        5,
        Some(0),
        no_time,
        ticking(5 * SEC),
        |e, _| {
            calls.set(calls.get() + 1);
            Ok::<_, CallError>(e.id.clone())
        },
    );
    assert_eq!(out.unwrap(), ("a".to_string(), 0));
    assert_eq!(calls.get(), 1);
}

#[test]
fn failover_deep_failure_does_not_feed_sticky_tally() {
    let mut states = StackStates::new();
    let entries = [entry("a"), entry("b")];
    let out = run_with_failover(&mut states, Stack::Audio, &entries, &keyed(2), 0, 5, None, no_time, no_elapsed, |_, _| {
        Err::<String, _>(CallError::transport(true, "timeout".into()))
    });
    assert_eq!(out.unwrap_err().message, "timeout");
    assert_eq!(states.audio.consec_fail, 1);
}

#[test]
fn active_index_applies_the_cooldown_and_snapshot_reports_the_switch() {
    let mut states = StackStates::new();
    assert_eq!(ribbit::fallback::snapshot(&states, Stack::Text, 0), None);
    states.text.record_switch_fail(1_000, 2, 1, None);
    assert_eq!(ribbit::fallback::snapshot(&states, Stack::Text, 4_000), Some((1, 3_000)));
    assert_eq!(ribbit::fallback::active_index(&mut states, Stack::Text, 2_000, 60 * SEC), 1);
    assert_eq!(ribbit::fallback::active_index(&mut states, Stack::Text, 61_000 + 1_000, 60 * SEC), 0);
    assert_eq!(states.audio, StackStates::new().audio);
}
