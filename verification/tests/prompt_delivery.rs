use chrono::{DateTime, TimeDelta, Utc};
use dot_agent_deck::prompt_delivery::{
    attempt_delivery_id, confirmation_floor, log_prompt_abandoned, log_prompt_confirmed,
    log_prompt_unconfirmable, log_prompt_unconfirmed, log_prompt_written, mint_delivery_id,
    prompt_submission_matches, truncate_on_char_boundary, unconfirmed_retry_delay, DeliveryIds,
    LogDetail, LogLevel, Timestamp, AUTOMATIC_PROMPT_DEADLINE_MS, FIRST_SECOND, LAST_SECOND,
    USER_PROMPT_MAX_LEN,
};
use std::time::Duration;

fn timestamp(at: DateTime<Utc>) -> Timestamp {
    Timestamp {
        secs: at.timestamp(),
        nanos: at.timestamp_subsec_nanos(),
    }
}

fn moment(at: Timestamp) -> DateTime<Utc> {
    DateTime::from_timestamp(at.secs, at.nanos).unwrap()
}

fn delay(attempts: u32) -> Duration {
    Duration::from_millis(unconfirmed_retry_delay(attempts))
}

#[test]
fn short_prompt_matches_verbatim() {
    assert!(prompt_submission_matches("hello there", "hello there"));
    assert!(!prompt_submission_matches("hello there", "hello world"));
}

#[test]
fn trailing_whitespace_is_not_a_mismatch() {
    assert!(prompt_submission_matches("do the thing\n", "do the thing"));
}

#[test]
fn long_prompt_matches_its_truncated_report() {
    let long = "x".repeat(USER_PROMPT_MAX_LEN + 40);
    let reported = truncate_on_char_boundary(&long, USER_PROMPT_MAX_LEN);
    assert_ne!(reported, long, "the fixture must actually be truncated");
    assert!(prompt_submission_matches(&long, &reported));
    assert!(!prompt_submission_matches(&long, &"y".repeat(50)));
}

#[test]
fn truncation_never_splits_a_multibyte_char() {
    // 'é' is 2 bytes, so byte 200 lands mid-character.
    let s = format!("{}é{}", "a".repeat(199), "b".repeat(60));
    let cut = truncate_on_char_boundary(&s, USER_PROMPT_MAX_LEN);
    assert_eq!(cut, format!("{}…", "a".repeat(199)));
    assert!(prompt_submission_matches(&s, &cut));
}

#[test]
fn unconfirmed_backoff_escalates_then_caps() {
    assert_eq!(delay(1), Duration::from_millis(500));
    assert_eq!(delay(2), Duration::from_secs(1));
    assert_eq!(delay(3), Duration::from_secs(2));
    assert_eq!(delay(5), Duration::from_secs(8));
    assert_eq!(delay(9), Duration::from_secs(15));
    // The whole deadline window is covered in single-digit attempts.
    let mut total = Duration::ZERO;
    let mut attempts = 0u32;
    while total < Duration::from_millis(AUTOMATIC_PROMPT_DEADLINE_MS) {
        attempts += 1;
        total += delay(attempts);
    }
    assert!(
        attempts <= 9,
        "{attempts} submissions to cover the deadline"
    );
}

#[test]
fn attempt_ids_are_distinct_per_attempt_and_share_their_logical_id() {
    let mut ids = DeliveryIds { nonce: 7, next: 0 };
    let logical = mint_delivery_id(&mut ids, "pane-7");
    let first = attempt_delivery_id(&logical, 1);
    let second = attempt_delivery_id(&logical, 2);
    assert_ne!(first, second, "each attempt must be a new ledger identity");
    assert!(first.starts_with(&logical) && second.starts_with(&logical));
}

#[test]
fn minted_delivery_ids_are_unique() {
    let mut ids = DeliveryIds { nonce: 7, next: 0 };
    let a = mint_delivery_id(&mut ids, "pane-1");
    let b = mint_delivery_id(&mut ids, "pane-1");
    assert_ne!(a, b);
}

#[test]
fn confirmation_floor_precedes_the_write() {
    let now = Utc::now();
    assert!(moment(confirmation_floor(timestamp(now))) < now);
}

#[test]
fn the_floor_lies_five_seconds_before_the_write() {
    let at = DateTime::from_timestamp(1_431_648_000, 250).unwrap();
    assert_eq!(
        moment(confirmation_floor(timestamp(at))),
        at - TimeDelta::seconds(5)
    );
    let before_the_epoch = Timestamp { secs: 2, nanos: 7 };
    assert_eq!(
        confirmation_floor(before_the_epoch),
        Timestamp { secs: -3, nanos: 7 }
    );
    // A leap second is counted, and then gone.
    let leap = Timestamp {
        secs: 1_435_708_799,
        nanos: 1_500_000_000,
    };
    assert_eq!(
        confirmation_floor(leap),
        Timestamp {
            secs: 1_435_708_795,
            nanos: 500_000_000
        }
    );
}

#[test]
fn only_the_dawn_of_the_calendar_has_no_floor() {
    assert_eq!(DateTime::<Utc>::MIN_UTC.timestamp(), FIRST_SECOND);
    assert_eq!(DateTime::<Utc>::MAX_UTC.timestamp(), LAST_SECOND);
    let at = |secs: i64, nanos: u32| Timestamp { secs, nanos }.has_confirmation_floor();
    assert!(!at(FIRST_SECOND, 0));
    assert!(!at(FIRST_SECOND + 4, 999_999_999));
    assert!(at(FIRST_SECOND + 5, 0));
    assert!(at(0, 0));
    assert!(at(LAST_SECOND, 999_999_999));
    assert!(!at(LAST_SECOND + 1, 0));
    assert!(!at(FIRST_SECOND - 1, 0));
    // Nanoseconds beyond a second are valid in the last second of a minute only.
    assert!(!at(0, 1_000_000_000));
    assert!(at(59, 1_999_999_999));
    assert!(!at(59, 2_000_000_000));
    assert!(at(-1, 1_000_000_000));
    let first = Timestamp {
        secs: FIRST_SECOND + 5,
        nanos: 3,
    };
    assert_eq!(
        confirmation_floor(first),
        Timestamp {
            secs: FIRST_SECOND,
            nanos: 3
        }
    );
}

#[test]
fn a_prompt_is_cut_to_whole_characters() {
    assert_eq!(truncate_on_char_boundary("abc", 3), "abc");
    assert_eq!(truncate_on_char_boundary("abcd", 3), "abc…");
    assert_eq!(truncate_on_char_boundary("", 0), "");
    assert_eq!(truncate_on_char_boundary("a", 0), "…");
    assert_eq!(truncate_on_char_boundary("aé€😀", 10), "aé€😀");
    assert_eq!(truncate_on_char_boundary("aé€😀", 9), "aé€…");
    assert_eq!(truncate_on_char_boundary("aé€😀", 6), "aé€…");
    assert_eq!(truncate_on_char_boundary("aé€😀", 5), "aé…");
    assert_eq!(truncate_on_char_boundary("aé€😀", 2), "a…");
}

#[test]
fn the_cut_is_the_last_boundary_within_the_limit() {
    let s = "x😀é€yß—z";
    for max in 0..s.len() + 2 {
        let mut end = max.min(s.len());
        while !s.is_char_boundary(end) {
            end -= 1;
        }
        let wanted = if s.len() <= max {
            s.to_string()
        } else {
            format!("{}…", &s[..end])
        };
        assert_eq!(truncate_on_char_boundary(s, max), wanted, "at {max}");
    }
}

#[test]
fn a_report_matches_whatever_the_length_of_the_prompt() {
    for len in [0, 1, 199, 200, 201, 500] {
        let prompt = format!("  {}\n", "é".repeat(len));
        assert!(prompt_submission_matches(&prompt, &prompt));
        let report = truncate_on_char_boundary(prompt.trim(), USER_PROMPT_MAX_LEN);
        assert!(prompt_submission_matches(&prompt, &report), "at {len}");
    }
    assert!(prompt_submission_matches("a", "\u{2003}a\u{85}"));
    assert!(!prompt_submission_matches("a b", "a  b"));
}

#[test]
fn delays_double_up_to_fifteen_seconds() {
    let delays: Vec<u64> = (0..12).map(unconfirmed_retry_delay).collect();
    assert_eq!(
        delays,
        vec![
            500, 500, 1000, 2000, 4000, 8000, 15000, 15000, 15000, 15000, 15000, 15000
        ]
    );
    assert_eq!(unconfirmed_retry_delay(u32::MAX), 15000);
}

#[test]
fn identities_are_spelled_out() {
    let mut ids = DeliveryIds {
        nonce: 0xabc,
        next: 9,
    };
    assert_eq!(mint_delivery_id(&mut ids, "p-1"), "send-0000000000000abc-p-1-9");
    assert_eq!(mint_delivery_id(&mut ids, "p-1"), "send-0000000000000abc-p-1-10");
    assert_eq!(attempt_delivery_id("send-x", 12), "send-x#a12");
    let mut last = DeliveryIds {
        nonce: u64::MAX,
        next: u64::MAX,
    };
    assert_eq!(
        mint_delivery_id(&mut last, ""),
        format!("send-ffffffffffffffff--{}", u64::MAX)
    );
    assert_eq!(last.next, 0);
    assert_eq!(last.nonce, u64::MAX);
}

#[test]
fn identities_do_not_run_into_each_other() {
    let id = |nonce: u64, pane: &str, next: u64| {
        mint_delivery_id(&mut DeliveryIds { nonce, next }, pane)
    };
    assert_ne!(id(1, "p", 11), id(1, "p-1", 1));
    assert_ne!(id(1, "p", 1), id(2, "p", 1));
    assert_ne!(attempt_delivery_id("d#a1", 2), attempt_delivery_id("d", 12));
}

#[test]
fn every_stage_of_a_delivery_is_logged() {
    let written = log_prompt_written("seed", "p1", "d1", 1);
    assert_eq!(written.level, LogLevel::Info);
    assert_eq!(written.path, "seed");
    assert_eq!(written.pane_id, "p1");
    assert_eq!(written.delivery_id, "d1");
    assert_eq!(written.detail, LogDetail::Attempt(1));
    assert_eq!(
        written.message,
        "prompt written to pane; provisional until UserPromptSubmit confirms it"
    );
    let again = log_prompt_unconfirmed("seed", "p1", "d1", 2);
    assert_eq!(again.level, LogLevel::Info);
    assert_eq!(again.detail, LogDetail::Attempt(2));
    assert_eq!(again.message, "prompt delivery unconfirmed; re-submitting");
    let confirmed = log_prompt_confirmed("seed", "p1", "d1", 3);
    assert_eq!(confirmed.level, LogLevel::Info);
    assert_eq!(confirmed.detail, LogDetail::Attempt(3));
    assert_eq!(
        confirmed.message,
        "prompt delivery confirmed by the agent's submitted prompt"
    );
    let mute = log_prompt_unconfirmable("seed", "p1", "d1", "a bare shell");
    assert_eq!(mute.level, LogLevel::Info);
    assert_eq!(mute.detail, LogDetail::Reason("a bare shell".to_string()));
    assert_eq!(
        mute.message,
        "prompt written to pane; delivery cannot be confirmed by this agent, not retrying"
    );
    let given_up = log_prompt_abandoned("seed", "p1", "d1", 9);
    assert_eq!(given_up.level, LogLevel::Warn);
    assert_eq!(given_up.detail, LogDetail::Attempts(9));
    assert_eq!(
        given_up.message,
        "prompt delivery unconfirmed at the deadline; abandoning"
    );
}
