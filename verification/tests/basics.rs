use jcode::clock::{signed_secs, Timestamp, MAX_SECS, MIN_SECS};
use jcode::digest::{full_hash, stable_hash};
use jcode::number::{decimal, parse};
use jcode::paths::{components, is_absolute, path_join, stays_inside};
use jcode::settings::{
    active_is_anthropic, nonempty_env, optional_u32, NamedProfile, NamedProviderType,
};
use jcode::telemetry::{
    judge_post, telemetry_status_is_permanent, PostOutcome, PostVerdict, QueueOutcome, TelemetryState,
};
use jcode::text::{
    byte_len, contains, ends_with, fields, join, lines, replace, rsplit_once, same_text,
    starts_with, strip_prefix, strip_suffix, to_lower, trim, trim_class, trim_end_text,
    trim_start_class, truncate, words, CharClass,
};
use jcode::translate::{flatten, option, option_or, result_or, Json, Member};

fn at(secs: i64, nanos: u32) -> Timestamp {
    Timestamp { secs, nanos }
}

// ---------------------------------------------------------------------------
// Text
// ---------------------------------------------------------------------------

const SAMPLES: [&str; 16] = [
    "",
    "a",
    " a b ",
    "\u{a0}x\u{3000}",
    "one\ntwo\r\nthree\r",
    "\n",
    "\n\n",
    "a\r\n",
    "ÄöÜ ẞ",
    "()()",
    "f()()",
    "a [b [c",
    "## x\n## y",
    "  \t\u{2028}",
    "aaa",
    "a,b,,c",
];

#[test]
fn every_white_character_is_known() {
    let mut text = String::new();
    for code in 0..=0x10ffff_u32 {
        if let Some(c) = char::from_u32(code) {
            text.push(c);
            text.push('\u{1}');
        }
    }
    let ours: Vec<String> = fields(&text, CharClass::White);
    let theirs: Vec<&str> = text.split(char::is_whitespace).collect();
    assert_eq!(ours.len(), theirs.len());
    assert!(ours.iter().zip(&theirs).all(|(a, b)| a == b));
}

#[test]
fn every_word_character_is_known() {
    let mut text = String::new();
    for code in 0..=0x10ffff_u32 {
        if let Some(c) = char::from_u32(code) {
            text.push(c);
        }
    }
    let ours: Vec<String> = fields(&text, CharClass::NonWord);
    let theirs: Vec<&str> = text
        .split(|c: char| !c.is_alphanumeric() && c != '_')
        .collect();
    assert_eq!(ours.len(), theirs.len());
    assert!(ours.iter().zip(&theirs).all(|(a, b)| a == b));
}

#[test]
fn text_functions_agree_with_the_standard_library() {
    for s in SAMPLES {
        assert_eq!(trim(s), s.trim());
        assert_eq!(words(s), s.split_whitespace().collect::<Vec<_>>());
        assert_eq!(lines(s), s.lines().collect::<Vec<_>>());
        assert_eq!(to_lower(s), s.to_ascii_lowercase());
        assert_eq!(byte_len(s), s.len());
        assert_eq!(trim_start_class(s, CharClass::White), s.trim_start());
        assert_eq!(trim_end_text(s, "()"), s.trim_end_matches("()"));
        assert_eq!(
            trim_class(s, CharClass::Only('a')),
            s.trim_matches('a')
        );
        assert_eq!(replace(s, 'a', "'\\''"), s.replace('a', "'\\''"));
        for p in SAMPLES {
            assert_eq!(starts_with(s, p), s.starts_with(p));
            assert_eq!(ends_with(s, p), s.ends_with(p));
            assert_eq!(contains(s, p), s.contains(p));
            assert_eq!(same_text(s, p), s == p);
            assert_eq!(strip_prefix(s, p).as_deref(), s.strip_prefix(p));
            assert_eq!(strip_suffix(s, p).as_deref(), s.strip_suffix(p));
        }
        for p in ["a", " [", "\n", "()"] {
            assert_eq!(
                rsplit_once(s, p),
                s.rsplit_once(p)
                    .map(|(a, b)| (a.to_string(), b.to_string()))
            );
        }
    }
}

#[test]
fn joining_undoes_splitting() {
    for s in SAMPLES {
        assert_eq!(join(&fields(s, CharClass::Only(',')), ","), s);
    }
}

#[test]
fn truncation_keeps_whole_characters() {
    assert_eq!(truncate("aé€😀", 0), "");
    assert_eq!(truncate("aé€😀", 2), "a");
    assert_eq!(truncate("aé€😀", 3), "aé");
    assert_eq!(truncate("aé€😀", 6), "aé€");
    assert_eq!(truncate("aé€😀", 9), "aé€");
    assert_eq!(truncate("aé€😀", 10), "aé€😀");
}

// ---------------------------------------------------------------------------
// Numbers and paths
// ---------------------------------------------------------------------------

#[test]
fn numbers_are_written_and_read() {
    for n in [0, 9, 10, 99, 100, 1_234_567_890, u64::MAX] {
        assert_eq!(decimal(n), n.to_string());
        assert_eq!(parse(&n.to_string(), u64::MAX), Some(n));
    }
    for text in ["", "+", "-1", "1 ", "a", "１", "0x1", "256", "+255", "000255", "++1"] {
        assert_eq!(
            parse(text, 255),
            text.parse::<u8>().ok().map(u64::from),
            "{text:?}"
        );
    }
}

#[test]
fn paths_are_joined_and_divided() {
    for (dir, name) in [("/a", "b"), ("/a/", "b"), ("", "b"), ("/a", "/b"), ("a", "")] {
        assert_eq!(
            path_join(dir, name),
            std::path::Path::new(dir).join(name).to_str().unwrap()
        );
    }
    for path in ["/a/b", "a//b/./c/", "./a", ".", "/", "", "..", "/../a", "a/.", "//a"] {
        let theirs: Vec<String> = std::path::Path::new(path)
            .components()
            .map(|part| part.as_os_str().to_str().unwrap().to_string())
            .collect();
        assert_eq!(components(path), theirs, "{path:?}");
        assert_eq!(is_absolute(path), std::path::Path::new(path).is_absolute());
    }
    assert!(stays_inside("a/b/..c"));
    assert!(stays_inside("./a"));
    assert!(!stays_inside("a/../b"));
    assert!(!stays_inside("/a"));
}

// ---------------------------------------------------------------------------
// Time and digests
// ---------------------------------------------------------------------------

#[test]
fn the_calendar_has_its_ends() {
    assert_eq!(MAX_SECS, chrono::DateTime::<chrono::Utc>::MAX_UTC.timestamp());
    assert_eq!(MIN_SECS, chrono::DateTime::<chrono::Utc>::MIN_UTC.timestamp());
    assert_eq!(at(MAX_SECS, 5).plus(0), Some(at(MAX_SECS, 5)));
    assert_eq!(at(MAX_SECS, 0).plus(1), None);
    assert_eq!(at(MIN_SECS, 0).plus(-1), None);
    assert_eq!(at(MIN_SECS, 0).plus(MAX_SECS - MIN_SECS), Some(at(MAX_SECS, 0)));
    assert_eq!(at(MAX_SECS + 1, 0).plus(0), None);
    assert_eq!(at(0, 2_000_000_000).plus(0), None);
    assert_eq!(at(0, 0).plus(i64::MAX), None);
    assert_eq!(at(0, 0).plus(i64::MIN), None);
}

#[test]
fn time_moves_on_by_seconds() {
    assert_eq!(at(100, 7).plus(-30), Some(at(70, 7)));
    // A leap second is the last of its minute.
    assert_eq!(at(59, 1_500_000_000).plus(0), Some(at(59, 1_500_000_000)));
    assert_eq!(at(59, 1_500_000_000).plus(1), Some(at(60, 500_000_000)));
    assert_eq!(at(59, 1_500_000_000).plus(-1), Some(at(59, 500_000_000)));
    assert_eq!(at(58, 1_500_000_000).plus(1), None);
    assert!(at(1, 0).is_before(&at(1, 1)));
    assert!(!at(1, 1).is_before(&at(1, 1)));
    let now = Timestamp::now();
    assert!(at(1_600_000_000, 0).is_before(&now));
    assert!(!Timestamp::now().is_before(&now));
}

#[test]
fn time_is_written_for_people() {
    assert_eq!(
        at(1_700_000_000, 0).to_rfc3339().as_deref(),
        Some("2023-11-14T22:13:20+00:00")
    );
    assert_eq!(
        at(0, 500_000_000).to_rfc3339().as_deref(),
        Some("1970-01-01T00:00:00.500+00:00")
    );
    assert_eq!(at(MAX_SECS + 1, 0).to_rfc3339(), None);
}

#[test]
fn seconds_wrap_round() {
    assert_eq!(signed_secs(5), 5);
    assert_eq!(signed_secs(u64::MAX), -1);
    assert_eq!(signed_secs(1 << 63), i64::MIN);
}

#[test]
fn digests_are_those_of_the_bytes() {
    assert_eq!(
        full_hash(""),
        "e3b0c44298fc1c149afbf4c8996fb92427ae41e4649b934ca495991b7852b855"
    );
    assert_eq!(stable_hash("abc"), "ba7816bf8f01cfea");
    assert_eq!(stable_hash("é"), full_hash("é")[..16]);
}

// ---------------------------------------------------------------------------
// Settings
// ---------------------------------------------------------------------------

#[test]
fn blank_settings_are_none() {
    assert_eq!(nonempty_env(None), None);
    assert_eq!(nonempty_env(Some(" \n".to_string())), None);
    assert_eq!(nonempty_env(Some(" x ".to_string())).as_deref(), Some(" x "));
    let number = |text: &str| optional_u32(Some(text.to_string()));
    assert_eq!(number(" 7 "), Some(7));
    assert_eq!(number("4294967295"), Some(u32::MAX));
    assert_eq!(number("4294967296"), None);
    assert_eq!(number("-1"), None);
    assert_eq!(number(""), None);
    assert_eq!(optional_u32(None), None);
}

#[test]
fn a_profile_is_found_by_its_name() {
    let profiles = vec![
        NamedProfile {
            name: "a".to_string(),
            provider_type: NamedProviderType::Other,
        },
        NamedProfile {
            name: "b".to_string(),
            provider_type: NamedProviderType::AnthropicCompatible,
        },
    ];
    let active = |name: &str| active_is_anthropic(&Some(name.to_string()), &profiles);
    assert!(active("b"));
    assert!(!active("a"));
    assert!(!active("c"));
    assert!(!active_is_anthropic(&None, &profiles));
}

// ---------------------------------------------------------------------------
// Telemetry
// ---------------------------------------------------------------------------

#[test]
fn some_refusals_are_permanent() {
    for status in [400, 401, 404, 410, 422, 499] {
        assert!(telemetry_status_is_permanent(status));
    }
    for status in [200, 301, 399, 408, 425, 429, 500, 503] {
        assert!(!telemetry_status_is_permanent(status));
    }
}

#[test]
fn a_permanent_refusal_ends_delivery() {
    let mut state = TelemetryState::new();
    assert_eq!(
        state.posted(PostOutcome::Answered { status: 204 }),
        PostVerdict::Delivered
    );
    assert_eq!(
        state.posted(PostOutcome::Answered { status: 503 }),
        PostVerdict::RejectedForNow
    );
    assert_eq!(state.posted(PostOutcome::Failed), PostVerdict::Failed);
    assert!(state.is_open());
    assert_eq!(
        state.posted(PostOutcome::Answered { status: 403 }),
        PostVerdict::RejectedForGood
    );
    assert!(!state.is_open());
    state.posted(PostOutcome::Answered { status: 200 });
    assert!(!state.is_open());
}

#[test]
fn an_outcome_is_judged_without_being_noted() {
    let judged = |status: u16| judge_post(PostOutcome::Answered { status });
    assert_eq!(judged(299), PostVerdict::Delivered);
    assert_eq!(judged(300), PostVerdict::RejectedForNow);
    assert_eq!(judged(404), PostVerdict::RejectedForGood);
    assert_eq!(judge_post(PostOutcome::Failed), PostVerdict::Failed);
}

#[test]
fn a_full_queue_is_told_of_once() {
    let mut state = TelemetryState::new();
    assert!(state.queued(QueueOutcome::Full));
    assert!(!state.queued(QueueOutcome::Full));
    assert!(state.queued(QueueOutcome::Stopped));
    assert!(!state.queued(QueueOutcome::Queued));
    assert!(state.queued(QueueOutcome::Full));
}

// ---------------------------------------------------------------------------
// Translation
// ---------------------------------------------------------------------------

fn text(value: &str) -> Json {
    Json::Text(value.to_string())
}

fn object(members: Vec<(&str, Json)>) -> Json {
    Json::Object(
        members
            .into_iter()
            .map(|(key, value)| Member {
                key: key.to_string(),
                value,
            })
            .collect(),
    )
}

#[test]
fn content_is_flattened_to_its_text() {
    assert_eq!(flatten(&text("plain")), "plain");
    assert_eq!(flatten(&Json::Null), "");
    assert_eq!(flatten(&Json::Bool(true)), "");
    assert_eq!(flatten(&Json::Number("1".to_string())), "");
    assert_eq!(flatten(&object(vec![("text", text("x"))])), "");
    let blocks = Json::Array(vec![
        object(vec![("type", text("text")), ("text", text("a"))]),
        text("bare"),
        object(vec![("type", text("tool_use"))]),
        object(vec![("text", Json::Null)]),
        Json::Array(vec![]),
        object(vec![("text", text("b"))]),
    ]);
    assert_eq!(flatten(&blocks), "ab");
}

#[test]
fn the_best_is_made_of_a_result() {
    assert_eq!(option::<i32, ()>(Ok(1)), Some(1));
    assert_eq!(option::<i32, &str>(Err("no")), None);
    assert_eq!(result_or::<i32, ()>(Ok(1), 2), 1);
    assert_eq!(result_or::<i32, ()>(Err(()), 2), 2);
    assert_eq!(option_or(Some(1), 2), 1);
    assert_eq!(option_or(None, 2), 2);
}
