//! Texts, instants, digests, documents and paths.
use chrono::{DateTime, NaiveDate, TimeZone, Utc};
use openquota_codex::digest::{from_hex, sha256_hex, to_hex};
use openquota_codex::json::{Json, JsonNumber};
use openquota_codex::paths::{auth_paths, candidate_paths, expand_home, PathPlan, PathRoot};
use openquota_codex::text;
use openquota_codex::time::{day_of_date, day_of_instant, Timestamp};
use std::path::{Path, PathBuf};

fn resolved(plan: &PathPlan, home: &Path) -> PathBuf {
    let mut path = match &plan.root {
        PathRoot::Home => home.to_path_buf(),
        PathRoot::Text(text) => PathBuf::from(text),
    };
    for part in &plan.parts {
        path = path.join(part);
    }
    path
}

fn json(text: &str) -> Json {
    Json::from_text(text).unwrap()
}

#[test]
fn codex_home_replaces_default_candidates() {
    let paths: Vec<PathBuf> = candidate_paths(Some("/custom/codex"))
        .iter()
        .map(|plan| resolved(plan, Path::new("/users/me")))
        .collect();
    assert_eq!(paths, vec![Path::new("/custom/codex/auth.json")]);
}

#[test]
fn without_codex_home_there_are_two_default_candidates() {
    for configured in [None, Some("")] {
        let paths: Vec<PathBuf> = auth_paths(configured)
            .iter()
            .map(|plan| resolved(plan, Path::new("/users/me")))
            .collect();
        assert_eq!(
            paths,
            vec![
                Path::new("/users/me/.config/codex/auth.json"),
                Path::new("/users/me/.codex/auth.json")
            ]
        );
    }
}

#[test]
fn a_leading_tilde_is_the_home_directory() {
    let at = |value: &str| resolved(&expand_home(value), Path::new("/users/me"));
    assert_eq!(at("~"), Path::new("/users/me"));
    assert_eq!(at("~/x/y"), Path::new("/users/me/x/y"));
    assert_eq!(at("~\\x"), Path::new("/users/me/x"));
    assert_eq!(at("~x"), Path::new("~x"));
    assert_eq!(at("/x"), Path::new("/x"));
}

#[test]
fn white_space_is_what_the_language_takes_for_it() {
    for code in 0..=0x10_ffff_u32 {
        if let Some(c) = char::from_u32(code) {
            assert_eq!(text::is_white_space(c), c.is_whitespace(), "{code:x}");
        }
    }
}

#[test]
fn texts_are_handled_as_by_the_language() {
    for sample in ["", " a b ", "\u{2003}x\n", "é,ü,,", "a\r\nb\n\nc", "\r\n", "ÄbC", "x\r"] {
        assert_eq!(text::trim(sample), sample.trim());
        assert_eq!(
            text::split(sample, ','),
            sample.split(',').collect::<Vec<_>>()
        );
        assert_eq!(text::lines(sample), sample.lines().collect::<Vec<_>>());
        assert_eq!(text::ascii_lowercase(sample), sample.to_ascii_lowercase());
        assert_eq!(
            text::strip_prefix(sample, "a").as_deref(),
            sample.strip_prefix('a')
        );
        for other in ["", "a", "é", "ÄbC", "z"] {
            assert_eq!(text::is_before(sample, other), sample < other);
            assert_eq!(text::same_text(sample, other), sample == other);
            assert_eq!(
                text::holds(&text::characters(sample), other),
                sample.contains(other)
            );
        }
    }
    assert_eq!(text::decimal_text(u64::MAX), u64::MAX.to_string());
    assert_eq!(text::decimal_text(0), "0");
}

#[test]
fn seconds_between_instants_are_counted_as_by_the_calendar() {
    let samples = [
        (0, 0),
        (0, 999_999_999),
        (59, 1_500_000_000),
        (60, 0),
        (-1, 5),
        (86_399, 1_000_000_000),
        (86_400, 1),
        (1_800_000_000, 0),
        (-8_334_601_228_800, 0),
        (8_210_266_876_799, 999_999_999),
    ];
    for (secs, nanos) in samples {
        for (other_secs, other_nanos) in samples {
            let later = DateTime::from_timestamp(secs, nanos).unwrap();
            let earlier = DateTime::from_timestamp(other_secs, other_nanos).unwrap();
            let ours = Timestamp::new(secs, nanos)
                .unwrap()
                .seconds_since(Timestamp::new(other_secs, other_nanos).unwrap());
            assert_eq!(ours, later.signed_duration_since(earlier).num_seconds());
        }
    }
}

#[test]
fn the_calendar_has_its_ends() {
    for (secs, nanos) in [
        (-8_334_601_228_801, 0),
        (-8_334_601_228_800, 0),
        (8_210_266_876_799, 0),
        (8_210_266_876_800, 0),
        (0, 1_000_000_000),
        (59, 1_000_000_000),
        (59, 2_000_000_000),
        (-1, 1_999_999_999),
        (i64::MAX, 0),
        (i64::MIN, 0),
    ] {
        assert_eq!(
            Timestamp::new(secs, nanos).is_some(),
            DateTime::from_timestamp(secs, nanos).is_some(),
            "{secs} {nanos}"
        );
    }
}

#[test]
fn instants_are_written_and_read_again() {
    for (secs, nanos) in [
        (0, 0),
        (1_800_000_000, 120_000_000),
        (1_800_000_000, 1),
        (-62_167_219_200, 0),
        (253_402_300_799, 999_999_999),
        (59, 1_250_000_000),
    ] {
        let instant = Timestamp::new(secs, nanos).unwrap();
        assert_eq!(
            Timestamp::from_rfc3339(&instant.to_rfc3339()),
            Some(instant)
        );
    }
    assert_eq!(
        Timestamp::new(1_800_000_000, 0).unwrap().to_rfc3339(),
        "2027-01-15T08:00:00+00:00"
    );
    assert!(Timestamp::from_rfc3339("now").is_none());
}

#[test]
fn days_are_counted_as_by_the_calendar() {
    let first = NaiveDate::from_ymd_opt(1970, 1, 1).unwrap();
    for (year, month, day) in [
        (1, 1, 1),
        (1900, 2, 28),
        (1900, 3, 1),
        (1970, 1, 1),
        (2000, 2, 29),
        (2000, 12, 31),
        (2024, 3, 1),
        (2026, 4, 23),
        (9999, 12, 31),
    ] {
        let date = NaiveDate::from_ymd_opt(year, month, day).unwrap();
        assert_eq!(
            day_of_date(year as u32, month, day),
            date.signed_duration_since(first).num_days()
        );
    }
    let noon = Utc.with_ymd_and_hms(1969, 12, 31, 12, 0, 0).unwrap();
    assert_eq!(
        day_of_instant(Timestamp::new(noon.timestamp(), 0).unwrap()),
        -1
    );
    assert_eq!(day_of_instant(Timestamp::new(86_400, 0).unwrap()), 1);
}

#[test]
fn digests_are_those_of_sha_256() {
    assert_eq!(
        sha256_hex(b""),
        "e3b0c44298fc1c149afbf4c8996fb92427ae41e4649b934ca495991b7852b855"
    );
    assert_eq!(
        sha256_hex(b"abc"),
        "ba7816bf8f01cfea414140de5dae2223b00361a396177a9cb410ff61f20015ad"
    );
}

#[test]
fn bytes_are_written_in_hexadecimal_digits_and_read_again() {
    let bytes: Vec<u8> = (0..=255).collect();
    let written = to_hex(&bytes);
    assert!(written.starts_with("000102") && written.ends_with("fdfeff"));
    assert_eq!(from_hex(&written), Some(bytes));
    assert_eq!(from_hex("fF"), Some(vec![255]));
    assert_eq!(from_hex("f"), None);
    assert_eq!(from_hex("+1"), None);
}

#[test]
fn documents_are_read_as_they_are() {
    let document = json(r#"{"a":[1,-2,2.5,null,true,"x"],"b":{"c":1},"b":{"d":2}}"#);
    let number = |pointer: &str| document.pointer(pointer).and_then(Json::as_number);
    assert_eq!(number("/a/0"), Some(JsonNumber::PosInt(1)));
    assert_eq!(number("/a/1"), Some(JsonNumber::NegInt(-2)));
    assert_eq!(number("/a/2"), Some(JsonNumber::Float(2.5_f64.to_bits())));
    assert_eq!(number("/a/5"), None);
    assert_eq!(document.pointer("/a/1").and_then(Json::as_i64), Some(-2));
    assert_eq!(document.pointer("/a/1").and_then(Json::as_u64), None);
    assert!(document.pointer("/a/01").is_none());
    assert!(document.pointer("/a/6").is_none());
    assert!(document.pointer("/b/c").is_none());
    assert_eq!(document.pointer("/b/d").and_then(Json::as_i64), Some(2));
    assert!(document.pointer("b").is_none());
    assert!(document.pointer("").is_some());
    assert_eq!(document.get("a").and_then(Json::as_u64), None);
    assert!(Json::from_text("{} x").is_none());
    assert!(Json::from_bytes(b"\xff").is_none());
    assert!(Json::from_bytes(b"[]").is_some());
}

#[test]
fn pointers_are_escaped() {
    let document = json(r#"{"a/b":1,"c~d":2,"~1":3}"#);
    assert_eq!(document.pointer("/a~1b").and_then(Json::as_u64), Some(1));
    assert_eq!(document.pointer("/c~0d").and_then(Json::as_u64), Some(2));
    assert_eq!(document.pointer("/~01").and_then(Json::as_u64), Some(3));
}

#[test]
fn documents_are_the_same_whatever_the_order_of_members() {
    assert!(json(r#"{"a":1,"b":[0.0]}"#).same(&json(r#"{"b":[-0.0],"a":1}"#)));
    assert!(!json(r#"{"a":1}"#).same(&json(r#"{"a":1,"b":null}"#)));
    assert!(!json("1").same(&json("1.0")));
    assert!(!json("[1,2]").same(&json("[2,1]")));
    let document = json(r#"{"a":[{"b":null}]}"#);
    assert!(document.copy().same(&document));
}

#[test]
fn numbers_are_held_against_seconds() {
    for (text, bound, expected) in [
        ("5", 5, true),
        ("4", 5, false),
        ("-5", -5, true),
        ("-6", -5, false),
        ("4.999", 5, false),
        ("5.0", 5, true),
        ("-5.5", -5, false),
        ("1e30", i64::MAX, true),
        ("9223372036854775807", i64::MAX, true),
        ("-1e30", i64::MIN, false),
    ] {
        let number = json(text).as_number().unwrap();
        assert_eq!(number.at_least(bound), expected, "{text} {bound}");
    }
}

#[test]
fn numbers_and_seconds_are_compared_as_doubles() {
    let edge: i64 = 1 << 53;
    let mut bounds = vec![0, 1, -1, i64::MIN, i64::MIN + 1, i64::MAX, i64::MAX - 1];
    for near in -5..=5 {
        for shift in 0..10 {
            bounds.push((edge << shift) + near);
            bounds.push(-(edge << shift) + near);
            bounds.push((edge << shift) + (1 << shift) + near);
            bounds.push((edge << shift) + 3 * (1 << shift) + near);
        }
        bounds.push(i64::MAX - 512 + near.min(0));
        bounds.push(i64::MIN + 512 + near);
    }
    for bound in bounds.iter().copied() {
        for value in bounds.iter().copied() {
            let number = json(&value.to_string()).as_number().unwrap();
            assert_eq!(
                number.at_least(bound),
                value as f64 >= bound as f64,
                "{value} {bound}"
            );
        }
        for value in [u64::MAX, u64::MAX - 1024, 1 << 63, (1 << 63) + 1025] {
            let number = json(&value.to_string()).as_number().unwrap();
            assert_eq!(
                number.at_least(bound),
                value as f64 >= bound as f64,
                "{value} {bound}"
            );
        }
        for text in [
            "9007199254740992.0",
            "9007199254740994.0",
            "9223372036854775807.0",
            "-9223372036854775808.0",
            "0.5",
            "-0.0",
            "5e-324",
            "-5e-324",
        ] {
            let value: f64 = text.parse().unwrap();
            let number = json(text).as_number().unwrap();
            assert_eq!(number.at_least(bound), value >= bound as f64, "{text} {bound}");
        }
    }
    let number = json("9007199254740992").as_number().unwrap();
    assert!(number.at_least(9007199254740993));
    assert!(!number.at_least(9007199254740994));
}

#[test]
fn documents_are_read_up_to_a_depth() {
    let nested = |depth: usize| format!("{}{}", "[".repeat(depth), "]".repeat(depth));
    assert!(Json::from_text(&nested(127)).is_some());
    assert!(Json::from_text(&nested(128)).is_none());
    assert!(Json::from_bytes(nested(127).as_bytes()).is_some());
    assert!(Json::from_bytes(nested(128).as_bytes()).is_none());
}

#[test]
fn a_carriage_return_behind_a_document_makes_no_difference() {
    for text in ["{}", "1", "", "{", "\"a", "tru", "-", "1e", "\"a\\"] {
        let plain = Json::from_text(text);
        let ended = Json::from_text(&format!("{text}\r"));
        assert_eq!(plain.is_some(), ended.is_some(), "{text}");
        if let (Some(plain), Some(ended)) = (plain, ended) {
            assert!(plain.same(&ended));
        }
    }
}

#[test]
fn bytes_of_a_text_are_read_as_the_text() {
    for text in ["{\"ä\":\"\\u00e9\"}", "[1.5,-0.0]", "nul", "\u{feff}{}"] {
        let from_text = Json::from_text(text);
        let from_bytes = Json::from_bytes(text.as_bytes());
        assert_eq!(from_text.is_some(), from_bytes.is_some(), "{text}");
        if let (Some(from_text), Some(from_bytes)) = (from_text, from_bytes) {
            assert!(from_text.same(&from_bytes));
        }
    }
}

#[test]
fn a_digit_and_a_letter_are_no_document() {
    for text in ["7b22", "0b", "1z", "9d9"] {
        assert!(Json::from_text(text).is_none(), "{text}");
    }
}
