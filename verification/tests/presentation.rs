use whisperfish::registration::{
    after_failed_open, OpenStep, phone_number_entered, register_response, storage_password, verification_code_entered,
    PhoneNumberStep, RegisterStep,
};
use chrono::{Datelike, NaiveDateTime};
use whisperfish::args::Args;
use whisperfish::contact::{first_formatted, format_with_country, trim_white_space};
use whisperfish::session_list::{section, weekday, MS_PER_DAY, MS_PER_HOUR};

const DAY: i64 = MS_PER_DAY as i64;
const HOUR: i64 = MS_PER_HOUR as i64;

fn chrono_weekday(ms: i64) -> u64 {
    let secs = ms.div_euclid(1000);
    let dt = NaiveDateTime::from_timestamp_opt(secs, 0).unwrap();
    (dt.weekday().number_from_monday() % 7) as u64
}

#[test]
fn weekday_matches_chrono() {
    for ms in [
        0i64,
        1,
        DAY - 1,
        DAY,
        3 * DAY,
        1_620_000_000_000,
        1_634_567_890_123,
        -1,
        -DAY,
        -DAY - 1,
        -1_000_000_000_000,
    ] {
        assert_eq!(weekday(ms), chrono_weekday(ms), "timestamp {}", ms);
    }
    // 1970-01-01 was a Thursday.
    assert_eq!(weekday(0), 4);
}

#[test]
fn sections_by_age() {
    let today = 1_634_515_200_000i64; // 2021-10-18 00:00 UTC, a Monday
    assert_eq!(section(today, today + 5 * HOUR), "today");
    assert_eq!(section(today, today - 999), "today");
    assert_eq!(section(today, today - 1000), "yesterday");
    assert_eq!(section(today, today - 25 * HOUR + 1), "yesterday");
    // 25 hours back is Saturday evening.
    assert_eq!(section(today, today - 25 * HOUR), "6");
    assert_eq!(section(today, today - 3 * DAY), "5");
    assert_eq!(section(today, today - 169 * HOUR + 1), "0");
    assert_eq!(section(today, today - 169 * HOUR), "older");
}

#[test]
fn command_line_arguments() {
    let args: Vec<String> = ["harbour-whisperfish", "autostart", "-v", "--qt-flag", "x"]
        .iter()
        .map(|s| s.to_string())
        .collect();
    let mut autostart = false;
    let mut verbose = false;
    let ignored = Args::check_args(&args, &mut autostart, &mut verbose);
    assert!(autostart);
    assert!(verbose);
    assert_eq!(ignored, 3);

    let args: Vec<String> = vec!["prog".to_string(), "--verbose".to_string()];
    let mut autostart = false;
    let mut verbose = false;
    assert_eq!(Args::check_args(&args, &mut autostart, &mut verbose), 1);
    assert!(!autostart);
    assert!(verbose);
}

#[test]
fn trimming_matches_std() {
    for s in [
        "",
        "   ",
        " +32474123456 ",
        "\t\n0474 12 34 56\u{3000}",
        "\u{a0}x\u{2028}",
        "no space",
    ] {
        assert_eq!(trim_white_space(s), s.trim());
    }
}

#[test]
fn e164_phone_number_acceptance_test() {
    for phone in ["+32474123456", "+3541234567", "+18875550100"] {
        assert!(
            format_with_country(phone, "").is_some(),
            "phone '{}' is not accepted without country",
            phone
        );
    }
}

#[test]
fn local_phone_number_acceptance_test() {
    for (phone, country) in [("0474123456", "BE"), ("01234567", "IS"), ("08875550100", "US")] {
        assert!(
            format_with_country(phone, country).is_some(),
            "phone '{}' with country '{}' is not accepted",
            phone,
            country
        );
    }
}

#[test]
fn formatted_numbers() {
    assert_eq!(
        format_with_country(" 0474123456 ", "BE"),
        Some("+32474123456".to_string())
    );
    // Without the plus the number is tried again as an international one.
    assert_eq!(
        format_with_country("32474123456", ""),
        Some("+32474123456".to_string())
    );
    assert_eq!(format_with_country("   ", "BE"), None);
    assert_eq!(format_with_country("", "BE"), None);
    assert_eq!(format_with_country("hello", "BE"), None);
    assert_eq!(
        first_formatted(None, Some("b".to_string())),
        Some("b".to_string())
    );
    assert_eq!(
        first_formatted(Some("a".to_string()), Some("b".to_string())),
        Some("a".to_string())
    );
}

#[test]
fn registration_steps() {
    match phone_number_entered("+32474123456") {
        PhoneNumberStep::Accepted(e164) => assert_eq!(e164, "+32474123456"),
        PhoneNumberStep::Rejected => panic!("valid number rejected"),
    }
    assert!(matches!(phone_number_entered("0474123456"), PhoneNumberStep::Rejected));
    assert!(matches!(phone_number_entered("not a number"), PhoneNumberStep::Rejected));
    assert_eq!(register_response(true), RegisterStep::AskCaptcha);
    assert_eq!(register_response(false), RegisterStep::AskVerificationCode);
    assert_eq!(verification_code_entered("123456"), Some(123456));
    assert_eq!(verification_code_entered("123-456"), None);
    assert_eq!(storage_password(String::new()), None);
    assert_eq!(storage_password("pw".to_string()), Some("pw".to_string()));
}

#[test]
fn password_attempts() {
    assert_eq!(after_failed_open(0), OpenStep::AskPassword(1));
    assert_eq!(after_failed_open(2), OpenStep::AskPassword(3));
    assert_eq!(after_failed_open(3), OpenStep::GiveUp);
}
