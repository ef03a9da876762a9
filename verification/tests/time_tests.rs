use habr_reader::text::char_is_whitespace;
use habr_reader::time::local_publication_time;

fn local(ts: &str) -> String {
    ts.parse::<chrono::DateTime<chrono::Local>>().unwrap().format("%d.%m.%Y %H:%M").to_string()
}

#[test]
fn publication_time_in_local_zone() {
    for ts in ["2024-01-02T03:04:05+03:00", "2023-12-31T23:59:59Z", "2020-02-29T12:00:00.123-07:30", "1999-01-01 00:00:00+00:00"] {
        assert_eq!(local_publication_time(ts), Some(local(ts)), "{ts}");
    }
}

#[test]
fn publication_time_is_within_a_day_of_utc() {
    let text = local_publication_time("2024-06-15T10:20:30Z").unwrap();
    let shown = chrono::NaiveDateTime::parse_from_str(&text, "%d.%m.%Y %H:%M").unwrap();
    let utc = chrono::NaiveDate::from_ymd_opt(2024, 6, 15).unwrap().and_hms_opt(10, 20, 0).unwrap();
    assert!((shown - utc).num_seconds().abs() < 86400);
    assert_eq!(text.chars().count(), 16);
}

#[test]
fn unreadable_publication_times() {
    for ts in ["", "yesterday", "2024-13-01T00:00:00Z", "2024-01-02T03:04:05", "2024-02-30T00:00:00Z"] {
        assert_eq!(local_publication_time(ts), None, "{ts}");
    }
}

#[test]
fn whitespace_agrees_with_std() {
    for u in 0..0x3100u32 {
        if let Some(c) = char::from_u32(u) {
            assert_eq!(char_is_whitespace(c), c.is_whitespace(), "{u:#x}");
        }
    }
    assert!(!char_is_whitespace('\u{feff}'));
}
