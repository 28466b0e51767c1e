use crypto_feed::timestamp::{format_timestamp, published_at, published_or, WallClock};

fn well_formed(s: &str) -> bool {
    let c: Vec<char> = s.chars().collect();
    if c.len() != 19 {
        return false;
    }
    c.iter().enumerate().all(|(i, ch)| match i {
        4 | 7 => *ch == '-',
        10 => *ch == ' ',
        13 | 16 => *ch == ':',
        _ => ch.is_ascii_digit(),
    })
}

fn clock(year: i32, month: u32, day: u32, hour: u32, minute: u32, second: u32) -> WallClock {
    WallClock { year, month, day, hour, minute, second, nanosecond: 0 }
}

#[test]
fn rfc3339_is_rendered_as_written() {
    assert_eq!(published_at("2024-01-02T03:04:05Z"), ("2024-01-02 03:04:05".to_string(), false));
    assert_eq!(
        published_at("2024-03-01T10:00:00+02:00"),
        ("2024-03-01 10:00:00".to_string(), false)
    );
    assert_eq!(
        published_at("2024-03-01T10:00:00.75Z"),
        ("2024-03-01 10:00:00".to_string(), false)
    );
}

#[test]
fn unparseable_timestamp_falls_back() {
    let (text, fallback) = published_at("yesterday at noon");
    assert!(fallback);
    assert!(well_formed(&text));
    let (text, fallback) = published_at("");
    assert!(fallback);
    assert!(well_formed(&text));
}

#[test]
fn fallback_uses_given_time() {
    let now = clock(2025, 7, 9, 8, 5, 3);
    assert_eq!(published_or("not a date", &now), ("2025-07-09 08:05:03".to_string(), true));
    assert_eq!(
        published_or("2020-12-31T23:59:59Z", &now),
        ("2020-12-31 23:59:59".to_string(), false)
    );
}

#[test]
fn years_are_padded_or_signed() {
    assert_eq!(format_timestamp(&clock(987, 1, 1, 0, 0, 0)), "0987-01-01 00:00:00");
    assert_eq!(format_timestamp(&clock(12345, 1, 1, 0, 0, 0)), "+12345-01-01 00:00:00");
    assert_eq!(format_timestamp(&clock(-44, 3, 15, 12, 0, 0)), "-0044-03-15 12:00:00");
}

#[test]
fn leap_second_shows_as_sixty() {
    let w = WallClock { nanosecond: 1_000_000_000, ..clock(2016, 12, 31, 23, 59, 59) };
    assert_eq!(format_timestamp(&w), "2016-12-31 23:59:60");
}
