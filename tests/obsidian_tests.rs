use thn::obsidian::{
    default_format, format_date, has_unsupported_pattern, CalendarDate, DailyNotesSettings,
    ThinoSettings,
};

fn date(year: i32, month: u32, day: u32) -> CalendarDate {
    CalendarDate::from_ymd_opt(year, month, day).unwrap()
}

#[test]
fn test_daily_notes_settings_default() {
    let settings = DailyNotesSettings::default();
    assert_eq!(settings.folder, "");
    assert_eq!(settings.format, "YYYY-MM-DD");
}

#[test]
fn test_thino_settings_default() {
    let settings = ThinoSettings::default();
    assert_eq!(settings.insert_after, "");
}

#[test]
fn test_default_format() {
    assert_eq!(default_format(), "YYYY-MM-DD");
}

#[test]
fn test_format_date_standard() {
    assert_eq!(format_date("YYYY-MM-DD", date(2026, 1, 3)), "2026-01-03");
}

#[test]
fn test_format_date_slash_separator() {
    assert_eq!(format_date("YYYY/MM/DD", date(2026, 1, 3)), "2026/01/03");
}

#[test]
fn test_format_date_no_separator() {
    assert_eq!(format_date("YYYYMMDD", date(2026, 1, 3)), "20260103");
}

#[test]
fn test_format_date_european_format() {
    assert_eq!(format_date("DD-MM-YYYY", date(2026, 1, 3)), "03-01-2026");
}

#[test]
fn test_format_date_dot_separator() {
    assert_eq!(format_date("DD.MM.YYYY", date(2026, 12, 25)), "25.12.2026");
}

#[test]
fn test_format_date_year_month_only() {
    assert_eq!(format_date("YYYY-MM", date(2026, 7, 15)), "2026-07");
}

#[test]
fn test_format_date_zero_padding() {
    assert_eq!(format_date("YYYY-MM-DD", date(2026, 1, 5)), "2026-01-05");
}

#[test]
fn test_format_date_two_digit_month_day() {
    assert_eq!(format_date("YYYY-MM-DD", date(2026, 11, 28)), "2026-11-28");
}

#[test]
fn test_format_date_unsupported_weekday() {
    assert_eq!(format_date("YYYY-MM-DD ddd", date(2026, 1, 3)), "2026-01-03");
}

#[test]
fn test_format_date_unsupported_full_weekday() {
    assert_eq!(format_date("dddd, YYYY-MM-DD", date(2026, 1, 3)), "2026-01-03");
}

#[test]
fn test_format_date_unsupported_month_name() {
    assert_eq!(format_date("DD MMM YYYY", date(2026, 1, 3)), "2026-01-03");
}

#[test]
fn test_format_date_unsupported_full_month_name() {
    assert_eq!(format_date("MMMM DD, YYYY", date(2026, 1, 3)), "2026-01-03");
}

#[test]
fn test_format_date_unsupported_week_number() {
    assert_eq!(format_date("YYYY-wo", date(2026, 1, 3)), "2026-01-03");
}

#[test]
fn test_format_date_unsupported_ordinal_day() {
    assert_eq!(format_date("MMMM Do, YYYY", date(2026, 1, 3)), "2026-01-03");
}

#[test]
fn test_format_date_empty_format() {
    assert_eq!(format_date("", date(2026, 1, 3)), "");
}

#[test]
fn test_format_date_custom_text() {
    assert_eq!(format_date("note_YYYY-MM-DD", date(2026, 1, 3)), "note_2026-01-03");
}

#[test]
fn test_has_unsupported_pattern_ddd() {
    assert!(has_unsupported_pattern("YYYY-MM-DD ddd"));
}

#[test]
fn test_has_unsupported_pattern_mmm() {
    assert!(has_unsupported_pattern("DD MMM YYYY"));
}

#[test]
fn test_has_unsupported_pattern_wo() {
    assert!(has_unsupported_pattern("YYYY-wo"));
}

#[test]
fn test_has_unsupported_pattern_supported_only() {
    assert!(!has_unsupported_pattern("YYYY-MM-DD"));
    assert!(!has_unsupported_pattern("YYYY/MM/DD"));
    assert!(!has_unsupported_pattern("YYYYMMDD"));
    assert!(!has_unsupported_pattern("DD-MM-YYYY"));
}
