use thn::config::{expand_vault_path, vault_status, ConfigError};
use thn::memo::{
    daily_note_path, find_insert_position, insert_memo, memo_line_at, new_note_content,
    note_path_for_date, todays_note_path, MemoError,
};
use thn::obsidian::{
    daily_notes_settings_path, format_date, thino_settings_path, CalendarDate, DailyNotesSettings,
};
use thn::path::join;

#[test]
fn empty_anchor_inserts_at_document_end() {
    for doc in ["", "# Title\n", "ä\nü", "# Memos\nline\n# Other\n"] {
        assert_eq!(find_insert_position(doc, ""), doc.len());
    }
}

#[test]
fn missing_anchor_inserts_at_document_end() {
    let doc = "# Title\n## Notes\ntext\n";
    assert_eq!(find_insert_position(doc, "# Memos"), doc.len());
    assert_eq!(find_insert_position(doc, "## Memos"), doc.len());
}

#[test]
fn whitespace_only_anchor_counts_as_no_anchor() {
    let doc = "# Memos\n\nMemo\n# Other\n";
    assert_eq!(find_insert_position(doc, "   "), doc.len());
}

#[test]
fn note_path_is_the_same_for_the_same_inputs() {
    let a = daily_note_path("/vault", "Daily", "2024-01-15");
    let b = daily_note_path("/vault", "Daily", "2024-01-15");
    assert_eq!(a, b);
    assert_eq!(a, "/vault/Daily/2024-01-15.md");
}

#[test]
fn note_path_with_trailing_slash_root_and_absolute_folder() {
    assert_eq!(daily_note_path("/vault/", "Daily", "d"), "/vault/Daily/d.md");
    assert_eq!(daily_note_path("/vault", "/elsewhere", "d"), "/elsewhere/d.md");
}

#[test]
fn entry_into_empty_document_is_the_line_alone() {
    let line = memo_line_at(7, 3, "E");
    assert_eq!(line, "- 07:03 E");
    assert_eq!(insert_memo("", "", &line), "- 07:03 E\n");
    assert_eq!(insert_memo("", "# Memos", &line), "- 07:03 E\n");
}

#[test]
fn boundary_case_stops_at_next_top_level_heading() {
    let doc = "# Memos\nMemo 1\n# Other\nOther content\n";
    let pos = find_insert_position(doc, "# Memos");
    assert_eq!(pos, 15);
    assert_eq!(&doc[pos..], "# Other\nOther content\n");
}

#[test]
fn level_case_skips_deeper_headings() {
    let doc = "# Title\n## Memos\nMemo 1\n### Submemo\nSub content\n## Other\n";
    let pos = find_insert_position(doc, "## Memos");
    assert_eq!(&doc[pos..], "## Other\n");
    let out = insert_memo(doc, "## Memos", "- 10:00 new");
    assert_eq!(
        out,
        "# Title\n## Memos\nMemo 1\n### Submemo\nSub content\n- 10:00 new\n## Other\n"
    );
}

#[test]
fn unsupported_template_falls_back_to_canonical_layout() {
    let date = CalendarDate::from_ymd_opt(2026, 1, 3).unwrap();
    assert_eq!(format_date("YYYY-MM-DD", date), "2026-01-03");
    assert_eq!(format_date("YYYY-MM-DD ddd", date), "2026-01-03");
    assert_eq!(format_date("Q YYYY", date), "2026-01-03");
}

#[test]
fn sequential_memos_accumulate_in_order() {
    let doc = "# Memos\n- 08:00 old\n# Other\nOther content\n";
    let first = insert_memo(doc, "# Memos", "- 09:00 Memo1");
    let second = insert_memo(&first, "# Memos", "- 09:01 Memo2");
    assert_eq!(
        second,
        "# Memos\n- 08:00 old\n- 09:00 Memo1\n- 09:01 Memo2\n# Other\nOther content\n"
    );
    let plain = insert_memo(&insert_memo("", "", "- 09:00 Memo1"), "", "- 09:01 Memo2");
    assert_eq!(plain, "- 09:00 Memo1\n- 09:01 Memo2\n");
}

#[test]
fn entry_after_text_without_final_newline_gets_a_break() {
    assert_eq!(insert_memo("# Memos", "# Memos", "- 10:00 x"), "# Memos\n- 10:00 x\n");
    assert_eq!(insert_memo("abc", "", "- 10:00 x"), "abc\n- 10:00 x\n");
}

#[test]
fn offsets_are_bytes_in_multibyte_text() {
    let doc = "# メモ\nテスト\n# 他\n本文\n";
    let pos = find_insert_position(doc, "# メモ");
    assert_eq!(&doc[pos..], "# 他\n本文\n");
    let out = insert_memo(doc, "# メモ", "- 12:30 新しい");
    assert_eq!(out, "# メモ\nテスト\n- 12:30 新しい\n# 他\n本文\n");
}

#[test]
fn crlf_lines_and_indented_headings_match() {
    let doc = "# Memos\r\nMemo\r\n  # Other  \r\nrest\r\n";
    let pos = find_insert_position(doc, "  # Memos ");
    assert_eq!(&doc[pos..], "  # Other  \r\nrest\r\n");
}

#[test]
fn ideographic_space_is_trimmed() {
    let doc = "\u{3000}# Memos\u{3000}\nMemo\n# Other\n";
    let pos = find_insert_position(doc, "# Memos");
    assert_eq!(&doc[pos..], "# Other\n");
}

#[test]
fn first_matching_anchor_line_wins() {
    let doc = "# Memos\na\n# Mid\n# Memos\nb\n";
    let pos = find_insert_position(doc, "# Memos");
    assert_eq!(&doc[pos..], "# Mid\n# Memos\nb\n");
}

#[test]
fn memo_line_pads_hours_and_minutes() {
    assert_eq!(memo_line_at(0, 0, "midnight"), "- 00:00 midnight");
    assert_eq!(memo_line_at(23, 59, ""), "- 23:59 ");
}

#[test]
fn new_note_starts_with_the_heading() {
    assert_eq!(new_note_content("# Memos"), "# Memos\n");
    assert_eq!(new_note_content(""), "");
}

#[test]
fn join_follows_pathbuf_push() {
    assert_eq!(join("/vault", "x"), "/vault/x");
    assert_eq!(join("/vault/", "x"), "/vault/x");
    assert_eq!(join("", "x"), "x");
    assert_eq!(join("/vault", "/abs"), "/abs");
    assert_eq!(join("/vault", ""), "/vault/");
}

#[test]
fn calendar_dates_are_validated() {
    assert!(CalendarDate::from_ymd_opt(2024, 2, 29).is_some());
    assert!(CalendarDate::from_ymd_opt(2000, 2, 29).is_some());
    assert!(CalendarDate::from_ymd_opt(2025, 2, 29).is_none());
    assert!(CalendarDate::from_ymd_opt(1900, 2, 29).is_none());
    assert!(CalendarDate::from_ymd_opt(2026, 13, 1).is_none());
    assert!(CalendarDate::from_ymd_opt(2026, 4, 31).is_none());
    assert!(CalendarDate::from_ymd_opt(2026, 1, 0).is_none());
    assert!(CalendarDate::from_ymd_opt(300000, 1, 1).is_none());
}

#[test]
fn years_are_written_as_chrono_writes_them() {
    let d = |y| CalendarDate::from_ymd_opt(y, 3, 9).unwrap();
    assert_eq!(format_date("YYYY", d(999)), "0999");
    assert_eq!(format_date("YYYY", d(0)), "0000");
    assert_eq!(format_date("YYYY-MM-DD", d(-5)), "-0005-03-09");
    assert_eq!(format_date("YYYY", d(12345)), "+12345");
    assert_eq!(format_date("YYYY MMM", d(-44)), "-0044-03-09");
}

#[test]
fn tokens_are_replaced_everywhere() {
    let date = CalendarDate::from_ymd_opt(2026, 1, 3).unwrap();
    assert_eq!(format_date("YYYY/YYYY DD-DD", date), "2026/2026 03-03");
}

#[test]
fn note_path_for_a_date_uses_the_template() {
    let settings = DailyNotesSettings { folder: "Daily".to_string(), format: "YYYY/MM/DD".to_string() };
    let date = CalendarDate::from_ymd_opt(2024, 1, 15).unwrap();
    assert_eq!(note_path_for_date("/vault", &settings, date), "/vault/Daily/2024/01/15.md");
}

#[test]
fn todays_note_path_is_in_the_vault() {
    let settings = DailyNotesSettings::default();
    let path = todays_note_path("/vault", &settings).unwrap();
    assert!(path.starts_with("/vault/"));
    assert!(path.ends_with(".md"));
    assert_eq!(path.len(), "/vault/YYYY-MM-DD.md".len());
    assert_ne!(path, "/vault/YYYY-MM-DD.md");
}

#[test]
fn vault_status_covers_each_case() {
    assert!(matches!(vault_status("/v", false, false), Err(ConfigError::VaultNotFound(p)) if p == "/v"));
    assert!(matches!(vault_status("/v", true, false), Err(ConfigError::NotObsidianVault(p)) if p == "/v"));
    assert!(vault_status("/v", true, true).is_ok());
}

#[test]
fn vault_path_expansion_with_and_without_home() {
    let home = Some("/home/u".to_string());
    assert_eq!(expand_vault_path(" ~ ", home.clone()).unwrap(), "/home/u");
    assert_eq!(expand_vault_path("~/dev/note", home.clone()).unwrap(), "/home/u/dev/note");
    assert_eq!(expand_vault_path("~/dev", None).unwrap(), "~/dev");
    assert_eq!(expand_vault_path("~user/x", home.clone()).unwrap(), "~user/x");
    assert!(expand_vault_path(" \t", home).is_none());
}

#[test]
fn error_messages_for_each_variant() {
    let io = std::io::Error::new(std::io::ErrorKind::Other, "disk full");
    assert_eq!(ConfigError::Io(io).message(), "io error: disk full");
    let wrapped: MemoError = ConfigError::NotFound.into();
    assert_eq!(wrapped.message(), "not configured. run 'thn --init [<PATH>]' first");
    let io = std::io::Error::new(std::io::ErrorKind::Other, "denied");
    assert_eq!(MemoError::Io(io).message(), "denied");
}

#[test]
fn settings_files_live_under_dot_obsidian() {
    assert_eq!(daily_notes_settings_path("/vault"), "/vault/.obsidian/daily-notes.json");
    assert_eq!(
        thino_settings_path("/vault/"),
        "/vault/.obsidian/plugins/obsidian-memos/data.json"
    );
}

#[test]
fn io_failure_maps_to_config_error_by_cause() {
    let err = std::io::Error::new(std::io::ErrorKind::Other, "x");
    assert!(matches!(ConfigError::for_io(err, true), ConfigError::NotFound));
    let err = std::io::Error::new(std::io::ErrorKind::NotFound, "x");
    assert!(matches!(ConfigError::for_io(err, false), ConfigError::Io(_)));
}
