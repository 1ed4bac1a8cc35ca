use sticky_notes::commands::{
    csv_escape, export_notes, purge_cutoff, reminder_window_start, ts_to_iso, PURGE_AFTER_MS,
    REMINDER_WINDOW_MS,
};
use sticky_notes::db::Note;

#[test]
fn ts_to_iso_epoch() {
    assert_eq!(ts_to_iso(0), "1970-01-01 00:00:00");
}

#[test]
fn ts_to_iso_just_before_epoch_counts_as_epoch() {
    assert_eq!(ts_to_iso(-500), "1970-01-01 00:00:00");
}

#[test]
fn ts_to_iso_known_dates() {
    assert_eq!(ts_to_iso(1700000000000), "2023-11-14 22:13:20");
    assert_eq!(ts_to_iso(1234567890123), "2009-02-13 23:31:30");
    assert_eq!(ts_to_iso(253402300799000), "9999-12-31 23:59:59");
}

#[test]
fn ts_to_iso_leap_days() {
    assert_eq!(ts_to_iso(951782400000), "2000-02-29 00:00:00");
    assert_eq!(ts_to_iso(1709164800000), "2024-02-29 00:00:00");
    assert_eq!(ts_to_iso(4102444800000), "2100-01-01 00:00:00");
}

#[test]
fn ts_to_iso_far_future_year_has_more_digits() {
    // 10000-01-01 00:00:00 UTC
    assert_eq!(ts_to_iso(253402300800000), "10000-01-01 00:00:00");
}

#[test]
fn csv_escape_plain_text_unchanged() {
    assert_eq!(csv_escape("买牛奶"), "买牛奶");
    assert_eq!(csv_escape(""), "");
}

#[test]
fn csv_escape_doubles_quotes() {
    assert_eq!(csv_escape("say \"hi\""), "say \"\"hi\"\"");
}

#[test]
fn csv_escape_prefixes_formula_starts() {
    assert_eq!(csv_escape("=cmd|' /C calc'!A0"), "'=cmd|' /C calc'!A0");
    assert_eq!(csv_escape("+1"), "'+1");
    assert_eq!(csv_escape("-1"), "'-1");
    assert_eq!(csv_escape("@x"), "'@x");
    assert_eq!(csv_escape("a=b"), "a=b");
    assert_eq!(csv_escape("\"=x"), "\"\"=x");
}

fn note(id: &str, title: &str) -> Note {
    Note { id: id.to_string(), title: title.to_string(), ..Default::default() }
}

const HEADER: &str = "\u{feff}id,标题,状态,类型,父任务ID,颜色,创建时间,完成时间,更新时间,截止日期,耗时(分钟)\n";

#[test]
fn export_notes_rejects_other_formats() {
    let r = export_notes(&vec![], "json");
    assert_eq!(r, Err("不支持的导出格式: json".to_string()));
}

#[test]
fn export_notes_empty_is_header_only() {
    assert_eq!(export_notes(&vec![], "csv"), Ok(HEADER.to_string()));
}

#[test]
fn export_notes_rows() {
    let mut a = note("n1", "=sum");
    a.created_at = 0;
    a.updated_at = 60000;
    a.completed = true;
    a.completed_at = Some(180000);
    a.due_date = Some(86400000);
    let mut b = note("n2", "child \"x\"");
    b.parent_id = Some("n1".to_string());
    b.color = "#ff0000".to_string();
    b.created_at = 120000;
    b.updated_at = 120000;
    b.completed_at = Some(90000);
    let mut c = note("n3", "back");
    c.created_at = 200000;
    c.updated_at = 200000;
    c.completed_at = Some(100000);
    let csv = export_notes(&vec![a, b, c], "csv").unwrap();
    let expected = format!(
        "{}{}{}{}",
        HEADER,
        "\"n1\",\"'=sum\",\"已完成\",\"主任务\",\"\",\"#333333\",\"1970-01-01 00:00:00\",\"1970-01-01 00:03:00\",\"1970-01-01 00:01:00\",\"1970-01-02 00:00:00\",3\n",
        "\"n2\",\"child \"\"x\"\"\",\"未完成\",\"子任务\",\"n1\",\"#ff0000\",\"1970-01-01 00:02:00\",\"1970-01-01 00:01:30\",\"1970-01-01 00:02:00\",\"\",0\n",
        "\"n3\",\"back\",\"未完成\",\"主任务\",\"\",\"#333333\",\"1970-01-01 00:03:20\",\"1970-01-01 00:01:40\",\"1970-01-01 00:03:20\",\"\",\n",
    );
    assert_eq!(csv, expected);
}

#[test]
fn purge_cutoff_is_thirty_days_back() {
    assert_eq!(PURGE_AFTER_MS, 30 * 24 * 60 * 60 * 1000);
    assert_eq!(purge_cutoff(3_000_000_000), 3_000_000_000 - 2_592_000_000);
}

#[test]
fn reminder_window_is_one_minute() {
    assert_eq!(REMINDER_WINDOW_MS, 60_000);
    assert_eq!(reminder_window_start(1_000_000), 940_000);
}

#[test]
fn export_notes_other_format_ignores_note_contents() {
    let mut n = note("old", "t");
    n.created_at = -5000;
    let r = export_notes(&vec![n], "json");
    assert_eq!(r, Err("不支持的导出格式: json".to_string()));
}
