use todo_calendar::{
    count_todos, escape_ical_text, parse_calendar, parse_vtodo_from_lines, serialize_calendar,
    serialize_calendar_at, stamp_from_parts, Todo,
};

fn lines(v: &[&str]) -> Vec<String> {
    v.iter().map(|s| s.to_string()).collect()
}

fn base_todo() -> Todo {
    Todo {
        id: "abc-1".to_string(),
        title: "Buy milk".to_string(),
        description: String::new(),
        completed: false,
        priority: "medium".to_string(),
        category: None,
        due_date: None,
        created_at: None,
        calendar_name: "personal".to_string(),
    }
}

#[test]
fn escape_special_characters() {
    let escaped = escape_ical_text("Call Bob; bring milk, then go");
    assert_eq!(escaped, "Call Bob\\; bring milk\\, then go");
    assert_eq!(unescape(&escaped), "Call Bob; bring milk, then go");
}

fn unescape(s: &str) -> String {
    todo_calendar::unescape_ical_text(s)
}

#[test]
fn escape_backslash_and_newline() {
    assert_eq!(escape_ical_text("a\\b"), "a\\\\b");
    assert_eq!(escape_ical_text("a\nb"), "a\\nb");
    assert_eq!(unescape("a\\\\b"), "a\\b");
    assert_eq!(unescape("a\\nb"), "a\nb");
    assert_eq!(unescape("a\\Nb"), "a\nb");
}

#[test]
fn escape_drops_control_characters() {
    assert_eq!(escape_ical_text("a\rb\0c\u{1}d"), "abcd");
    assert_eq!(escape_ical_text("a\tb"), "a\tb");
}

#[test]
fn unescape_collapses_over_escaped_input() {
    // doubled backslashes collapse to one before expansion
    assert_eq!(unescape("\\\\\\\\"), "\\");
    assert_eq!(unescape("\\\\n"), "\n");
}

#[test]
fn escape_round_trip() {
    let texts = ["hello", "a;b,c", "line1\nline2", "tab\there", "back\\slash x"];
    for t in texts {
        assert_eq!(unescape(&escape_ical_text(t)), t);
    }
}

#[test]
fn priority_buckets() {
    let cases = [
        ("1", "high"),
        ("2", "high"),
        ("3", "high"),
        ("4", "medium"),
        ("5", "medium"),
        ("6", "medium"),
        ("7", "low"),
        ("8", "low"),
        ("9", "low"),
        ("", "medium"),
        ("0", "medium"),
        ("10", "medium"),
        ("abc", "medium"),
    ];
    for (input, expected) in cases {
        let block = lines(&[&format!("PRIORITY:{}", input)]);
        let todo = parse_vtodo_from_lines(&block, "cal");
        assert_eq!(todo.priority, expected, "priority input {:?}", input);
    }
}

#[test]
fn parse_basic_block() {
    let block = lines(&[
        "UID:abc-1",
        "SUMMARY:Buy milk",
        "STATUS:NEEDS-ACTION",
        "PRIORITY:2",
        "DUE:20250615",
    ]);
    let todo = parse_vtodo_from_lines(&block, "personal");
    assert_eq!(todo.id, "abc-1");
    assert_eq!(todo.title, "Buy milk");
    assert!(!todo.completed);
    assert_eq!(todo.priority, "high");
    assert_eq!(todo.due_date, Some("2025-06-15".to_string()));
    assert_eq!(todo.calendar_name, "personal");
}

#[test]
fn parse_defaults_id_and_title() {
    let block = lines(&["STATUS:COMPLETED"]);
    let todo = parse_vtodo_from_lines(&block, "cal");
    assert!(!todo.id.is_empty());
    assert_eq!(todo.id.len(), 36);
    assert_eq!(todo.title, "Untitled Task");
    assert!(todo.completed);
    let other = parse_vtodo_from_lines(&block, "cal");
    assert_ne!(todo.id, other.id);
}

#[test]
fn created_last_write_wins() {
    let block = lines(&["CREATED:20250101T120000Z", "DTSTAMP:20250102T130000Z"]);
    let todo = parse_vtodo_from_lines(&block, "cal");
    assert_eq!(todo.created_at, Some("2025-01-02T13:00:00".to_string()));
}

#[test]
fn created_date_only_shape() {
    let block = lines(&["CREATED:20250101"]);
    let todo = parse_vtodo_from_lines(&block, "cal");
    assert_eq!(todo.created_at, Some("2025-01-01".to_string()));
}

#[test]
fn bad_dates_are_dropped() {
    let t = parse_vtodo_from_lines(&lines(&["DUE:20251301"]), "cal");
    assert_eq!(t.due_date, None);
    let t = parse_vtodo_from_lines(&lines(&["DUE:2025"]), "cal");
    assert_eq!(t.due_date, None);
    let t = parse_vtodo_from_lines(&lines(&["DUE:abcdefgh"]), "cal");
    assert_eq!(t.due_date, None);
    let t = parse_vtodo_from_lines(&lines(&["CREATED:20250101T9900"]), "cal");
    assert_eq!(t.created_at, None);
    // leap years
    let t = parse_vtodo_from_lines(&lines(&["DUE:20240229"]), "cal");
    assert_eq!(t.due_date, Some("2024-02-29".to_string()));
    let t = parse_vtodo_from_lines(&lines(&["DUE:20230229"]), "cal");
    assert_eq!(t.due_date, None);
}

#[test]
fn parameters_after_semicolon_are_ignored() {
    let block = lines(&["DUE;VALUE=DATE:20250615", "SUMMARY;LANGUAGE=en:Hi"]);
    let todo = parse_vtodo_from_lines(&block, "cal");
    assert_eq!(todo.due_date, Some("2025-06-15".to_string()));
    assert_eq!(todo.title, "Hi");
}

#[test]
fn scanner_counts_and_extracts() {
    let text = "BEGIN:VCALENDAR\r\nBEGIN:VTODO\r\nUID:a\r\nEND:VTODO\r\nBEGIN:VTODO\r\nUID:b\r\nEND:VTODO\r\nBEGIN:VTODO\r\nUID:c\r\nEND:VTODO\r\nBEGIN:VTODO\r\nUID:d\r\n";
    assert_eq!(count_todos(text), 4);
    let todos = parse_calendar(text, "cal");
    assert_eq!(todos.len(), 3);
    assert_eq!(todos[0].id, "a");
    assert_eq!(todos[1].id, "b");
    assert_eq!(todos[2].id, "c");
}

#[test]
fn parse_empty_and_malformed_text() {
    assert_eq!(parse_calendar("", "cal").len(), 0);
    assert_eq!(parse_calendar("no markers here\njust text", "cal").len(), 0);
    assert_eq!(count_todos(""), 0);
}

#[test]
fn serialize_low_priority_line() {
    let mut t = base_todo();
    t.priority = "low".to_string();
    let st = stamp_from_parts(2025, 6, 1, 12, 0, 0);
    let text = serialize_calendar_at(&vec![t], &st);
    assert!(text.contains("PRIORITY:9\r\n"));
}

#[test]
fn serialize_exact_text() {
    let mut t = base_todo();
    t.description = "Notes; with, stuff".to_string();
    t.completed = true;
    t.priority = "high".to_string();
    t.category = Some("errands".to_string());
    t.due_date = Some("2025-06-15".to_string());
    t.created_at = Some("2025-01-02T13:00:00".to_string());
    let st = stamp_from_parts(2025, 6, 1, 12, 30, 45);
    let text = serialize_calendar_at(&vec![t], &st);
    let expected = "BEGIN:VCALENDAR\r\nVERSION:2.0\r\nPRODID:-//Todo Calendar//Todo Calendar//EN\r\nCALSCALE:GREGORIAN\r\nBEGIN:VTODO\r\nUID:abc-1\r\nSUMMARY:Buy milk\r\nDESCRIPTION:Notes\\; with\\, stuff\r\nSTATUS:COMPLETED\r\nPRIORITY:1\r\nCATEGORIES:errands\r\nDUE:20250615\r\nCREATED:20250102T130000Z\r\nDTSTAMP:20250601T123045Z\r\nEND:VTODO\r\nEND:VCALENDAR\r\n";
    assert_eq!(text, expected);
}

#[test]
fn serialize_skips_unencodable_dates() {
    let mut t = base_todo();
    t.due_date = Some("not a date".to_string());
    t.created_at = Some("2025-13-01".to_string());
    let st = stamp_from_parts(2025, 6, 1, 0, 0, 0);
    let text = serialize_calendar_at(&vec![t], &st);
    assert!(!text.contains("DUE:"));
    assert!(!text.contains("CREATED:"));
    assert!(text.contains("DTSTAMP:"));
}

#[test]
fn serialize_parse_round_trip() {
    let mut t = base_todo();
    t.description = "pick up; eggs, too".to_string();
    t.priority = "low".to_string();
    t.category = Some("home".to_string());
    t.due_date = Some("2024-02-29".to_string());
    t.created_at = Some("2020-05-05".to_string());
    let st = stamp_from_parts(2025, 6, 1, 12, 30, 45);
    let text = serialize_calendar_at(&vec![t.clone()], &st);
    let back = parse_calendar(&text, "other");
    assert_eq!(back.len(), 1);
    let b = &back[0];
    assert_eq!(b.id, t.id);
    assert_eq!(b.title, t.title);
    assert_eq!(b.description, t.description);
    assert_eq!(b.completed, t.completed);
    assert_eq!(b.priority, t.priority);
    assert_eq!(b.category, t.category);
    assert_eq!(b.due_date, t.due_date);
    // DTSTAMP is written after CREATED and the later line wins
    assert_eq!(b.created_at, Some("2025-06-01T12:30:45".to_string()));
    assert_eq!(b.calendar_name, "other");
}

#[test]
fn serialize_with_clock_has_stamp() {
    let t = base_todo();
    let text = serialize_calendar(&vec![t]);
    assert!(text.starts_with("BEGIN:VCALENDAR\r\n"));
    assert!(text.ends_with("END:VCALENDAR\r\n"));
    assert!(text.contains("DTSTAMP:"));
    let back = parse_calendar(&text, "cal");
    assert_eq!(back.len(), 1);
    assert!(back[0].created_at.is_some());
}

#[test]
fn stamp_falls_back_on_bad_parts() {
    let st = stamp_from_parts(-50, 2, 30, 1, 2, 3);
    let t = base_todo();
    let text = serialize_calendar_at(&vec![t], &st);
    assert!(text.contains("DTSTAMP:19700101T000000Z\r\n"));
}

#[test]
fn blank_and_unknown_lines_are_ignored() {
    let block = lines(&["", "   ", "X-CUSTOM:whatever", "no colon line", "UID:u1", "SUMMARY:s"]);
    let todo = parse_vtodo_from_lines(&block, "cal");
    assert_eq!(todo.id, "u1");
    assert_eq!(todo.title, "s");
}

#[test]
fn summary_unescapes_value() {
    let block = lines(&["SUMMARY:Call Bob\\; bring milk\\, then go", "DESCRIPTION:a\\nb"]);
    let todo = parse_vtodo_from_lines(&block, "cal");
    assert_eq!(todo.title, "Call Bob; bring milk, then go");
    assert_eq!(todo.description, "a\nb");
}
