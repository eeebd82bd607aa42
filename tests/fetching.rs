use mail_core::clock::SyncTime;
use mail_core::fetch::{
    parse_email, plan_fetch, plan_fetch_excluding, search_command, select_window, sequence_set, FetchBatch, FetchOutcome,
    FETCH_WINDOW,
};
use mail_core::mime::{NO_SUBJECT, UNKNOWN_DATE, UNKNOWN_SENDER};
use mail_core::model::EmailStatus;

fn raw_message(date: &str, subject: &str) -> String {
    format!("From: Ann <ann@example.com>\r\nTo: bob@example.com\r\nTo: carl@example.com\r\nCc: dee@example.com\r\nSubject: {}\r\nDate: {}\r\n\r\nbody of {}", subject, date, subject)
}

#[test]
fn window_of_45_ids_is_30_most_recent() {
    let ids: Vec<u32> = (1..=45).rev().collect();
    let w = select_window(&ids);
    assert_eq!(w.len(), FETCH_WINDOW);
    assert_eq!(w, (16..=45).collect::<Vec<u32>>());
}

#[test]
fn window_keeps_all_of_few_ids_sorted_once() {
    let w = select_window(&vec![7, 3, 9, 3]);
    assert_eq!(w, vec![3, 7, 9]);
}

#[test]
fn sequence_set_lists_ids() {
    assert_eq!(sequence_set(&vec![3, 7, 12]), "3,7,12");
    assert_eq!(sequence_set(&vec![]), "");
}

#[test]
fn plan_for_empty_search_is_none() {
    assert_eq!(plan_fetch(&vec![]), None);
    assert_eq!(plan_fetch(&vec![2, 1]), Some("1,2".to_string()));
}

#[test]
fn plan_for_45_ids_starts_at_16() {
    let ids: Vec<u32> = (1..=45).collect();
    let plan = plan_fetch(&ids).unwrap();
    assert!(plan.starts_with("16,17,"));
    assert!(plan.ends_with(",45"));
}

#[test]
fn search_all_without_last_sync() {
    assert_eq!(search_command(&None), "ALL");
}

#[test]
fn search_since_formats_day() {
    let t = SyncTime { secs: 1_704_067_200, nanos: 0 };
    assert_eq!(search_command(&Some(t)), "SINCE 01-Jan-2024");
    let t2 = SyncTime { secs: 1_718_454_896, nanos: 5 };
    assert_eq!(search_command(&Some(t2)), "SINCE 15-Jun-2024");
}

#[test]
fn search_beyond_date_range_is_all() {
    let t = SyncTime { secs: i64::MAX, nanos: 0 };
    assert_eq!(search_command(&Some(t)), "ALL");
}

#[test]
fn email_built_from_headers() {
    let e = parse_email(42, raw_message("Mon, 1 Jan 2024 10:00:00 +0000", "greeting").as_bytes()).unwrap();
    assert_eq!(e.id, "42");
    assert_eq!(e.from, "Ann <ann@example.com>");
    assert_eq!(e.to, vec!["bob@example.com".to_string(), "carl@example.com".to_string()]);
    assert_eq!(e.cc, vec!["dee@example.com".to_string()]);
    assert!(e.bcc.is_empty());
    assert_eq!(e.subject, "greeting");
    assert_eq!(e.date, "Mon, 1 Jan 2024 10:00:00 +0000");
    assert_eq!(e.body, "body of greeting");
    assert_eq!(e.status, EmailStatus::Draft);
}

#[test]
fn header_lookup_ignores_case() {
    let e = parse_email(1, b"FROM: x@y.z\r\nsubject: low\r\n\r\nbody").unwrap();
    assert_eq!(e.from, "x@y.z");
    assert_eq!(e.subject, "low");
}

#[test]
fn missing_headers_get_fallbacks() {
    let e = parse_email(7, b"X-Other: 1\r\n\r\nbody").unwrap();
    assert_eq!(e.from, UNKNOWN_SENDER);
    assert_eq!(e.subject, NO_SUBJECT);
    assert_eq!(e.date, UNKNOWN_DATE);
    assert!(e.to.is_empty());
}

#[test]
fn excluded_id_is_left_out() {
    let mut batch = FetchBatch::new(vec!["5".to_string()]);
    let a = raw_message("2024-01-01", "four");
    let b = raw_message("2024-01-02", "five");
    let c = raw_message("2024-01-03", "six");
    assert_eq!(batch.accept(4, a.as_bytes()), FetchOutcome::Added);
    assert_eq!(batch.accept(5, b.as_bytes()), FetchOutcome::Excluded);
    assert_eq!(batch.accept(6, c.as_bytes()), FetchOutcome::Added);
    let out = batch.finish();
    let ids: Vec<&str> = out.iter().map(|e| e.id.as_str()).collect();
    assert_eq!(ids, vec!["6", "4"]);
}

#[test]
fn batch_is_newest_first() {
    let mut batch = FetchBatch::new(vec![]);
    for (seq, date) in [(1u32, "2024-03-01"), (2, "2024-05-01"), (3, "2024-04-01")] {
        let raw = raw_message(date, "x");
        assert_eq!(batch.accept(seq, raw.as_bytes()), FetchOutcome::Added);
    }
    let dates: Vec<String> = batch.finish().into_iter().map(|e| e.date).collect();
    assert_eq!(dates, vec!["2024-05-01", "2024-04-01", "2024-03-01"]);
}

#[test]
fn same_sequence_number_is_gathered_once() {
    let mut batch = FetchBatch::new(vec![]);
    let a = raw_message("2024-01-01", "a");
    assert_eq!(batch.accept(3, a.as_bytes()), FetchOutcome::Added);
    assert_eq!(batch.accept(3, a.as_bytes()), FetchOutcome::Duplicate);
    assert_eq!(batch.finish().len(), 1);
}

#[test]
fn stored_ids_are_not_requested() {
    let ids: Vec<u32> = (1..=45).collect();
    let stored: Vec<String> = (40..=45).map(|n: u32| n.to_string()).collect();
    let plan = plan_fetch_excluding(&ids, &stored).unwrap();
    assert!(plan.starts_with("16,17,"));
    assert!(plan.ends_with(",38,39"));
    assert_eq!(plan.split(',').count(), 24);
    assert_eq!(plan_fetch_excluding(&vec![5], &vec!["5".to_string()]), None);
}

#[test]
fn fallback_header_texts() {
    assert_eq!(UNKNOWN_SENDER, "未知发件人");
    assert_eq!(NO_SUBJECT, "无主题");
    assert_eq!(UNKNOWN_DATE, "未知日期");
}
