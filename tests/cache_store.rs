use mail_core::clock::SyncTime;
use mail_core::model::{Email, EmailAccount, EmailStatus};
use mail_core::order::sort_by_date_desc;
use mail_core::store::{record_file_name, record_id, sanitize_address, AccountIds, AppState, LocalStorage};

fn email(id: &str, date: &str) -> Email {
    Email {
        id: id.to_string(),
        from: "a@example.com".to_string(),
        to: vec!["b@example.com".to_string()],
        cc: vec![],
        bcc: vec![],
        subject: format!("subject {}", id),
        date: date.to_string(),
        body: "text".to_string(),
        attachments: vec![],
        status: EmailStatus::Draft,
    }
}

fn account(address: &str) -> EmailAccount {
    EmailAccount { address: address.to_string(), ..EmailAccount::default() }
}

fn store() -> LocalStorage {
    LocalStorage::new("/data/mail".to_string(), AppState::new())
}

#[test]
fn saving_twice_writes_nothing_new() {
    let mut s = store();
    let acc = account("me@example.com");
    let batch = vec![email("1", "2024-01-01"), email("2", "2024-01-02")];
    let first = s.save_emails_at(&acc, "INBOX", &batch, SyncTime { secs: 100, nanos: 0 });
    assert_eq!(first.writes.len(), 2);
    let ids_after_first = s.get_synced_ids(&acc);
    let second = s.save_emails_at(&acc, "INBOX", &batch, SyncTime { secs: 200, nanos: 0 });
    assert!(second.writes.is_empty());
    assert_eq!(s.get_synced_ids(&acc), ids_after_first);
    assert_eq!(ids_after_first, vec!["1".to_string(), "2".to_string()]);
}

#[test]
fn duplicate_ids_in_one_batch_are_written_once() {
    let mut s = store();
    let acc = account("me@example.com");
    let batch = vec![email("9", "d"), email("9", "d"), email("3", "c")];
    let plan = s.save_emails_at(&acc, "INBOX", &batch, SyncTime { secs: 1, nanos: 0 });
    let idx: Vec<usize> = plan.writes.iter().map(|w| w.index).collect();
    assert_eq!(idx, vec![0, 2]);
    assert_eq!(s.get_synced_ids(&acc), vec!["9".to_string(), "3".to_string()]);
}

#[test]
fn save_plan_names_record_paths() {
    let mut s = store();
    let acc = account("john.doe@mail.com");
    let plan = s.save_emails_at(&acc, "INBOX", &vec![email("17", "x")], SyncTime { secs: 5, nanos: 0 });
    assert_eq!(plan.folder, "/data/mail/john_dot_doe_at_mail_dot_com/INBOX");
    assert_eq!(plan.writes[0].path, "/data/mail/john_dot_doe_at_mail_dot_com/INBOX/17.json");
    assert_eq!(plan.writes[0].index, 0);
}

#[test]
fn accounts_keep_separate_ids() {
    let mut s = store();
    let a = account("a@x.org");
    let b = account("b@x.org");
    s.save_emails_at(&a, "INBOX", &vec![email("1", "x")], SyncTime { secs: 1, nanos: 0 });
    s.save_emails_at(&b, "INBOX", &vec![email("1", "x"), email("2", "y")], SyncTime { secs: 2, nanos: 0 });
    assert_eq!(s.get_synced_ids(&a), vec!["1".to_string()]);
    assert_eq!(s.get_synced_ids(&b), vec!["1".to_string(), "2".to_string()]);
    assert!(s.get_synced_ids(&account("c@x.org")).is_empty());
}

#[test]
fn sync_cycle_from_empty_cache() {
    let mut s = store();
    let acc = account("me@example.com");
    assert_eq!(s.get_last_sync(), None);
    let fetched = vec![email("1", "2024-01-01 08:00"), email("2", "2024-02-01 08:00")];
    let t1 = SyncTime { secs: 1_000, nanos: 0 };
    let plan = s.save_emails_at(&acc, "INBOX", &fetched, t1);
    assert_eq!(plan.writes.len(), 2);
    assert_eq!(s.get_last_sync(), Some(t1));
    let reloaded = sort_by_date_desc(plan.writes.iter().map(|w| fetched[w.index].clone()).collect());
    let ids: Vec<&str> = reloaded.iter().map(|e| e.id.as_str()).collect();
    assert_eq!(ids, vec!["2", "1"]);
    let t2 = SyncTime { secs: 2_000, nanos: 0 };
    let again = s.save_emails_at(&acc, "INBOX", &vec![], t2);
    assert!(again.writes.is_empty());
    assert_eq!(s.get_synced_ids(&acc), vec!["1".to_string(), "2".to_string()]);
    assert_eq!(s.get_last_sync(), Some(t2));
}

#[test]
fn load_order_is_descending_date_text() {
    let v = vec![email("a", "2023-12-31"), email("b", "2024-06-01"), email("c", "2024-01-15")];
    let ids: Vec<String> = sort_by_date_desc(v).into_iter().map(|e| e.id).collect();
    assert_eq!(ids, vec!["b", "c", "a"]);
}

#[test]
fn equal_dates_keep_their_order() {
    let v = vec![email("x", "same"), email("y", "same"), email("z", "zzz")];
    let ids: Vec<String> = sort_by_date_desc(v).into_iter().map(|e| e.id).collect();
    assert_eq!(ids, vec!["z", "x", "y"]);
}

#[test]
fn sort_of_empty_list_is_empty() {
    assert!(sort_by_date_desc(vec![]).is_empty());
}

#[test]
fn address_is_sanitized() {
    assert_eq!(sanitize_address("a.b@c.d"), "a_dot_b_at_c_dot_d");
    assert_eq!(sanitize_address(""), "");
}

#[test]
fn record_file_names_round_trip() {
    assert_eq!(record_file_name("12"), "12.json");
    assert_eq!(record_id("12.json"), Some("12".to_string()));
    assert_eq!(record_id("notes.txt"), None);
    assert_eq!(record_id(".json"), None);
}

#[test]
fn folder_path_joins_parts() {
    let s = store();
    let acc = account("x@y.z");
    assert_eq!(s.get_account_path(&acc), "/data/mail/x_at_y_dot_z");
    assert_eq!(s.get_folder_path(&acc, "Sent"), "/data/mail/x_at_y_dot_z/Sent");
}

#[test]
fn index_from_stored_parts_is_cleaned() {
    let entries = vec![
        AccountIds { account: "a@x".to_string(), ids: vec!["1".to_string(), "2".to_string(), "1".to_string()] },
        AccountIds { account: "b@x".to_string(), ids: vec!["7".to_string()] },
        AccountIds { account: "a@x".to_string(), ids: vec!["9".to_string()] },
    ];
    let t = SyncTime { secs: 42, nanos: 7 };
    let state = AppState::from_index(Some(t), entries);
    assert_eq!(state.last_sync, Some(t));
    assert_eq!(state.synced_ids("a@x"), vec!["1".to_string(), "2".to_string()]);
    assert_eq!(state.synced_ids("b@x"), vec!["7".to_string()]);
    assert!(state.synced_ids("c@x").is_empty());
}

#[test]
fn save_at_current_time_sets_last_sync() {
    let mut s = store();
    let acc = account("me@example.com");
    let plan = s.save_emails(&acc, "INBOX", &vec![email("1", "x")]);
    assert_eq!(plan.writes.len(), 1);
    let t = s.get_last_sync().expect("last sync is set");
    assert!(t.secs > 1_600_000_000);
}
