use mail_core::model::{Email, EmailStatus};
use mail_core::sync::{SyncAction, SyncEvent, SyncOrchestrator, SyncPhase};

fn email(id: &str) -> Email {
    Email {
        id: id.to_string(),
        from: String::new(),
        to: vec![],
        cc: vec![],
        bcc: vec![],
        subject: String::new(),
        date: String::new(),
        body: String::new(),
        attachments: vec![],
        status: EmailStatus::Draft,
    }
}

#[test]
fn cold_start_with_cache_shows_then_refreshes() {
    let mut o = SyncOrchestrator::new();
    assert!(matches!(o.on_event(SyncEvent::Open), SyncAction::LoadCache));
    match o.on_event(SyncEvent::CacheLoaded(vec![email("1")])) {
        SyncAction::ShowAndRefresh(v) => assert_eq!(v.len(), 1),
        _ => panic!("expected the cached view"),
    }
    assert_eq!(o.phase, SyncPhase::Fetching);
    assert!(o.showing);
}

#[test]
fn cold_start_with_empty_cache_fetches_all() {
    let mut o = SyncOrchestrator::new();
    o.on_event(SyncEvent::Open);
    assert!(matches!(o.on_event(SyncEvent::CacheLoaded(vec![])), SyncAction::FetchAll));
    assert!(!o.showing);
}

#[test]
fn unreadable_cache_fetches_all() {
    let mut o = SyncOrchestrator::new();
    o.on_event(SyncEvent::Open);
    assert!(matches!(o.on_event(SyncEvent::CacheFailed("io".to_string())), SyncAction::FetchAll));
}

#[test]
fn fetch_save_reload_cycle() {
    let mut o = SyncOrchestrator::new();
    o.on_event(SyncEvent::Open);
    o.on_event(SyncEvent::CacheLoaded(vec![]));
    assert!(matches!(o.on_event(SyncEvent::Fetched(vec![email("1"), email("2")])), SyncAction::Save(ref v) if v.len() == 2));
    assert!(matches!(o.on_event(SyncEvent::Saved), SyncAction::Reload));
    assert!(matches!(o.on_event(SyncEvent::Reloaded(vec![email("2"), email("1")])), SyncAction::Show(ref v) if v.len() == 2));
    assert_eq!(o.phase, SyncPhase::Idle);
    assert!(matches!(o.on_event(SyncEvent::TimerTick), SyncAction::FetchNew));
    assert!(matches!(o.on_event(SyncEvent::Fetched(vec![])), SyncAction::Save(ref v) if v.is_empty()));
}

#[test]
fn fetch_failure_without_cache_is_reported() {
    let mut o = SyncOrchestrator::new();
    o.on_event(SyncEvent::Open);
    o.on_event(SyncEvent::CacheLoaded(vec![]));
    match o.on_event(SyncEvent::FetchFailed("auth".to_string())) {
        SyncAction::Fail(e) => assert_eq!(e, "auth"),
        _ => panic!("expected an error"),
    }
    assert_eq!(o.phase, SyncPhase::Idle);
}

#[test]
fn fetch_failure_with_cache_keeps_view() {
    let mut o = SyncOrchestrator::new();
    o.on_event(SyncEvent::Open);
    o.on_event(SyncEvent::CacheLoaded(vec![email("1")]));
    assert!(matches!(o.on_event(SyncEvent::FetchFailed("net".to_string())), SyncAction::Nothing));
    assert!(o.showing);
}

#[test]
fn save_failure_is_reported() {
    let mut o = SyncOrchestrator::new();
    o.on_event(SyncEvent::Open);
    o.on_event(SyncEvent::CacheLoaded(vec![email("1")]));
    o.on_event(SyncEvent::Fetched(vec![email("2")]));
    assert!(matches!(o.on_event(SyncEvent::SaveFailed("disk".to_string())), SyncAction::Fail(_)));
}

#[test]
fn triggers_while_busy_are_absorbed() {
    let mut o = SyncOrchestrator::new();
    o.on_event(SyncEvent::Open);
    o.on_event(SyncEvent::CacheLoaded(vec![email("1")]));
    assert!(o.is_busy());
    assert!(matches!(o.on_event(SyncEvent::ManualRefresh), SyncAction::Nothing));
    assert!(matches!(o.on_event(SyncEvent::TimerTick), SyncAction::Nothing));
    assert_eq!(o.phase, SyncPhase::Fetching);
}

#[test]
fn manual_refresh_from_idle_fetches_new() {
    let mut o = SyncOrchestrator::new();
    o.on_event(SyncEvent::Open);
    o.on_event(SyncEvent::CacheLoaded(vec![email("1")]));
    o.on_event(SyncEvent::FetchFailed("x".to_string()));
    assert!(!o.is_busy());
    assert!(matches!(o.on_event(SyncEvent::ManualRefresh), SyncAction::FetchNew));
}
