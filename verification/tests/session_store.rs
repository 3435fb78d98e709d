use std::sync::Arc;

use hydrofoil::sessions::{
    ephemeral_key, plan_handle_not_found, EnrichmentCache, LiveSession, SessionStore, StatementStore,
};
use hydrofoil::strmap::StringMap;

/// A stand-in for a session: identity is the allocation.
fn session(name: &str) -> Arc<String> {
    Arc::new(name.to_string())
}

#[test]
fn store_create_and_resolve() {
    let mut store = SessionStore::new(60_000);
    let s = session("alice");
    let id = store.create(s.clone(), 0);
    assert_eq!(id.len(), 36);
    let resolved = store.get(&id, 10).expect("session resolves by id");
    assert!(Arc::ptr_eq(&s, &resolved), "same Arc<Session> handed back");
    assert!(store.get("unknown", 10).is_none());
}

#[test]
fn ttl_evicts_idle_sessions() {
    // Zero TTL: any idle time evicts on the next sweep.
    let mut store = SessionStore::new(0);
    let id = store.create(session("alice"), 0);
    store.sweep(5);
    assert!(store.get(&id, 5).is_none(), "idle session evicted by sweep");
    assert_eq!(store.len(), 0);
}

#[test]
fn ephemeral_is_stable_per_principal() {
    let mut store = SessionStore::new(60_000);
    let a = store.insert_if_absent(ephemeral_key("User::\"alice\""), session("a"), 0);
    let a2 = store.insert_if_absent(ephemeral_key("User::\"alice\""), session("other"), 1);
    let b = store.insert_if_absent(ephemeral_key("User::\"bob\""), session("b"), 2);
    assert!(Arc::ptr_eq(&a, &a2), "same principal -> same ephemeral session");
    assert!(!Arc::ptr_eq(&a, &b), "different principal -> different session");
    assert_eq!(store.len(), 2);
}

#[test]
fn sweep_keeps_recently_used_sessions() {
    let mut store = SessionStore::new(1_000);
    let old = store.create(session("old"), 0);
    let fresh = store.create(session("fresh"), 0);
    // Using a session resets its idle time.
    assert!(store.get(&fresh, 900).is_some());
    store.sweep(1_500);
    assert!(store.get(&old, 1_500).is_none());
    assert!(store.get(&fresh, 1_500).is_some());
}

#[test]
fn insert_replaces_the_session_under_an_id() {
    let mut store = SessionStore::new(1_000);
    let first = session("first");
    let second = session("second");
    store.insert("s1".to_string(), first, 0);
    store.insert("s1".to_string(), second.clone(), 1);
    assert_eq!(store.len(), 1);
    assert!(Arc::ptr_eq(&store.get("s1", 2).unwrap(), &second));
}

#[test]
fn ephemeral_keys() {
    assert_eq!(ephemeral_key("User::\"alice\""), "ephemeral:User::\"alice\"");
    assert_eq!(SessionStore::<Arc<String>>::new(30).ttl_ms(), 30);
}

#[test]
fn resolve_by_metadata_session_id() {
    let mut store = SessionStore::new(60_000);
    let s = session("alice");
    let id = store.create(s.clone(), 0);
    let mut meta = StringMap::new();
    meta.insert("x-session-id".to_string(), id.clone());
    assert!(Arc::ptr_eq(&store.resolve(&meta, 5).unwrap(), &s));
    let mut bearer = StringMap::new();
    bearer.insert("authorization".to_string(), format!("Bearer {id} "));
    assert!(store.resolve(&bearer, 6).is_some());
    let mut unknown = StringMap::new();
    unknown.insert("x-session-id".to_string(), "expired".to_string());
    assert!(store.resolve(&unknown, 7).is_none());
    assert!(store.resolve(&StringMap::new(), 8).is_none());
}

#[test]
fn statements_age_out_by_plan_time() {
    let mut statements: StatementStore<Arc<String>> = StatementStore::new(1_000);
    statements.insert("h1".to_string(), session("plan-1"), 0);
    statements.insert("h2".to_string(), session("plan-2"), 800);
    // Reading a statement does not keep it alive.
    assert!(statements.peek("h1").is_some());
    statements.sweep(1_200);
    assert!(statements.peek("h1").is_none());
    assert!(statements.peek("h2").is_some());
    assert!(statements.remove("h2"));
    assert!(!statements.remove("h2"));
    assert_eq!(statements.len(), 0);
    assert_eq!(plan_handle_not_found("abc"), "Plan handle not found: abc");
}

#[test]
fn sweep_prunes_old_statements_of_surviving_sessions() {
    let mut store: SessionStore<LiveSession<Arc<String>, u32>> = SessionStore::new(1_000);
    let mut busy = LiveSession::new(session("busy"));
    busy.put_statement("old".to_string(), 1, 0);
    busy.put_statement("new".to_string(), 2, 900);
    store.insert("busy".to_string(), busy, 1_500);
    store.insert("idle".to_string(), LiveSession::new(session("idle")), 0);
    store.sweep_with_statements(1_600);
    assert!(store.peek_ref("idle").is_none(), "idle session evicted");
    let kept = store.peek_ref("busy").expect("busy session stays");
    assert_eq!(kept.handle().as_str(), "busy");
    assert!(kept.statements().peek("old").is_none(), "statement planned a TTL ago dropped");
    assert_eq!(kept.statements().peek("new"), Some(2));
    assert_eq!(store.len(), 1);
}

#[test]
fn enrichment_is_cached_on_success_and_fails_closed() {
    let mut cache: EnrichmentCache<Vec<String>> = EnrichmentCache::new();
    assert!(cache.cached("User::\"alice\"").is_none(), "first session asks the provider");
    let groups = vec!["UserGroup::\"readers\"".to_string()];
    let got = cache.settle("User::\"alice\"".to_string(), Ok(groups.clone()));
    assert_eq!(got, Ok(groups.clone()));
    assert_eq!(cache.cached("User::\"alice\""), Some(groups), "later sessions share it");
    let err = cache.settle("User::\"bob\"".to_string(), Err("directory unavailable".to_string()));
    assert_eq!(err, Err("directory unavailable".to_string()));
    assert!(cache.cached("User::\"bob\"").is_none(), "a failure caches nothing");
}
