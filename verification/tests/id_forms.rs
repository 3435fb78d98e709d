use hydrofoil::identity::default_identity_provider;
use hydrofoil::query::query_lineage_context;
use hydrofoil::sessions::SessionStore;

fn is_uuid_text(s: &str, version: char) -> bool {
    let cs: Vec<char> = s.chars().collect();
    cs.len() == 36
        && cs.iter().enumerate().all(|(i, c)| {
            if [8, 13, 18, 23].contains(&i) {
                *c == '-'
            } else {
                c.is_ascii_digit() || ('a'..='f').contains(c)
            }
        })
        && cs[14] == version
}

#[test]
fn session_ids_are_hyphenated_v4_uuids() {
    let mut store: SessionStore<u32> = SessionStore::new(1_000);
    let a = store.create(1, 0);
    let b = store.create(2, 0);
    assert!(is_uuid_text(&a, '4'), "{a}");
    assert!(is_uuid_text(&b, '4'), "{b}");
    assert_ne!(a, b);
}

#[test]
fn run_ids_are_hyphenated_v7_uuids() {
    let cx = query_lineage_context("SELECT 1");
    let id = cx.run_id.unwrap();
    assert!(is_uuid_text(&id, '7'), "{id}");
}

#[test]
fn default_identity_facts() {
    let p = default_identity_provider();
    let alice = p.enrich("User::\"alice\"");
    assert_eq!(alice.attributes, vec![("region".to_string(), "eu".to_string())]);
    assert_eq!(alice.groups, vec!["UserGroup::\"privileged_readers\"".to_string()]);
    let bob = p.enrich("User::\"bob\"");
    assert_eq!(bob.attributes, vec![("region".to_string(), "us".to_string())]);
    let r2d2 = p.enrich("Agent::\"r2d2\"");
    assert!(r2d2.attributes.is_empty());
    assert_eq!(r2d2.groups, vec!["UserGroup::\"readers\"".to_string()]);
}
