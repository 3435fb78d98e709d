use hydrofoil::identity::{default_identity_provider, ConfigIdentityProvider, GroupFacts, UserFacts};

fn s(v: &str) -> String {
    v.to_string()
}

fn alice_provider() -> ConfigIdentityProvider {
    let users = vec![(
        s("User::\"alice\""),
        UserFacts {
            attributes: vec![(s("region"), s("eu"))],
            groups: vec![s("UserGroup::\"privileged_readers\"")],
        },
    )];
    let groups = vec![
        (s("UserGroup::\"privileged_readers\""), GroupFacts { parents: vec![s("UserGroup::\"readers\"")] }),
        (s("UserGroup::\"readers\""), GroupFacts { parents: vec![] }),
    ];
    ConfigIdentityProvider::new(users, groups)
}

#[test]
fn config_provider_resolves_group_closure() {
    let e = alice_provider().enrich("User::\"alice\"");
    assert_eq!(e.groups, vec![s("UserGroup::\"privileged_readers\"")]);
    assert_eq!(e.group_entities.len(), 2);
    assert!(e.attributes.iter().any(|(k, _)| k == "region"));
    let pr = e
        .group_entities
        .iter()
        .find(|g| g.uid == "UserGroup::\"privileged_readers\"")
        .expect("direct group present");
    assert_eq!(pr.parents, vec![s("UserGroup::\"readers\"")]);
    assert!(e.group_entities.iter().any(|g| g.uid == "UserGroup::\"readers\""));
}

#[test]
fn config_provider_unknown_uid_is_empty_success() {
    let provider = ConfigIdentityProvider::new(Vec::new(), Vec::new());
    let e = provider.enrich("User::\"nobody\"");
    assert!(e.groups.is_empty());
    assert!(e.group_entities.is_empty());
    assert!(e.attributes.is_empty());
}

#[test]
fn closure_survives_cycles_and_duplicates() {
    let groups = vec![
        (s("a"), GroupFacts { parents: vec![s("b"), s("b")] }),
        (s("b"), GroupFacts { parents: vec![s("a"), s("c")] }),
    ];
    let provider = ConfigIdentityProvider::new(Vec::new(), groups);
    let mut closure = provider.group_closure(&vec![s("a"), s("a")]);
    closure.sort();
    assert_eq!(closure, vec![s("a"), s("b"), s("c")]);
    let a = provider.group_entity(&s("a"));
    assert_eq!(a.parents, vec![s("b")]);
}

#[test]
fn later_group_entry_replaces_earlier() {
    let groups = vec![
        (s("a"), GroupFacts { parents: vec![s("x")] }),
        (s("a"), GroupFacts { parents: vec![s("y")] }),
    ];
    let provider = ConfigIdentityProvider::new(Vec::new(), groups);
    let mut closure = provider.group_closure(&vec![s("a")]);
    closure.sort();
    assert_eq!(closure, vec![s("a"), s("y")]);
}

#[test]
fn default_provider_has_demo_facts() {
    let p = default_identity_provider();
    let alice = p.enrich("User::\"alice\"");
    assert_eq!(alice.group_entities.len(), 2);
    assert_eq!(alice.attributes, vec![(s("region"), s("eu"))]);
    let r2d2 = p.enrich("Agent::\"r2d2\"");
    assert!(r2d2.attributes.is_empty());
    assert_eq!(r2d2.group_entities.len(), 1);
    assert_eq!(r2d2.group_entities[0].uid, "UserGroup::\"readers\"");
}
