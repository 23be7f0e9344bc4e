use lynx::cache::RuleCache;
use lynx::coordinator::{
    create_step, delete_step, merge_patch, update_changes_key, update_step, MutationError,
};
use lynx::models::{CreateLinkRequest, Link, LinkResponse, UpdateLinkRequest};
use lynx::redirector::{resolve, Outcome};

fn link(id: i32, host: &str, source: &str, target: &str) -> Link {
    Link {
        id,
        host: host.to_string(),
        source: source.to_string(),
        target: target.to_string(),
        created_at: 100,
    }
}

fn request(host: &str, source: &str, target: &str) -> CreateLinkRequest {
    CreateLinkRequest {
        host: host.to_string(),
        source: source.to_string(),
        target: target.to_string(),
    }
}

#[test]
fn test_create_success_inserts() {
    let mut cache = RuleCache::new();
    let req = request("go", "/x", "https://a.example.com");
    let stored = link(1, "go", "/x", "https://a.example.com");
    let created = create_step(&mut cache, &req, false, Some(stored));
    assert!(created.is_ok());
    let found = cache.lookup("go", "/x").expect("the created rule is cached");
    assert_eq!(found.target, "https://a.example.com");
    assert_eq!(cache.len(), 1);
}

#[test]
fn test_create_conflict_keeps_cache() {
    let mut cache = RuleCache::new();
    let first = request("go", "/x", "https://a.example.com");
    let stored = link(1, "go", "/x", "https://a.example.com");
    create_step(&mut cache, &first, false, Some(stored)).expect("first create succeeds");

    let second = request("go", "/x", "https://b.example.com");
    match create_step(&mut cache, &second, true, None) {
        Err(e) => assert_eq!(e, MutationError::Conflict),
        Ok(_) => panic!("a duplicate key must be refused"),
    }
    assert_eq!(cache.len(), 1);
    let found = cache.lookup("go", "/x").expect("the first rule is still cached");
    assert_eq!(found.target, "https://a.example.com");
    assert_eq!(found.id, 1);
}

#[test]
fn test_create_persistence_failure_keeps_cache() {
    let mut cache = RuleCache::new();
    let req = request("go", "/x", "https://a.example.com");
    match create_step(&mut cache, &req, false, None) {
        Err(e) => assert_eq!(e, MutationError::Persistence),
        Ok(_) => panic!("a store failure must be reported"),
    }
    assert_eq!(cache.len(), 0);
}

#[test]
fn test_merge_patch_partial_update() {
    let existing = link(7, "go", "/old", "https://old.example.com");
    let patch = UpdateLinkRequest {
        host: None,
        source: None,
        target: Some("https://new.example.com".to_string()),
    };
    let merged = merge_patch(&existing, &patch);
    assert_eq!(merged.id, 7);
    assert_eq!(merged.host, "go");
    assert_eq!(merged.source, "/old");
    assert_eq!(merged.target, "https://new.example.com");
    assert_eq!(merged.created_at, 100);
}

#[test]
fn test_update_changes_key_detection() {
    let existing = link(7, "go", "/old", "t");
    let same = link(7, "go", "/old", "t2");
    let moved = link(7, "go", "/new", "t");
    assert!(!update_changes_key(&existing, &same));
    assert!(update_changes_key(&existing, &moved));
}

#[test]
fn test_update_consistency() {
    let mut cache = RuleCache::new();
    cache.insert(link(7, "go", "/old", "https://t.example.com"));
    let patch = UpdateLinkRequest {
        host: None,
        source: Some("/new".to_string()),
        target: None,
    };
    let existing = link(7, "go", "/old", "https://t.example.com");
    let updated = update_step(&mut cache, Some(existing), &patch, false, true)
        .expect("the update succeeds");
    assert_eq!(updated.source, "/new");

    match resolve(&cache, "go", "/old", "lynx") {
        Outcome::NoMatch(_) => {},
        _ => panic!("the old pattern no longer matches"),
    }
    match resolve(&cache, "go", "/new", "lynx") {
        Outcome::ExactRedirect(target) => assert_eq!(target, "https://t.example.com"),
        _ => panic!("the new pattern matches exactly"),
    }
}

#[test]
fn test_update_conflict_keeps_cache() {
    let mut cache = RuleCache::new();
    cache.insert(link(7, "go", "/old", "https://t.example.com"));
    let patch = UpdateLinkRequest {
        host: None,
        source: Some("/taken".to_string()),
        target: None,
    };
    let existing = link(7, "go", "/old", "https://t.example.com");
    match update_step(&mut cache, Some(existing), &patch, true, true) {
        Err(e) => assert_eq!(e, MutationError::Conflict),
        Ok(_) => panic!("a conflicting key must be refused"),
    }
    assert!(cache.lookup("go", "/old").is_some());
    assert!(cache.lookup("go", "/taken").is_none());
}

#[test]
fn test_update_unknown_id() {
    let mut cache = RuleCache::new();
    let patch = UpdateLinkRequest { host: None, source: None, target: None };
    match update_step(&mut cache, None, &patch, false, true) {
        Err(e) => assert_eq!(e, MutationError::NotFound),
        Ok(_) => panic!("an unknown id must be refused"),
    }
}

#[test]
fn test_update_persistence_failure_keeps_cache() {
    let mut cache = RuleCache::new();
    cache.insert(link(7, "go", "/old", "https://t.example.com"));
    let patch = UpdateLinkRequest {
        host: None,
        source: Some("/new".to_string()),
        target: None,
    };
    let existing = link(7, "go", "/old", "https://t.example.com");
    match update_step(&mut cache, Some(existing), &patch, false, false) {
        Err(e) => assert_eq!(e, MutationError::Persistence),
        Ok(_) => panic!("a store failure must be reported"),
    }
    assert!(cache.lookup("go", "/old").is_some());
    assert!(cache.lookup("go", "/new").is_none());
}

#[test]
fn test_delete_consistency() {
    let mut cache = RuleCache::new();
    cache.insert(link(7, "go", "/x", "https://t.example.com"));
    let existing = link(7, "go", "/x", "https://t.example.com");
    delete_step(&mut cache, Some(existing), Some(true)).expect("the delete succeeds");
    assert_eq!(cache.len(), 0);
    match resolve(&cache, "go", "/x", "lynx") {
        Outcome::NoMatch(prefill) => assert_eq!(prefill, "http://lynx:3000/add?source=%2Fx"),
        _ => panic!("the deleted pattern no longer matches"),
    }
}

#[test]
fn test_delete_unknown_id() {
    let mut cache = RuleCache::new();
    match delete_step(&mut cache, None, Some(true)) {
        Err(e) => assert_eq!(e, MutationError::NotFound),
        Ok(_) => panic!("an unknown id must be refused"),
    }
}

#[test]
fn test_delete_row_already_gone() {
    let mut cache = RuleCache::new();
    cache.insert(link(7, "go", "/x", "https://t.example.com"));
    let existing = link(7, "go", "/x", "https://t.example.com");
    match delete_step(&mut cache, Some(existing), Some(false)) {
        Err(e) => assert_eq!(e, MutationError::NotFound),
        Ok(_) => panic!("a vanished row is reported as not found"),
    }
    assert_eq!(cache.len(), 1);
}

#[test]
fn test_delete_persistence_failure_keeps_cache() {
    let mut cache = RuleCache::new();
    cache.insert(link(7, "go", "/x", "https://t.example.com"));
    let existing = link(7, "go", "/x", "https://t.example.com");
    match delete_step(&mut cache, Some(existing), None) {
        Err(e) => assert_eq!(e, MutationError::Persistence),
        Ok(_) => panic!("a store failure must be reported"),
    }
    assert!(cache.lookup("go", "/x").is_some());
}

#[test]
fn test_load_replaces_contents() {
    let cache = RuleCache::load(vec![
        link(1, "go", "/a", "https://a.example.com"),
        link(2, "go", "/b", "https://b.example.com"),
        link(3, "docs", "/a", "https://c.example.com"),
    ]);
    assert_eq!(cache.len(), 3);
    assert_eq!(cache.lookup("go", "/a").unwrap().target, "https://a.example.com");
    assert_eq!(cache.lookup("go", "/b").unwrap().target, "https://b.example.com");
    assert_eq!(cache.lookup("docs", "/a").unwrap().target, "https://c.example.com");
    assert!(cache.lookup("go", "/c").is_none());
}

#[test]
fn test_insert_replaces_same_key() {
    let mut cache = RuleCache::new();
    cache.insert(link(1, "go", "/x", "https://a.example.com"));
    cache.insert(link(2, "go", "/x", "https://b.example.com"));
    assert_eq!(cache.len(), 1);
    let found = cache.lookup("go", "/x").unwrap();
    assert_eq!(found.id, 2);
    assert_eq!(found.target, "https://b.example.com");
}

#[test]
fn test_scan_host_filters_by_host() {
    let mut cache = RuleCache::new();
    cache.insert(link(1, "go", "/a", "https://a.example.com"));
    cache.insert(link(2, "docs", "/b", "https://b.example.com"));
    cache.insert(link(3, "go", "/c", "https://c.example.com"));
    let scanned = cache.scan_host("go");
    assert_eq!(scanned.len(), 2);
    assert!(scanned.iter().all(|l| l.host == "go"));
}

#[test]
fn test_link_response_copies_fields() {
    let r = LinkResponse::of_link(link(9, "go", "/x", "https://t.example.com"));
    assert_eq!(r.id, 9);
    assert_eq!(r.host, "go");
    assert_eq!(r.source, "/x");
    assert_eq!(r.target, "https://t.example.com");
    assert_eq!(r.created_at, 100);
}
