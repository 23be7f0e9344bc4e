use lynx::cache::RuleCache;
use lynx::redirector::{
    find_matching_rule, is_parameterized_match, resolve, substitute_parameters, Outcome,
};
use lynx::models::Link;

fn create_test_link(id: i32, host: &str, source: &str, target: &str) -> Link {
    Link {
        id,
        host: host.to_string(),
        source: source.to_string(),
        target: target.to_string(),
        created_at: 0,
    }
}

fn cache_with(links: Vec<Link>) -> RuleCache {
    let mut cache = RuleCache::new();
    for link in links {
        cache.insert(link);
    }
    cache
}

#[test]
fn test_exact_match() {
    let cache = cache_with(vec![create_test_link(1, "go", "/test", "https://example.com")]);
    let result = find_matching_rule(&cache, "go", "/test");
    assert_eq!(result, Some("https://example.com".to_string()));
}

#[test]
fn test_parameterized_match() {
    let cache = cache_with(vec![create_test_link(
        1,
        "go",
        "/user/{id}",
        "https://example.com/profile?id={id}",
    )]);
    let result = find_matching_rule(&cache, "go", "/user/123");
    assert_eq!(result, Some("https://example.com/profile?id=123".to_string()));
}

#[test]
fn test_progressive_path_splitting() {
    let cache = cache_with(vec![create_test_link(1, "go", "/docs", "https://example.com/documentation")]);
    let result = find_matching_rule(&cache, "go", "/docs/api/v1");
    assert_eq!(result, Some("https://example.com/documentation".to_string()));
}

#[test]
fn test_is_parameterized_match() {
    assert!(is_parameterized_match("/user/{id}", "/user/123"));
    assert!(is_parameterized_match("/api/v1/{endpoint}", "/api/v1/users"));
    assert!(!is_parameterized_match("/user/static", "/user/123"));
    assert!(!is_parameterized_match("/user/{id", "/user/123"));
}

#[test]
fn test_substitute_parameters() {
    let result =
        substitute_parameters("/user/{id}", "https://example.com/profile?id={id}", "/user/123");
    assert_eq!(result, "https://example.com/profile?id=123");

    let result =
        substitute_parameters("/api/{version}", "https://api.example.com/{version}/data", "/api/v2");
    assert_eq!(result, "https://api.example.com/v2/data");
}

#[test]
fn test_substitute_repeated_placeholder() {
    let result = substitute_parameters("/api/{v}", "https://x/{v}/y/{v}", "/api/v2");
    assert_eq!(result, "https://x/v2/y/v2");
}

#[test]
fn test_substitute_empty_parameter_name() {
    let result = substitute_parameters("/x/{}", "q{}z", "/x/7");
    assert_eq!(result, "q7z");
}

#[test]
fn test_exact_match_takes_precedence() {
    let cache = cache_with(vec![
        create_test_link(1, "go", "/user/{id}", "https://param.example.com"),
        create_test_link(2, "go", "/user/123", "https://exact.example.com"),
        create_test_link(3, "go", "/user", "https://ancestor.example.com"),
    ]);
    match resolve(&cache, "go", "/user/123", "lynx") {
        Outcome::ExactRedirect(target) => assert_eq!(target, "https://exact.example.com"),
        _ => panic!("expected an exact redirect"),
    }
}

#[test]
fn test_resolve_parameterized_outcome() {
    let cache = cache_with(vec![create_test_link(
        1,
        "go",
        "/user/{id}",
        "https://example.com/profile?id={id}",
    )]);
    match resolve(&cache, "go", "/user/456", "lynx") {
        Outcome::ExactRedirect(target) => {
            assert_eq!(target, "https://example.com/profile?id=456")
        },
        _ => panic!("expected a parameterized redirect"),
    }
}

#[test]
fn test_resolve_suffix_outcome() {
    let cache = cache_with(vec![create_test_link(1, "go", "/docs", "https://example.com/documentation")]);
    match resolve(&cache, "go", "/docs/api", "lynx") {
        Outcome::SuffixRedirect(target) => assert_eq!(target, "https://example.com/documentation"),
        _ => panic!("expected a suffix redirect"),
    }
}

#[test]
fn test_suffix_truncates_at_rightmost_separator() {
    let cache = cache_with(vec![create_test_link(1, "go", "/a/b", "https://b.example.com")]);
    match resolve(&cache, "go", "/a/b.c?d", "lynx") {
        Outcome::SuffixRedirect(target) => assert_eq!(target, "https://b.example.com"),
        _ => panic!("expected a suffix redirect"),
    }
}

#[test]
fn test_redirector_no_match() {
    let cache = RuleCache::new();
    match resolve(&cache, "go", "/nonexistent", "lynx") {
        Outcome::NoMatch(prefill) => {
            assert_eq!(prefill, "http://lynx:3000/add?source=%2Fnonexistent");
        },
        _ => panic!("expected no match"),
    }
}

#[test]
fn test_no_match_on_other_host() {
    let cache = cache_with(vec![create_test_link(1, "go", "/test", "https://example.com")]);
    match resolve(&cache, "other", "/test", "lynx") {
        Outcome::NoMatch(prefill) => {
            assert_eq!(prefill, "http://lynx:3000/add?source=%2Ftest");
        },
        _ => panic!("expected no match"),
    }
}

#[test]
fn test_longest_prefix_wins() {
    let cache = cache_with(vec![
        create_test_link(2, "go", "/a/{x}", "https://short/{x}"),
        create_test_link(1, "go", "/a/b/{y}", "https://long/{y}"),
    ]);
    match resolve(&cache, "go", "/a/b/c", "lynx") {
        Outcome::ExactRedirect(target) => assert_eq!(target, "https://long/c"),
        _ => panic!("expected a parameterized redirect"),
    }
}

#[test]
fn test_equal_prefix_lowest_id_wins() {
    let cache = cache_with(vec![
        create_test_link(5, "go", "/a/{x}", "https://five/{x}"),
        create_test_link(3, "go", "/a/{y}", "https://three/{y}"),
    ]);
    match resolve(&cache, "go", "/a/q", "lynx") {
        Outcome::ExactRedirect(target) => assert_eq!(target, "https://three/q"),
        _ => panic!("expected a parameterized redirect"),
    }
}

#[test]
fn test_empty_path_no_match() {
    let cache = cache_with(vec![create_test_link(1, "go", "/test", "https://example.com")]);
    match resolve(&cache, "go", "", "lynx") {
        Outcome::NoMatch(prefill) => assert_eq!(prefill, "http://lynx:3000/add?source="),
        _ => panic!("expected no match"),
    }
}
