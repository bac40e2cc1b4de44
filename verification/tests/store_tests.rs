use rusdirect::cleaner::{ExcessCleaner, ExpirationCleaner};
use rusdirect::handler::{insert, redirect, RedirectResponse};
use rusdirect::redirection::RedirectionRequest;
use rusdirect::store::RedirectTable;

fn req(path: Option<&str>, target: &str) -> RedirectionRequest {
    RedirectionRequest {
        path: path.map(|p| p.to_string()),
        target: target.to_string(),
    }
}

fn target_of(r: &RedirectResponse) -> Option<String> {
    match r {
        RedirectResponse::Temporary(t) => Some(t.clone()),
        RedirectResponse::NotFound => None,
    }
}

#[test]
fn insert_then_lookup_returns_target() {
    let mut table = RedirectTable::new();
    let cleaner = ExcessCleaner { limit: 10 };
    let status = insert(&mut table, &req(Some("x"), "https://example.com"), 100, 50, &cleaner);
    assert_eq!(status, 201);
    let r = redirect(&table, "/x");
    assert_eq!(target_of(&r), Some("https://example.com".to_string()));
    assert_eq!(r.status_code(), 307);
}

#[test]
fn lookup_normalizes_bare_host() {
    let mut table = RedirectTable::new();
    let cleaner = ExcessCleaner { limit: 10 };
    insert(&mut table, &req(Some("a"), "example.com"), 0, 60, &cleaner);
    insert(&mut table, &req(Some("b"), "https://example.com"), 0, 60, &cleaner);
    assert_eq!(
        target_of(&redirect(&table, "/a")),
        Some("http://example.com".to_string())
    );
    assert_eq!(
        target_of(&redirect(&table, "/b")),
        Some("https://example.com".to_string())
    );
}

#[test]
fn reinsert_replaces_without_duplicates() {
    let mut table = RedirectTable::new();
    let cleaner = ExcessCleaner { limit: 10 };
    insert(&mut table, &req(Some("x"), "one.example"), 0, 60, &cleaner);
    insert(&mut table, &req(Some("x"), "two.example"), 1, 60, &cleaner);
    assert_eq!(table.len(), 1);
    assert_eq!(
        target_of(&redirect(&table, "/x")),
        Some("http://two.example".to_string())
    );
}

#[test]
fn sweep_removes_expired_rows() {
    let mut table = RedirectTable::new();
    let cleaner = ExcessCleaner { limit: 10 };
    let sweeper = ExpirationCleaner { interval: 300 };
    insert(&mut table, &req(Some("x"), "example.com"), 0, 10, &cleaner);
    sweeper.run(&mut table, 9);
    assert_eq!(
        target_of(&redirect(&table, "/x")),
        Some("http://example.com".to_string())
    );
    sweeper.run(&mut table, 10);
    let r = redirect(&table, "/x");
    assert_eq!(target_of(&r), None);
    assert_eq!(r.status_code(), 404);
}

#[test]
fn capacity_keeps_most_recent_rows() {
    let mut table = RedirectTable::new();
    let cleaner = ExcessCleaner { limit: 3 };
    let paths = ["p1", "p2", "p3", "p4", "p5"];
    for (i, p) in paths.iter().enumerate() {
        insert(&mut table, &req(Some(p), "example.com"), i as u64, 60, &cleaner);
    }
    assert_eq!(table.len(), 3);
    assert_eq!(target_of(&redirect(&table, "/p1")), None);
    assert_eq!(target_of(&redirect(&table, "/p2")), None);
    for p in ["/p3", "/p4", "/p5"] {
        assert_eq!(
            target_of(&redirect(&table, p)),
            Some("http://example.com".to_string())
        );
    }
}

#[test]
fn eviction_is_idempotent() {
    let mut table = RedirectTable::new();
    let cleaner = ExcessCleaner { limit: 2 };
    insert(&mut table, &req(Some("a"), "a.example"), 0, 60, &cleaner);
    insert(&mut table, &req(Some("b"), "b.example"), 1, 60, &cleaner);
    cleaner.run(&mut table);
    cleaner.run(&mut table);
    assert_eq!(table.len(), 2);
}

#[test]
fn root_redirect_scenario() {
    let mut table = RedirectTable::new();
    let cleaner = ExcessCleaner { limit: 5 };
    let sweeper = ExpirationCleaner { interval: 300 };
    let now: u64 = 1000;
    insert(&mut table, &req(None, "example.org"), now, 3600, &cleaner);
    let r = redirect(&table, "/");
    assert_eq!(r.status_code(), 307);
    assert_eq!(target_of(&r), Some("http://example.org".to_string()));

    insert(&mut table, &req(Some(""), "https://new.org"), now + 1, 3600, &cleaner);
    assert_eq!(table.len(), 1);
    let r = redirect(&table, "/");
    assert_eq!(r.status_code(), 307);
    assert_eq!(target_of(&r), Some("https://new.org".to_string()));

    sweeper.run(&mut table, now + 1 + 3600);
    let r = redirect(&table, "/");
    assert_eq!(r.status_code(), 404);
    assert_eq!(target_of(&r), None);
}

#[test]
fn lookup_strips_all_leading_slashes() {
    let mut table = RedirectTable::new();
    let cleaner = ExcessCleaner { limit: 5 };
    insert(&mut table, &req(Some("x"), "https://example.com"), 0, 60, &cleaner);
    assert_eq!(
        target_of(&redirect(&table, "//x")),
        Some("https://example.com".to_string())
    );
    assert_eq!(target_of(&redirect(&table, "/y")), None);
}

#[test]
fn expired_but_unswept_rows_are_still_served() {
    let mut table = RedirectTable::new();
    let cleaner = ExcessCleaner { limit: 5 };
    insert(&mut table, &req(Some("x"), "https://example.com"), 0, 10, &cleaner);
    // Lazy expiry: no sweep has run, so the stale row still answers.
    assert_eq!(
        target_of(&redirect(&table, "/x")),
        Some("https://example.com".to_string())
    );
}
