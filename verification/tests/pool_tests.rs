use official_download::download::download_link::{DLEntry, DLEntryPool};
use official_download::DlError;

fn entry(url: &str, fname: &str) -> DLEntry {
    DLEntry {
        url: url.to_string(),
        fname: fname.to_string(),
        fname_ext: format!("{}.tar.gz", fname),
        comp_name: "libfoo".to_string(),
    }
}

#[test]
fn dedup_is_idempotent_and_first_write_wins() {
    let mut pool = DLEntryPool { comp_name: "libfoo".to_string(), entries: Vec::new() };
    let first = entry("https://a.example/libfoo-2.0.tar.gz", "libfoo-2.0");
    let duplicate = entry("https://mirror.example/libfoo-2.0.tar.gz", "libfoo-2.0");
    assert!(pool.push_ent(first));
    assert!(!pool.push_ent(duplicate));
    assert_eq!(pool.len(), 1);
    // The first write survives: the pool still points at the first URL.
    assert_eq!(pool.entries[0].url, "https://a.example/libfoo-2.0.tar.gz");
}

#[test]
fn insertion_order_does_not_affect_membership() {
    let a = || entry("https://a.example/libfoo-2.0.tar.gz", "libfoo-2.0");
    let a2 = || entry("https://b.example/libfoo-2.0.tar.gz", "libfoo-2.0");
    let b = || entry("https://a.example/libfoo-1.0.tar.gz", "libfoo-1.0");

    let mut p1 = DLEntryPool { comp_name: "libfoo".to_string(), entries: Vec::new() };
    p1.push_ent(a());
    p1.push_ent(a2());
    p1.push_ent(b());

    let mut p2 = DLEntryPool { comp_name: "libfoo".to_string(), entries: Vec::new() };
    p2.push_ent(b());
    p2.push_ent(a2());
    p2.push_ent(a());

    let mut n1: Vec<String> = p1.entries.iter().map(|e| e.fname.clone()).collect();
    let mut n2: Vec<String> = p2.entries.iter().map(|e| e.fname.clone()).collect();
    n1.sort();
    n2.sort();
    assert_eq!(n1, n2);
}

#[test]
fn ranking_is_deterministic() {
    // The same accepted entries in two completion orders finalize the same.
    let names = ["libfoo-1.0", "libfoo-3.1", "libfoo-2.0"];
    let forward: Vec<Result<Option<DLEntry>, DlError>> = names
        .iter()
        .map(|n| Ok(Some(entry(&format!("https://x.example/{}.tar.gz", n), n))))
        .collect();
    let backward: Vec<Result<Option<DLEntry>, DlError>> = names
        .iter()
        .rev()
        .map(|n| Ok(Some(entry(&format!("https://x.example/{}.tar.gz", n), n))))
        .collect();
    let (p1, _) = DLEntryPool::from_classified("libfoo", forward, 10);
    let (p2, _) = DLEntryPool::from_classified("libfoo", backward, 10);
    let n1: Vec<&str> = p1.entries.iter().map(|e| e.fname.as_str()).collect();
    let n2: Vec<&str> = p2.entries.iter().map(|e| e.fname.as_str()).collect();
    assert_eq!(n1, vec!["libfoo-3.1", "libfoo-2.0", "libfoo-1.0"]);
    assert_eq!(n1, n2);
}

#[test]
fn cap_keeps_the_lexically_greatest() {
    let results: Vec<Result<Option<DLEntry>, DlError>> = vec![
        Ok(Some(entry("https://x.example/libfoo-1.0.tar.gz", "libfoo-1.0"))),
        Ok(Some(entry("https://x.example/libfoo-3.1.tar.gz", "libfoo-3.1"))),
        Ok(Some(entry("https://x.example/libfoo-2.0.tar.gz", "libfoo-2.0"))),
        Ok(Some(entry("https://x.example/libfoo-2.5.tar.gz", "libfoo-2.5"))),
    ];
    let (pool, abnormal) = DLEntryPool::from_classified("libfoo", results, 2);
    assert!(!abnormal);
    assert_eq!(pool.len(), 2);
    assert_eq!(pool.entries[0].fname, "libfoo-3.1");
    assert_eq!(pool.entries[1].fname, "libfoo-2.5");
}

#[test]
fn one_failed_task_loses_only_its_own_entry() {
    let results: Vec<Result<Option<DLEntry>, DlError>> = vec![
        Ok(Some(entry("https://x.example/libfoo-1.0.tar.gz", "libfoo-1.0"))),
        Err(DlError::OracleContract),
        Ok(Some(entry("https://x.example/libfoo-2.0.tar.gz", "libfoo-2.0"))),
        Ok(None),
    ];
    let (pool, abnormal) = DLEntryPool::from_classified("libfoo", results, 10);
    assert!(!abnormal);
    assert_eq!(pool.len(), 2);
    assert_eq!(pool.entries[0].fname, "libfoo-2.0");
    assert_eq!(pool.entries[1].fname, "libfoo-1.0");
}

#[test]
fn empty_classification_is_abnormal() {
    let results: Vec<Result<Option<DLEntry>, DlError>> = vec![Ok(None), Err(DlError::OracleContract)];
    let (pool, abnormal) = DLEntryPool::from_classified("libfoo", results, 10);
    assert!(abnormal);
    assert!(pool.is_empty());
    assert_eq!(pool.comp_name, "libfoo");
}

#[test]
fn lexical_order_is_not_semantic() {
    // A known limitation of the ranking: plain string order ranks "9.9"
    // above "10.0".
    let results: Vec<Result<Option<DLEntry>, DlError>> = vec![
        Ok(Some(entry("https://x.example/libfoo-10.0.tar.gz", "libfoo-10.0"))),
        Ok(Some(entry("https://x.example/libfoo-9.9.tar.gz", "libfoo-9.9"))),
    ];
    let (pool, _) = DLEntryPool::from_classified("libfoo", results, 1);
    assert_eq!(pool.entries[0].fname, "libfoo-9.9");
}
