use official_download::download::download_link::{DLEntry, DLEntryPool, LinkStep, classify_begin};
use official_download::download::file_download::{
    get_github_dl_dir, get_offical_dl_dir, get_official_abnormal_page_fpath,
    get_official_available_page_fpath,
};
use official_download::download::partition_batch;
use official_download::download::download_page::PageAns;
use official_download::DlError;

fn entry(url: &str, fname: &str, fname_ext: &str) -> DLEntry {
    DLEntry {
        url: url.to_string(),
        fname: fname.to_string(),
        fname_ext: fname_ext.to_string(),
        comp_name: "libfoo".to_string(),
    }
}

#[test]
fn paths_are_built_under_the_official_root() {
    let official = get_offical_dl_dir("/data/dl", "alice");
    assert_eq!(official, "/data/dl/alice/Official");
    assert_eq!(get_github_dl_dir("/data/dl", "alice"), "/data/dl/alice/GitHub");
    assert_eq!(
        get_official_available_page_fpath(&official),
        "/data/dl/alice/Official/available_url_list.json"
    );
    assert_eq!(
        get_official_abnormal_page_fpath(&official),
        "/data/dl/alice/Official/abnormal_url_list.json"
    );
}

#[test]
fn the_manifest_lists_every_intended_entry() {
    // A 404 download stays out of repos/, but its entry is still listed:
    // the manifest is computed from the pool alone, before any fetch runs.
    let pool = DLEntryPool {
        comp_name: "libfoo".to_string(),
        entries: vec![
            entry("https://x.example/libfoo-2.0.tar.gz", "libfoo-2.0", "libfoo-2.0.tar.gz"),
            entry("https://x.example/gone-1.0.tar.gz", "libfoo-1.0", "gone-1.0.tar.gz"),
        ],
    };
    let (path, text) = pool.manifest_action("/data/dl/alice/Official").unwrap();
    assert_eq!(path, "/data/dl/alice/Official/libfoo/downloadlinks.txt");
    assert_eq!(
        text,
        "libfoo-2.0.tar.gz: https://x.example/libfoo-2.0.tar.gz\n\
         gone-1.0.tar.gz: https://x.example/gone-1.0.tar.gz\n"
    );
}

#[test]
fn an_empty_pool_skips_its_manifest() {
    let pool = DLEntryPool { comp_name: "libfoo".to_string(), entries: Vec::new() };
    assert!(pool.manifest_action("/data/dl/alice/Official").is_none());
}

#[test]
fn the_plan_carries_urls_and_destinations() {
    let pool = DLEntryPool {
        comp_name: "libfoo".to_string(),
        entries: vec![entry(
            "https://x.example/libfoo-2.0.tar.gz",
            "libfoo-2.0",
            "libfoo-2.0.tar.gz",
        )],
    };
    let jobs = pool.download_plan("/data/dl/alice/Official");
    assert_eq!(jobs.len(), 1);
    assert_eq!(jobs[0].url, "https://x.example/libfoo-2.0.tar.gz");
    assert_eq!(
        jobs[0].dest_path,
        "/data/dl/alice/Official/libfoo/repos/libfoo-2.0.tar.gz"
    );
}

#[test]
fn a_page_with_no_anchor_elements_ends_abnormal_without_a_manifest() {
    // No links at all: every classification result is absent, the pool is
    // empty, the page is abnormal, and the manifest is skipped.
    let results: Vec<Result<Option<DLEntry>, DlError>> = Vec::new();
    let (pool, abnormal) = DLEntryPool::from_classified("libfoo", results, 5);
    assert!(pool.is_empty());
    assert!(abnormal);
    assert!(pool.manifest_action("/data/dl/alice/Official").is_none());
}

#[test]
fn the_cap_one_scenario_keeps_the_greater_version() {
    // Page links: a.txt (oracle no), libfoo-2.0 and libfoo-1.0 (accepted),
    // libfoo.sig (extension short-circuit).
    assert!(matches!(classify_begin("https://x.example/libfoo.sig"), LinkStep::Reject));
    let results: Vec<Result<Option<DLEntry>, DlError>> = vec![
        Ok(None),
        Ok(Some(entry("https://x.example/libfoo-2.0.tar.gz", "libfoo-2.0", "libfoo-2.0.tar.gz"))),
        Ok(Some(entry("https://x.example/libfoo-1.0.tar.gz", "libfoo-1.0", "libfoo-1.0.tar.gz"))),
        Ok(None),
    ];
    let (pool, abnormal) = DLEntryPool::from_classified("libfoo", results, 1);
    assert!(!abnormal);
    assert_eq!(pool.len(), 1);
    assert_eq!(pool.entries[0].fname, "libfoo-2.0");
}

fn page(name: &str, abnormal: bool) -> PageAns {
    PageAns {
        component_name: name.to_string(),
        available: true,
        site_url: Some(format!("https://{}.example/", name)),
        abnoarmal: abnormal,
    }
}

#[test]
fn the_batch_report_separates_abnormal_pages() {
    let results = vec![
        Some(page("a", false)),
        None,
        Some(page("b", true)),
        Some(page("c", false)),
    ];
    let (all, abnormal) = partition_batch(results);
    let all_names: Vec<&str> = all.iter().map(|p| p.component_name.as_str()).collect();
    let abn_names: Vec<&str> = abnormal.iter().map(|p| p.component_name.as_str()).collect();
    assert_eq!(all_names, vec!["a", "b", "c"]);
    assert_eq!(abn_names, vec!["b"]);
}
