use official_download::download::download_link::{
    classify_after_probe, classify_after_related_ans, classify_after_source_ans, classify_begin,
    get_all_links, is_affirmative, transform_href, DLEntry, DLEntryPool, LinkStep,
};
use official_download::DlError;

#[test]
fn extension_short_circuit_rejects_signatures_and_executables() {
    assert!(matches!(classify_begin("https://x.example/libfoo-1.0.tar.gz.sig"), LinkStep::Reject));
    assert!(matches!(classify_begin("https://x.example/setup.exe"), LinkStep::Reject));
    assert!(matches!(classify_begin("https://x.example/libfoo-1.0.tar.gz"), LinkStep::Probe));
}

#[test]
fn probe_and_answers_drive_the_steps() {
    assert!(matches!(classify_after_probe(true), LinkStep::AskSource));
    assert!(matches!(classify_after_probe(false), LinkStep::Reject));
    assert!(matches!(classify_after_source_ans("Yes, it is."), LinkStep::AskRelated));
    assert!(matches!(classify_after_source_ans("No."), LinkStep::Reject));
}

#[test]
fn affirmative_answers_are_folded_to_lowercase() {
    // Would fail if the lowercase folding handed its argument back unchanged.
    assert!(is_affirmative("YES"));
    assert!(is_affirmative("yEs, certainly"));
    assert!(!is_affirmative("no"));
    assert!(!is_affirmative("YE S"));
}

#[test]
fn related_answer_builds_the_entry() {
    let ent = classify_after_related_ans(
        "https://x.example/libfoo-2.0.tar.gz",
        "libfoo",
        "yes",
    )
    .unwrap()
    .unwrap();
    assert_eq!(ent.fname, "libfoo-2.0");

    let none = classify_after_related_ans("https://x.example/libfoo-2.0.tar.gz", "libfoo", "no")
        .unwrap();
    assert!(none.is_none());

    assert!(classify_after_related_ans("not a url", "libfoo", "yes").is_err());
}

#[test]
fn hrefs_resolve_against_the_page_url() {
    // An absolute href passes through.
    assert_eq!(
        transform_href("https://other.example/a.tar.gz", "https://x.example/dl/").unwrap(),
        "https://other.example/a.tar.gz"
    );
    // One beginning with a path separator replaces the page URL's path.
    assert_eq!(
        transform_href("/pub/a.tar.gz", "https://x.example/dl/index.html").unwrap(),
        "https://x.example/pub/a.tar.gz"
    );
    // Any other is concatenated onto the page URL verbatim.
    assert_eq!(
        transform_href("a.tar.gz", "https://x.example/dl/").unwrap(),
        "https://x.example/dl/a.tar.gz"
    );
    // A path-separator href against an unparseable page URL is an error.
    assert!(matches!(
        transform_href("/pub/a.tar.gz", "not a url"),
        Err(DlError::UrlUnparseable)
    ));
    // A concatenation that fails to re-parse breaks the link invariant.
    assert!(matches!(
        transform_href("foo.tar.gz", "junk base"),
        Err(DlError::LinkInvariantBroken)
    ));
}

#[test]
fn links_come_in_document_order_with_duplicates() {
    let html = "<html><body>\
        <a href=\"a.txt\">a</a>\
        <a href=\"libfoo-2.0.tar.gz\">two</a>\
        <a name=\"no-href\">skip</a>\
        <a href=\"libfoo-1.0.tar.gz\">one</a>\
        <a href=\"libfoo-2.0.tar.gz\">two again</a>\
        </body></html>";
    let links = get_all_links(html, "https://x.example/dl/").unwrap();
    assert_eq!(
        links,
        vec![
            "https://x.example/dl/a.txt",
            "https://x.example/dl/libfoo-2.0.tar.gz",
            "https://x.example/dl/libfoo-1.0.tar.gz",
            "https://x.example/dl/libfoo-2.0.tar.gz",
        ]
    );
}

#[test]
fn one_page_end_to_end_with_a_stub_oracle() {
    // The page yields four links; the stub oracle affirms both tarballs and
    // denies the text file; the signature never reaches the oracle.
    let html = "<html><body>\
        <a href=\"a.txt\">a</a>\
        <a href=\"libfoo-2.0.tar.gz\">two</a>\
        <a href=\"libfoo-1.0.tar.gz\">one</a>\
        <a href=\"libfoo.sig\">sig</a>\
        </body></html>";
    let page_url = "https://x.example/dl/";
    let links = get_all_links(html, page_url).unwrap();
    assert_eq!(links.len(), 4);

    let oracle = |url: &str| url.ends_with(".tar.gz");
    let mut results: Vec<Result<Option<DLEntry>, DlError>> = Vec::new();
    for url in links.iter() {
        let step = classify_begin(url);
        if matches!(step, LinkStep::Reject) {
            results.push(Ok(None));
            continue;
        }
        // Every link probes alive in this scenario.
        if matches!(classify_after_probe(true), LinkStep::Reject) {
            results.push(Ok(None));
            continue;
        }
        let source_ans = if oracle(url) { "yes" } else { "no" };
        if matches!(classify_after_source_ans(source_ans), LinkStep::Reject) {
            results.push(Ok(None));
            continue;
        }
        let related_ans = if oracle(url) { "yes" } else { "no" };
        results.push(classify_after_related_ans(url, "libfoo", related_ans).map_err(|e| e));
    }

    let (pool, abnormal) = DLEntryPool::from_classified("libfoo", results, 1);
    assert!(!abnormal);
    assert_eq!(pool.len(), 1);
    assert_eq!(pool.entries[0].fname, "libfoo-2.0");
    assert_eq!(pool.entries[0].url, "https://x.example/dl/libfoo-2.0.tar.gz");
}

#[test]
fn a_page_without_anchors_yields_no_links() {
    let links = get_all_links("<html><body><p>nothing</p></body></html>", "https://x.example/")
        .unwrap();
    assert!(links.is_empty());
}
