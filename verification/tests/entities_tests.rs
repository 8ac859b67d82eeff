use official_download::download::download_link::{find_version_token, DLEntry};
use regex::Regex;

#[test]
fn test_version_regex() {
    let re = Regex::new(r"\d+(\.\d+([[:alnum:]]+)?)").unwrap();
    let mat = re.find("iftop-1.0pre4.tar.gz");
    assert!(mat.is_some());
}

#[test]
fn version_token_simple() {
    assert_eq!(find_version_token("libfoo-2.0.tar.gz").unwrap(), "2.0");
    assert_eq!(find_version_token("libfoo-1.0.tar.gz").unwrap(), "1.0");
    assert_eq!(find_version_token("coreutils-9.4.tar.xz").unwrap(), "9.4");
    assert!(find_version_token("a.txt").is_none());
    assert!(find_version_token("libfoo.sig").is_none());
    assert!(find_version_token("").is_none());
}

#[test]
fn version_token_takes_leftmost_and_one_trailing_alnum() {
    // The run after the dot may be followed by one letter or digit.
    assert_eq!(find_version_token("iftop-1.0pre4.tar.gz").unwrap(), "1.0p");
    // The leftmost qualifying digit run wins.
    assert_eq!(find_version_token("v10.2.3-rc1").unwrap(), "10.2");
    // A digit run not followed by a dot and a digit does not qualify.
    assert!(find_version_token("x264-snapshot-20191217-2245.tar.bz2").is_none());
}

#[test]
fn version_token_matches_version_regex_of_code() {
    // The code's own pattern: a single optional trailing alphanumeric.
    let re = Regex::new(r"\d+(\.\d+([[:alnum:]])?)").unwrap();
    for name in [
        "iftop-1.0pre4.tar.gz",
        "libfoo-2.0.tar.gz",
        "wireshark-4.2.0.tar.xz",
        "v10.2.3-rc1",
        "nothing-here",
        "1.tar.gz",
        "9.9",
        "a1.2b3.4",
    ] {
        let expected = re.find(name).map(|m| m.as_str().to_string());
        assert_eq!(find_version_token(name), expected, "name: {}", name);
    }
}

#[test]
fn from_url_builds_canonical_name() {
    let ent = DLEntry::from_url("https://example.com/pub/libfoo-2.0.tar.gz", "libfoo")
        .unwrap()
        .unwrap();
    assert_eq!(ent.fname, "libfoo-2.0");
    assert_eq!(ent.fname_ext, "libfoo-2.0.tar.gz");
    assert_eq!(ent.comp_name, "libfoo");
    assert_eq!(ent.url, "https://example.com/pub/libfoo-2.0.tar.gz");
}

#[test]
fn from_url_rejects_unparseable_and_versionless() {
    assert!(DLEntry::from_url("not a url", "libfoo").is_err());
    assert!(DLEntry::from_url("https://example.com/a.txt", "libfoo")
        .unwrap()
        .is_none());
}

#[test]
fn entry_equality_is_by_canonical_name() {
    let a = DLEntry {
        url: "https://a.example/libfoo-2.0.tar.gz".to_string(),
        fname: "libfoo-2.0".to_string(),
        fname_ext: "libfoo-2.0.tar.gz".to_string(),
        comp_name: "libfoo".to_string(),
    };
    let b = DLEntry {
        url: "https://mirror.example/libfoo-2.0.tar.gz".to_string(),
        fname: "libfoo-2.0".to_string(),
        fname_ext: "libfoo-2.0.tar.gz".to_string(),
        comp_name: "libfoo".to_string(),
    };
    assert!(a == b);
}
