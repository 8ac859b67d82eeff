//! Download entries and the pool that collects them: version-token
//! extraction from a file name, link classification, deduplication by
//! canonical name, descending ranking, and the cap.

use vstd::prelude::*;
use vstd::string::StrSliceExecFns;
use vstd::string::StringExecFns;

use crate::DlError;
use crate::text::{
    contains_seq, is_alnum, is_alnum_exec, is_digit, is_digit_exec, digit_run_end_exec, lex_lt,
    lower_of, opt_string_view, run_end, str_contains_sub, str_lex_lt, to_lowercase_str,
    lemma_run_end,
};
use crate::utils::url_parses;

verus! {

/// One candidate artifact: the URL it is fetched from, its canonical name
/// (`fname`, the deduplication and ranking key), the literal last path
/// segment (`fname_ext`) and the component it belongs to.
pub struct DLEntry {
    pub url: String,
    pub fname: String,
    pub fname_ext: String,
    pub comp_name: String,
}

impl PartialEq for DLEntry {
    /// Two entries are equal exactly when their canonical names are equal,
    /// independent of their URLs.
    fn eq(&self, other: &Self) -> (r: bool) {
        self.fname == other.fname
    }
}

impl vstd::std_specs::cmp::PartialEqSpecImpl for DLEntry {
    open spec fn obeys_eq_spec() -> bool {
        true
    }

    open spec fn eq_spec(&self, other: &Self) -> bool {
        self.fname@ == other.fname@
    }
}

// ---------------------------------------------------------------------------
// The version-token grammar.
//
// A version-like token inside a file name is a run of digits immediately
// followed by a dot and at least one further digit; the token carries the
// whole second digit run and, when one directly follows, a single trailing
// ASCII letter or digit.  The extracted token is the leftmost one.
// ---------------------------------------------------------------------------

/// A version-like token begins at position `p`.
pub open spec fn version_match_at(s: Seq<char>, p: int) -> bool {
    let e1 = run_end(s, |c: char| is_digit(c), p);
    &&& 0 <= p < s.len()
    &&& is_digit(s[p])
    &&& e1 < s.len()
    &&& s[e1] == '.'
    &&& e1 + 1 < s.len()
    &&& is_digit(s[e1 + 1])
}

/// Where the token beginning at `p` ends.
pub open spec fn version_end(s: Seq<char>, p: int) -> int {
    let e1 = run_end(s, |c: char| is_digit(c), p);
    let e2 = run_end(s, |c: char| is_digit(c), e1 + 1);
    if e2 < s.len() && is_alnum(s[e2]) {
        e2 + 1
    } else {
        e2
    }
}

/// The first position, at or after `i`, where a token begins.
pub open spec fn first_version_start(s: Seq<char>, i: int) -> Option<int>
    decreases s.len() - i,
    when 0 <= i <= s.len()
{
    if i >= s.len() {
        None
    } else if version_match_at(s, i) {
        Some(i)
    } else {
        first_version_start(s, i + 1)
    }
}

/// The leftmost version-like token of a file name, if any.
pub open spec fn version_token(s: Seq<char>) -> Option<Seq<char>> {
    match first_version_start(s, 0) {
        None => None,
        Some(p) => Some(s.subrange(p, version_end(s, p))),
    }
}

/// Tests whether a token begins at `p`.
fn version_match_at_exec(s: &str, len: usize, p: usize) -> (b: bool)
    requires
        len == s@.len(),
        p < len,
    ensures
        b == version_match_at(s@, p as int),
{
    if !is_digit_exec(s.get_char(p)) {
        return false;
    }
    let e1 = digit_run_end_exec(s, len, p);
    proof {
        lemma_run_end(s@, |c: char| is_digit(c), p as int);
    }
    if e1 >= len {
        return false;
    }
    if s.get_char(e1) != '.' {
        return false;
    }
    if e1 + 1 >= len {
        return false;
    }
    is_digit_exec(s.get_char(e1 + 1))
}

/// Extracts the leftmost version-like token of a file name.
pub fn find_version_token(fname: &str) -> (r: Option<String>)
    ensures
        opt_string_view(r) == version_token(fname@),
{
    let len = fname.unicode_len();
    let mut p: usize = 0;
    while p < len
        invariant
            len == fname@.len(),
            0 <= p <= len,
            first_version_start(fname@, 0) == first_version_start(fname@, p as int),
        decreases len - p,
    {
        if version_match_at_exec(fname, len, p) {
            proof {
                lemma_run_end(fname@, |c: char| is_digit(c), p as int);
            }
            let e1 = digit_run_end_exec(fname, len, p);
            proof {
                lemma_run_end(fname@, |c: char| is_digit(c), e1 + 1);
            }
            let e2 = digit_run_end_exec(fname, len, e1 + 1);
            let end: usize = if e2 < len && is_alnum_exec(fname.get_char(e2)) {
                e2 + 1
            } else {
                e2
            };
            assert(end == version_end(fname@, p as int));
            let tok = fname.substring_char(p, end);
            return Some(tok.to_owned());
        }
        p = p + 1;
    }
    None
}

// ---------------------------------------------------------------------------
// Building one entry from a URL.
// ---------------------------------------------------------------------------

/// The last path segment of a parsed URL; None for a URL whose path has no
/// segments (one that cannot be a base).  A function of the URL text alone.
pub uninterp spec fn url_last_segment(s: Seq<char>) -> Option<Seq<char>>;

/// Relies on reqwest::Url::parse and Url::path_segments of the url crate:
/// for a string that parses as an absolute URL, the last segment of the
/// parsed URL's path depends on the string alone; a URL that cannot be a
/// base has no path segments at all.
#[verifier::external_body]
fn url_last_path_segment(url: &str) -> (r: Option<Option<String>>)
    ensures
        r is Some <==> url_parses(url@),
        r matches Some(seg) ==> opt_string_view(seg) == url_last_segment(url@),
{
    match reqwest::Url::parse(url) {
        Ok(u) => match u.path_segments() {
            Some(mut segs) => Some(segs.next_back().map(|s| s.to_string())),
            None => Some(None),
        },
        Err(_) => None,
    }
}

impl DLEntry {
    /// What the entry built from a file name is: None when the name carries
    /// no version-like token, else the entry whose canonical name joins the
    /// component name and the token with a dash.
    fn get_entry_from_fname(fname: &str, url: &str, comp_name: &str) -> (r: Option<DLEntry>)
        ensures
            r is Some <==> version_token(fname@) is Some,
            r matches Some(ent) ==> {
                &&& version_token(fname@) matches Some(ver) && ent.fname@ == comp_name@ + "-"@
                    + ver
                &&& ent.url@ == url@
                &&& ent.fname_ext@ == fname@
                &&& ent.comp_name@ == comp_name@
            },
    {
        match find_version_token(fname) {
            None => None,
            Some(ver) => Some(
                DLEntry {
                    url: url.to_owned(),
                    fname: comp_name.to_owned().concat("-").concat(ver.as_str()),
                    fname_ext: fname.to_owned(),
                    comp_name: comp_name.to_owned(),
                },
            ),
        }
    }

    /// Builds the candidate entry for a classified link.  A URL that does
    /// not parse is an error; a parsed URL without a last path segment, or
    /// whose last segment carries no version-like token, yields no entry.
    pub fn from_url(url: &str, comp_name: &str) -> (r: Result<Option<DLEntry>, DlError>)
        ensures
            match r {
                Err(e) => !url_parses(url@) && e is UrlUnparseable,
                Ok(opt) => {
                    &&& url_parses(url@)
                    &&& match opt {
                        None => url_last_segment(url@) is None || version_token(
                            url_last_segment(url@)->Some_0,
                        ) is None,
                        Some(ent) => {
                            &&& url_last_segment(url@) matches Some(f)
                            &&& version_token(f) matches Some(ver) && ent.fname@ == comp_name@
                                + "-"@ + ver && ent.fname_ext@ == f
                            &&& ent.url@ == url@
                            &&& ent.comp_name@ == comp_name@
                        },
                    }
                },
            },
    {
        match url_last_path_segment(url) {
            None => Err(DlError::UrlUnparseable),
            Some(None) => Ok(None),
            Some(Some(ext_fname)) => Ok(
                Self::get_entry_from_fname(ext_fname.as_str(), url, comp_name),
            ),
        }
    }
}

// ---------------------------------------------------------------------------
// Link extraction: the hrefs of a page's anchors, resolved against the
// page's own URL.
// ---------------------------------------------------------------------------

/// The href attributes of a page's anchor elements, in document order; a
/// function of the page text alone.
pub uninterp spec fn anchor_hrefs(page: Seq<char>) -> Seq<Seq<char>>;

/// Relies on scraper::Html::parse_document, scraper::Selector::parse and the
/// select iterator: parsing is deterministic, so the hrefs of the anchor
/// elements, in document order, depend on the page text alone.
#[verifier::external_body]
fn html_anchor_hrefs(page: &str) -> (r: Vec<String>)
    ensures
        r@.map_values(|s: String| s@) == anchor_hrefs(page@),
{
    let doc = scraper::Html::parse_document(page);
    let sel = match scraper::Selector::parse("a") {
        Ok(s) => s,
        Err(_) => return Vec::new(),
    };
    doc.select(&sel).filter_map(|a| a.value().attr("href")).map(|h| h.to_string()).collect()
}

/// The serialisation of a parsed URL after its path was replaced; a function
/// of the base URL text and the new path alone.
pub uninterp spec fn url_with_path(base: Seq<char>, path: Seq<char>) -> Seq<char>;

/// Relies on reqwest::Url::parse, Url::set_path and Url::as_str of the url
/// crate: for a base that parses, the serialisation after replacing the path
/// depends on the base and the path alone.
#[verifier::external_body]
fn url_replace_path(base: &str, path: &str) -> (r: Option<String>)
    ensures
        r is Some <==> url_parses(base@),
        r matches Some(s) ==> s@ == url_with_path(base@, path@),
{
    match reqwest::Url::parse(base) {
        Ok(mut u) => {
            u.set_path(path);
            Some(u.as_str().to_string())
        }
        Err(_) => None,
    }
}

/// What an href resolves to against the page URL: an absolute href passes
/// through; one beginning with a path separator replaces the page URL's
/// path; any other is concatenated onto the page URL.  None when the page
/// URL does not parse or the produced link fails to re-parse.
pub open spec fn resolved_href(href: Seq<char>, base: Seq<char>) -> Option<Seq<char>> {
    if url_parses(href) {
        Some(href)
    } else if href.len() > 0 && href[0] == '/' {
        if url_parses(base) && url_parses(url_with_path(base, href)) {
            Some(url_with_path(base, href))
        } else {
            None
        }
    } else {
        if url_parses(base + href) {
            Some(base + href)
        } else {
            None
        }
    }
}

/// Resolves one href against the page URL.  Every produced link is checked
/// to re-parse as an absolute URL; one that does not is the invariant break
/// the error names, not a recoverable condition.
pub fn transform_href(href: &str, url: &str) -> (r: Result<String, DlError>)
    ensures
        match r {
            Ok(s) => resolved_href(href@, url@) matches Some(v) && s@ == v,
            Err(e) => resolved_href(href@, url@) is None && (e is UrlUnparseable
                || e is LinkInvariantBroken),
        },
{
    if crate::utils::is_absolute_url(href) {
        return Ok(href.to_owned());
    }
    let href_len = href.unicode_len();
    let link: String = if href_len > 0 && href.get_char(0) == '/' {
        match url_replace_path(url, href) {
            None => {
                return Err(DlError::UrlUnparseable);
            }
            Some(s) => s,
        }
    } else {
        url.to_owned().concat(href)
    };
    if !crate::utils::is_absolute_url(link.as_str()) {
        return Err(DlError::LinkInvariantBroken);
    }
    Ok(link)
}

/// The links a resolved page yields, when every href of it resolves.
pub open spec fn resolved_links(hrefs: Seq<Seq<char>>, base: Seq<char>) -> Seq<Seq<char>> {
    Seq::new(hrefs.len(), |i: int| resolved_href(hrefs[i], base)->Some_0)
}

/// Extracts every anchor's href from the page content and resolves each
/// against the page URL, in document order, duplicates preserved.  A single
/// href that fails to resolve fails the whole extraction, as an invariant
/// break of this page.
pub fn get_all_links(page_content: &str, url: &str) -> (r: Result<Vec<String>, DlError>)
    ensures
        match r {
            Ok(v) => {
                &&& forall|i: int|
                    0 <= i < anchor_hrefs(page_content@).len() ==> resolved_href(
                        anchor_hrefs(page_content@)[i],
                        url@,
                    ) is Some
                &&& v@.map_values(|s: String| s@) == resolved_links(
                    anchor_hrefs(page_content@),
                    url@,
                )
            },
            Err(_) => exists|i: int|
                0 <= i < anchor_hrefs(page_content@).len() && resolved_href(
                    #[trigger] anchor_hrefs(page_content@)[i],
                    url@,
                ) is None,
        },
{
    let hrefs = html_anchor_hrefs(page_content);
    let ghost hs = anchor_hrefs(page_content@);
    let mut out: Vec<String> = Vec::new();
    let mut i: usize = 0;
    while i < hrefs.len()
        invariant
            hs == anchor_hrefs(page_content@),
            hrefs@.map_values(|s: String| s@) == hs,
            0 <= i <= hrefs@.len(),
            out@.len() == i,
            forall|k: int| 0 <= k < i ==> resolved_href(hs[k], url@) is Some,
            forall|k: int| 0 <= k < i ==> out@[k]@ == resolved_href(hs[k], url@)->Some_0,
        decreases hrefs@.len() - i,
    {
        assert(hrefs@[i as int]@ == hs[i as int]);
        match transform_href(&hrefs[i], url) {
            Ok(link) => {
                out.push(link);
            }
            Err(e) => {
                proof {
                    assert(anchor_hrefs(page_content@)[i as int] == hs[i as int]);
                    assert(resolved_href(anchor_hrefs(page_content@)[i as int], url@) is None);
                }
                return Err(e);
            }
        }
        i = i + 1;
    }
    proof {
        assert(hs.len() == hrefs@.len());
        assert forall|k: int| 0 <= k < anchor_hrefs(page_content@).len() implies resolved_href(
            anchor_hrefs(page_content@)[k],
            url@,
        ) is Some by {
            assert(anchor_hrefs(page_content@)[k] == hs[k]);
            assert(resolved_href(hs[k], url@) is Some);
        }
        assert(out@.map_values(|s: String| s@) =~= resolved_links(
            anchor_hrefs(page_content@),
            url@,
        ));
    }
    Ok(out)
}

// ---------------------------------------------------------------------------
// Classifying one link: the decisions, with the probe and the two oracle
// answers handed in by the caller that performed them.
// ---------------------------------------------------------------------------

/// A link whose URL carries a signature or Windows-executable marker is
/// rejected before any probe or oracle call.
pub open spec fn ext_rejected(url: Seq<char>) -> bool {
    contains_seq(url, ".sig"@) || contains_seq(url, ".exe"@)
}

/// An oracle reply is affirmative when its lowercase folding carries "yes".
pub open spec fn affirmative(ans: Seq<char>) -> bool {
    contains_seq(lower_of(ans), "yes"@)
}

/// Interprets a yes-or-no oracle reply.
pub fn is_affirmative(ans: &str) -> (b: bool)
    ensures
        b == affirmative(ans@),
{
    let folded = to_lowercase_str(ans);
    str_contains_sub(folded.as_str(), "yes")
}

/// What the classification of one link asks for next.
pub enum LinkStep {
    /// The link is out: no entry will come of it.
    Reject,
    /// Probe the link for liveness next.
    Probe,
    /// Ask the oracle whether the link is a source package next.
    AskSource,
    /// Ask the oracle whether the link relates to the component next.
    AskRelated,
}

/// The first decision on a link: the extension short-circuit, which spares
/// the probe and both oracle calls.
pub fn classify_begin(url: &str) -> (s: LinkStep)
    ensures
        s is Reject <==> ext_rejected(url@),
        s is Probe <==> !ext_rejected(url@),
{
    if str_contains_sub(url, ".sig") || str_contains_sub(url, ".exe") {
        LinkStep::Reject
    } else {
        LinkStep::Probe
    }
}

/// The decision after the liveness probe: an unreachable link is rejected,
/// a reachable one goes to the first oracle question.
pub fn classify_after_probe(accessible: bool) -> (s: LinkStep)
    ensures
        s is AskSource <==> accessible,
        s is Reject <==> !accessible,
{
    if accessible {
        LinkStep::AskSource
    } else {
        LinkStep::Reject
    }
}

/// The decision after the source-package answer: a negative reply rejects
/// the link, an affirmative one goes to the second oracle question.
pub fn classify_after_source_ans(ans: &str) -> (s: LinkStep)
    ensures
        s is AskRelated <==> affirmative(ans@),
        s is Reject <==> !affirmative(ans@),
{
    if is_affirmative(ans) {
        LinkStep::AskRelated
    } else {
        LinkStep::Reject
    }
}

/// The decision after the relatedness answer: only a link both answers
/// affirmed becomes a candidate entry, built from its URL.
pub fn classify_after_related_ans(url: &str, comp_name: &str, ans: &str) -> (r: Result<
    Option<DLEntry>,
    DlError,
>)
    ensures
        !affirmative(ans@) ==> r matches Ok(None),
        affirmative(ans@) ==> match r {
            Err(e) => !url_parses(url@) && e is UrlUnparseable,
            Ok(opt) => {
                &&& url_parses(url@)
                &&& match opt {
                    None => url_last_segment(url@) is None || version_token(
                        url_last_segment(url@)->Some_0,
                    ) is None,
                    Some(ent) => {
                        &&& url_last_segment(url@) matches Some(f)
                        &&& version_token(f) matches Some(ver) && ent.fname@ == comp_name@ + "-"@
                            + ver && ent.fname_ext@ == f
                        &&& ent.url@ == url@
                        &&& ent.comp_name@ == comp_name@
                    },
                }
            },
        },
{
    if !is_affirmative(ans) {
        return Ok(None);
    }
    DLEntry::from_url(url, comp_name)
}

// ---------------------------------------------------------------------------
// The pool: deduplication in arrival order, descending ranking, cap.
// ---------------------------------------------------------------------------

/// Some entry of `s` has canonical name `f`.
pub open spec fn fname_seen(s: Seq<DLEntry>, f: Seq<char>) -> bool {
    exists|i: int| 0 <= i < s.len() && s[i].fname@ == f
}

/// First-write-wins deduplication by canonical name: a later entry whose
/// name was already kept is dropped.
pub open spec fn dedup_fw(s: Seq<DLEntry>) -> Seq<DLEntry>
    decreases s.len(),
{
    if s.len() == 0 {
        Seq::empty()
    } else {
        let d = dedup_fw(s.drop_last());
        if fname_seen(d, s.last().fname@) {
            d
        } else {
            d.push(s.last())
        }
    }
}

/// Insertion into a descending-sorted sequence, before the first entry the
/// new one is not below.
pub open spec fn insert_desc(e: DLEntry, s: Seq<DLEntry>) -> Seq<DLEntry>
    decreases s.len(),
{
    if s.len() == 0 {
        seq![e]
    } else if !lex_lt(e.fname@, s[0].fname@) {
        seq![e] + s
    } else {
        seq![s[0]] + insert_desc(e, s.drop_first())
    }
}

/// Sorting by descending canonical name, as repeated insertion.
pub open spec fn sort_desc(s: Seq<DLEntry>) -> Seq<DLEntry>
    decreases s.len(),
{
    if s.len() == 0 {
        Seq::empty()
    } else {
        insert_desc(s.last(), sort_desc(s.drop_last()))
    }
}

/// The entries that classification accepted, in task order: a failed task
/// and a rejected link alike contribute nothing.
pub open spec fn accepted(s: Seq<Result<Option<DLEntry>, DlError>>) -> Seq<DLEntry>
    decreases s.len(),
{
    if s.len() == 0 {
        Seq::empty()
    } else {
        let prev = accepted(s.drop_last());
        match s.last() {
            Ok(Some(e)) => prev.push(e),
            _ => prev,
        }
    }
}

/// The cap: at most `cap` entries survive, the first ones of the ranking.
pub open spec fn cap_entries(s: Seq<DLEntry>, cap: nat) -> Seq<DLEntry> {
    if s.len() > cap {
        s.take(cap as int)
    } else {
        s
    }
}

/// What a finalized pool holds, given the classification results in task
/// order: the accepted entries, deduplicated first-write-wins, sorted by
/// descending canonical name, and capped.
pub open spec fn build_pool_spec(
    results: Seq<Result<Option<DLEntry>, DlError>>,
    cap: nat,
) -> Seq<DLEntry> {
    cap_entries(sort_desc(dedup_fw(accepted(results))), cap)
}

/// The working set of accepted download candidates for one component.
pub struct DLEntryPool {
    pub comp_name: String,
    pub entries: Vec<DLEntry>,
}

impl DLEntryPool {
    /// How many entries the pool holds.
    pub fn len(&self) -> (n: usize)
        ensures
            n == self.entries@.len(),
    {
        self.entries.len()
    }

    /// Whether the pool holds no entry.
    pub fn is_empty(&self) -> (b: bool)
        ensures
            b == (self.entries@.len() == 0),
    {
        self.entries.is_empty()
    }

    /// Whether an entry equal to `ent` — one with the same canonical name —
    /// is already in the pool.
    pub fn is_entry_seen(&self, ent: &DLEntry) -> (b: bool)
        ensures
            b == fname_seen(self.entries@, ent.fname@),
    {
        let mut i: usize = 0;
        while i < self.entries.len()
            invariant
                0 <= i <= self.entries@.len(),
                forall|k: int| 0 <= k < i ==> self.entries@[k].fname@ != ent.fname@,
            decreases self.entries@.len() - i,
        {
            if self.entries[i].fname == ent.fname {
                return true;
            }
            i = i + 1;
        }
        false
    }

    /// Inserts an entry unless an equal one is already present; reports
    /// whether it was inserted.  First write wins: a duplicate leaves the
    /// pool unchanged.
    pub fn push_ent(&mut self, ent: DLEntry) -> (r: bool)
        ensures
            r == !fname_seen(old(self).entries@, ent.fname@),
            final(self).comp_name == old(self).comp_name,
            final(self).entries@ == if fname_seen(old(self).entries@, ent.fname@) {
                old(self).entries@
            } else {
                old(self).entries@.push(ent)
            },
    {
        if self.is_entry_seen(&ent) {
            return false;
        }
        self.entries.push(ent);
        true
    }

    /// Folds the classification results of a page's links, in task order,
    /// into the finalized pool: accepted entries are deduplicated first
    /// write wins, ranked by descending canonical name, and capped at `cap`.
    /// The second result is the abnormal flag: whether nothing at all was
    /// accepted.  A single failed task only loses its own entry.
    pub fn from_classified(
        comp_name: &str,
        results: Vec<Result<Option<DLEntry>, DlError>>,
        cap: usize,
    ) -> (r: (DLEntryPool, bool))
        ensures
            r.0.comp_name@ == comp_name@,
            r.0.entries@ == build_pool_spec(results@, cap as nat),
            r.1 == (dedup_fw(accepted(results@)).len() == 0),
    {
        let ghost orig = results@;
        let mut results = results;
        let mut pool = DLEntryPool { comp_name: comp_name.to_owned(), entries: Vec::new() };
        proof {
            assert(orig.take(0) =~= Seq::<Result<Option<DLEntry>, DlError>>::empty());
        }
        while results.len() > 0
            invariant
                results@.len() <= orig.len(),
                results@ == orig.skip(orig.len() - results@.len()),
                pool.entries@ == dedup_fw(accepted(orig.take(orig.len() - results@.len()))),
                pool.comp_name@ == comp_name@,
            decreases results@.len(),
        {
            let ghost n = orig.len() - results@.len();
            proof {
                assert(orig.take(n + 1).drop_last() =~= orig.take(n));
                assert(orig.take(n + 1).last() == orig[n]);
                assert(orig.skip(n)[0] == orig[n]);
            }
            let res = results.remove(0);
            proof {
                assert(orig.skip(n).drop_first() =~= orig.skip(n + 1));
            }
            match res {
                Ok(Some(ent)) => {
                    let ghost acc = accepted(orig.take(n));
                    proof {
                        assert(accepted(orig.take(n + 1)) == acc.push(ent));
                        assert(acc.push(ent).drop_last() =~= acc);
                        assert(acc.push(ent).last() == ent);
                    }
                    pool.push_ent(ent);
                }
                _ => {
                    proof {
                        assert(accepted(orig.take(n + 1)) == accepted(orig.take(n)));
                    }
                }
            }
        }
        proof {
            assert(orig.take(orig.len() as int) =~= orig);
        }
        let abn = pool.is_empty();
        let ghost dents = dedup_fw(accepted(orig));
        let DLEntryPool { comp_name: comp, entries: mut ents } = pool;
        let mut sorted: Vec<DLEntry> = Vec::new();
        proof {
            assert(dents.take(0) =~= Seq::<DLEntry>::empty());
        }
        while ents.len() > 0
            invariant
                ents@.len() <= dents.len(),
                ents@ == dents.skip(dents.len() - ents@.len()),
                sorted@ == sort_desc(dents.take(dents.len() - ents@.len())),
            decreases ents@.len(),
        {
            let ghost n = dents.len() - ents@.len();
            proof {
                assert(dents.take(n + 1).drop_last() =~= dents.take(n));
                assert(dents.take(n + 1).last() == dents[n]);
                assert(dents.skip(n)[0] == dents[n]);
            }
            let e = ents.remove(0);
            proof {
                assert(dents.skip(n).drop_first() =~= dents.skip(n + 1));
            }
            insert_entry_desc(&mut sorted, e);
        }
        proof {
            assert(dents.take(dents.len() as int) =~= dents);
        }
        if sorted.len() > cap {
            sorted.truncate(cap);
        }
        (DLEntryPool { comp_name: comp, entries: sorted }, abn)
    }
}

// ---------------------------------------------------------------------------
// Laws of the pipeline.
// ---------------------------------------------------------------------------

/// Entries ranked by descending canonical name: no entry is below a later
/// one.
pub open spec fn sorted_desc(s: Seq<DLEntry>) -> bool {
    forall|i: int, j: int| 0 <= i < j < s.len() ==> !lex_lt(s[i].fname@, s[j].fname@)
}

/// No two entries share a canonical name.
pub open spec fn distinct_fnames(s: Seq<DLEntry>) -> bool {
    forall|i: int, j: int| 0 <= i < j < s.len() ==> s[i].fname@ != s[j].fname@
}

/// `e` stands at position `j` of `s` and no earlier entry has its name.
pub open spec fn first_occurrence_of(s: Seq<DLEntry>, j: int, e: DLEntry) -> bool {
    &&& 0 <= j < s.len()
    &&& s[j] == e
    &&& forall|k: int| 0 <= k < j ==> s[k].fname@ != e.fname@
}

/// Being at-or-above is transitive.
proof fn lemma_lex_ge_trans(a: Seq<char>, b: Seq<char>, c: Seq<char>)
    requires
        !lex_lt(a, b),
        !lex_lt(b, c),
    ensures
        !lex_lt(a, c),
{
    if lex_lt(a, c) {
        if lex_lt(b, a) {
            crate::text::lemma_lex_trans(b, a, c);
        } else {
            crate::text::lemma_lex_connected(a, b);
        }
    }
}

/// The order is asymmetric.
proof fn lemma_lex_asym(a: Seq<char>, b: Seq<char>)
    requires
        lex_lt(a, b),
    ensures
        !lex_lt(b, a),
{
    if lex_lt(b, a) {
        crate::text::lemma_lex_trans(a, b, a);
        crate::text::lemma_lex_irrefl(a);
    }
}

/// Deduplication leaves the canonical names' membership unchanged: a name
/// occurs among the kept entries exactly when it occurred among the inserted
/// ones, whatever order they arrived in.
pub proof fn lemma_dedup_membership(s: Seq<DLEntry>, f: Seq<char>)
    ensures
        fname_seen(dedup_fw(s), f) == fname_seen(s, f),
    decreases s.len(),
{
    if s.len() == 0 {
    } else {
        let st = s.drop_last();
        let d = dedup_fw(st);
        lemma_dedup_membership(st, f);
        lemma_dedup_membership(st, s.last().fname@);
        assert(fname_seen(s, f) == (fname_seen(st, f) || s.last().fname@ == f)) by {
            if fname_seen(st, f) {
                let i = choose|i: int| 0 <= i < st.len() && st[i].fname@ == f;
                assert(s[i].fname@ == f);
            }
            if s.last().fname@ == f {
                assert(s[s.len() - 1].fname@ == f);
            }
            if fname_seen(s, f) && !(s.last().fname@ == f) {
                let i = choose|i: int| 0 <= i < s.len() && s[i].fname@ == f;
                assert(st[i].fname@ == f);
            }
        }
        if fname_seen(d, s.last().fname@) {
        } else {
            let dd = d.push(s.last());
            assert(fname_seen(dd, f) == (fname_seen(d, f) || s.last().fname@ == f)) by {
                if fname_seen(d, f) {
                    let i = choose|i: int| 0 <= i < d.len() && d[i].fname@ == f;
                    assert(dd[i].fname@ == f);
                }
                if s.last().fname@ == f {
                    assert(dd[dd.len() - 1].fname@ == f);
                }
                if fname_seen(dd, f) {
                    let i = choose|i: int| 0 <= i < dd.len() && dd[i].fname@ == f;
                    if i < d.len() {
                        assert(d[i].fname@ == f);
                    }
                }
            }
        }
    }
}

/// What deduplication keeps has pairwise distinct canonical names.
pub proof fn lemma_dedup_distinct(s: Seq<DLEntry>)
    ensures
        distinct_fnames(dedup_fw(s)),
    decreases s.len(),
{
    if s.len() > 0 {
        let st = s.drop_last();
        let d = dedup_fw(st);
        lemma_dedup_distinct(st);
        if !fname_seen(d, s.last().fname@) {
            let dd = d.push(s.last());
            assert forall|i: int, j: int| 0 <= i < j < dd.len() implies dd[i].fname@
                != dd[j].fname@ by {
                if j < d.len() {
                    assert(d[i].fname@ != d[j].fname@);
                } else {
                    assert(dd[j] == s.last());
                    assert(!fname_seen(d, s.last().fname@));
                    assert(dd[i] == d[i]);
                }
            }
        }
    }
}

/// A sequence whose canonical names are already pairwise distinct passes
/// through deduplication unchanged.
pub proof fn lemma_dedup_of_distinct(s: Seq<DLEntry>)
    requires
        distinct_fnames(s),
    ensures
        dedup_fw(s) == s,
    decreases s.len(),
{
    if s.len() == 0 {
        assert(dedup_fw(s) =~= s);
    } else {
        let st = s.drop_last();
        assert(distinct_fnames(st));
        lemma_dedup_of_distinct(st);
        lemma_dedup_membership(st, s.last().fname@);
        assert(!fname_seen(st, s.last().fname@)) by {
            if fname_seen(st, s.last().fname@) {
                let i = choose|i: int| 0 <= i < st.len() && st[i].fname@ == s.last().fname@;
                assert(s[i].fname@ == s[s.len() - 1].fname@);
            }
        }
        assert(st.push(s.last()) =~= s);
    }
}

/// Deduplication is idempotent: inserting what was already deduplicated
/// changes nothing.
pub proof fn lemma_dedup_idempotent(s: Seq<DLEntry>)
    ensures
        dedup_fw(dedup_fw(s)) == dedup_fw(s),
{
    lemma_dedup_distinct(s);
    lemma_dedup_of_distinct(dedup_fw(s));
}

/// First write wins: every kept entry is the first arrival of its canonical
/// name.
pub proof fn lemma_dedup_first_wins(s: Seq<DLEntry>, i: int)
    requires
        0 <= i < dedup_fw(s).len(),
    ensures
        exists|j: int| first_occurrence_of(s, j, dedup_fw(s)[i]),
    decreases s.len(),
{
    assert(s.len() > 0);
    let st = s.drop_last();
    let d = dedup_fw(st);
    if fname_seen(d, s.last().fname@) {
        lemma_dedup_first_wins(st, i);
        let j = choose|j: int| first_occurrence_of(st, j, dedup_fw(st)[i]);
        assert(s[j] == st[j]);
        assert forall|k: int| 0 <= k < j implies s[k].fname@ != dedup_fw(s)[i].fname@ by {
            assert(st[k] == s[k]);
        }
        assert(first_occurrence_of(s, j, dedup_fw(s)[i]));
    } else {
        if i < d.len() {
            lemma_dedup_first_wins(st, i);
            assert(dedup_fw(s)[i] == dedup_fw(st)[i]);
            let j = choose|j: int| first_occurrence_of(st, j, dedup_fw(st)[i]);
            assert(s[j] == st[j]);
            assert forall|k: int| 0 <= k < j implies s[k].fname@ != dedup_fw(s)[i].fname@ by {
                assert(st[k] == s[k]);
            }
            assert(first_occurrence_of(s, j, dedup_fw(s)[i]));
        } else {
            assert(dedup_fw(s)[i] == s.last());
            lemma_dedup_membership(st, s.last().fname@);
            assert forall|k: int| 0 <= k < s.len() - 1 implies s[k].fname@
                != s.last().fname@ by {
                if s[k].fname@ == s.last().fname@ {
                    assert(st[k].fname@ == s.last().fname@);
                }
            }
            assert(first_occurrence_of(s, s.len() - 1, dedup_fw(s)[i]));
        }
    }
}

/// What inserting into a ranked sequence yields: still ranked, one entry
/// longer, with exactly the old entries and the new one.
proof fn lemma_insert_desc_props(e: DLEntry, s: Seq<DLEntry>)
    requires
        sorted_desc(s),
    ensures
        sorted_desc(insert_desc(e, s)),
        insert_desc(e, s).to_multiset() == s.to_multiset().insert(e),
        insert_desc(e, s).len() == s.len() + 1,
        forall|k: int|
            0 <= k < insert_desc(e, s).len() ==> (insert_desc(e, s)[k] == e || s.contains(
                insert_desc(e, s)[k],
            )),
    decreases s.len(),
{
    broadcast use vstd::seq_lib::group_to_multiset_ensures;

    let r = insert_desc(e, s);
    if s.len() == 0 {
        assert(r =~= Seq::<DLEntry>::empty().push(e));
        assert(r.to_multiset() =~= s.to_multiset().insert(e));
    } else if !lex_lt(e.fname@, s[0].fname@) {
        assert(r == seq![e] + s);
        assert forall|i: int, j: int| 0 <= i < j < r.len() implies !lex_lt(
            r[i].fname@,
            r[j].fname@,
        ) by {
            if i == 0 {
                assert(r[j] == s[j - 1]);
                if j - 1 > 0 {
                    assert(!lex_lt(s[0].fname@, s[j - 1].fname@));
                    lemma_lex_ge_trans(e.fname@, s[0].fname@, s[j - 1].fname@);
                }
            } else {
                assert(r[i] == s[i - 1] && r[j] == s[j - 1]);
            }
        }
        assert(r =~= s.insert(0, e));
        vstd::seq_lib::to_multiset_insert(s, 0, e);
        assert forall|k: int| 0 <= k < r.len() implies (r[k] == e || s.contains(r[k])) by {
            if k > 0 {
                assert(r[k] == s[k - 1]);
            }
        }
    } else {
        let st = s.drop_first();
        assert(sorted_desc(st)) by {
            assert forall|i: int, j: int| 0 <= i < j < st.len() implies !lex_lt(
                st[i].fname@,
                st[j].fname@,
            ) by {
                assert(st[i] == s[i + 1] && st[j] == s[j + 1]);
            }
        }
        lemma_insert_desc_props(e, st);
        let rt = insert_desc(e, st);
        assert(r == seq![s[0]] + rt);
        lemma_lex_asym(e.fname@, s[0].fname@);
        assert forall|i: int, j: int| 0 <= i < j < r.len() implies !lex_lt(
            r[i].fname@,
            r[j].fname@,
        ) by {
            if i == 0 {
                assert(r[j] == rt[j - 1]);
                if rt[j - 1] == e {
                    assert(!lex_lt(s[0].fname@, e.fname@));
                } else {
                    assert(st.contains(rt[j - 1]));
                    let m = choose|m: int| 0 <= m < st.len() && st[m] == rt[j - 1];
                    assert(st[m] == s[m + 1]);
                    assert(!lex_lt(s[0].fname@, s[m + 1].fname@));
                }
            } else {
                assert(r[i] == rt[i - 1] && r[j] == rt[j - 1]);
            }
        }
        assert(r.to_multiset() == s.to_multiset().insert(e)) by {
            vstd::seq_lib::lemma_multiset_commutative(seq![s[0]], rt);
            vstd::seq_lib::lemma_multiset_commutative(seq![s[0]], st);
            assert(seq![s[0]] + st =~= s);
            assert(seq![s[0]].to_multiset() =~= vstd::multiset::Multiset::<DLEntry>::empty().insert(
                s[0],
            ));
            assert(r.to_multiset() =~= s.to_multiset().insert(e));
        }
        assert forall|k: int| 0 <= k < r.len() implies (r[k] == e || s.contains(r[k])) by {
            if k == 0 {
                assert(s[0] == r[0]);
                assert(s.contains(s[0]));
            } else {
                assert(r[k] == rt[k - 1]);
                if rt[k - 1] != e {
                    assert(st.contains(rt[k - 1]));
                    let m = choose|m: int| 0 <= m < st.len() && st[m] == rt[k - 1];
                    assert(s[m + 1] == rt[k - 1]);
                }
            }
        }
    }
}

/// The ranking is a permutation of its input, in descending order of
/// canonical name.
pub proof fn lemma_sort_props(s: Seq<DLEntry>)
    ensures
        sorted_desc(sort_desc(s)),
        sort_desc(s).to_multiset() == s.to_multiset(),
        sort_desc(s).len() == s.len(),
    decreases s.len(),
{
    broadcast use vstd::seq_lib::group_to_multiset_ensures;

    if s.len() == 0 {
        assert(sort_desc(s).to_multiset() =~= s.to_multiset());
    } else {
        let st = s.drop_last();
        lemma_sort_props(st);
        lemma_insert_desc_props(s.last(), sort_desc(st));
        assert(st.push(s.last()) =~= s);
        assert(sort_desc(s).to_multiset() =~= s.to_multiset());
    }
}

/// A permutation of entries with pairwise distinct canonical names has them
/// pairwise distinct too.
proof fn lemma_perm_distinct(a: Seq<DLEntry>, b: Seq<DLEntry>)
    requires
        a.to_multiset() == b.to_multiset(),
        distinct_fnames(a),
    ensures
        distinct_fnames(b),
{
    broadcast use vstd::seq_lib::group_to_multiset_ensures;

    assert(a.no_duplicates()) by {
        assert forall|i: int, j: int|
            0 <= i < a.len() && 0 <= j < a.len() && i != j implies a[i] != a[j] by {
            if i < j {
                assert(a[i].fname@ != a[j].fname@);
            } else {
                assert(a[j].fname@ != a[i].fname@);
            }
        }
    }
    a.lemma_multiset_has_no_duplicates();
    b.lemma_multiset_has_no_duplicates_conv();
    assert forall|i: int, j: int| 0 <= i < j < b.len() implies b[i].fname@ != b[j].fname@ by {
        if b[i].fname@ == b[j].fname@ {
            assert(b[i] != b[j]);
            assert(b.contains(b[i]) && b.contains(b[j]));
            assert(b.to_multiset().count(b[i]) > 0 && b.to_multiset().count(b[j]) > 0);
            assert(a.to_multiset().count(b[i]) > 0 && a.to_multiset().count(b[j]) > 0);
            assert(a.contains(b[i]) && a.contains(b[j]));
            let m = choose|m: int| 0 <= m < a.len() && a[m] == b[i];
            let n = choose|n: int| 0 <= n < a.len() && a[n] == b[j];
            assert(m != n);
            if m < n {
                assert(a[m].fname@ != a[n].fname@);
            } else {
                assert(a[n].fname@ != a[m].fname@);
            }
        }
    }
}

/// Two rankings of the same entries, with pairwise distinct canonical
/// names, are the same sequence.
proof fn lemma_sorted_desc_unique(s1: Seq<DLEntry>, s2: Seq<DLEntry>)
    requires
        sorted_desc(s1),
        sorted_desc(s2),
        distinct_fnames(s1),
        distinct_fnames(s2),
        s1.to_multiset() == s2.to_multiset(),
    ensures
        s1 == s2,
    decreases s1.len(),
{
    broadcast use vstd::seq_lib::group_to_multiset_ensures;

    assert(s1.to_multiset().len() == s1.len());
    assert(s2.to_multiset().len() == s2.len());
    if s1.len() == 0 {
        assert(s1 =~= s2);
    } else {
        assert(s2.len() == s1.len());
        assert(s1.contains(s1[0]));
        assert(s1.to_multiset().count(s1[0]) > 0);
        assert(s2.to_multiset().count(s1[0]) > 0);
        assert(s2.contains(s1[0]));
        let i = choose|i: int| 0 <= i < s2.len() && s2[i] == s1[0];
        assert(s2.contains(s2[0]));
        assert(s2.to_multiset().count(s2[0]) > 0);
        assert(s1.to_multiset().count(s2[0]) > 0);
        assert(s1.contains(s2[0]));
        let j = choose|j: int| 0 <= j < s1.len() && s1[j] == s2[0];
        crate::text::lemma_lex_irrefl(s1[0].fname@);
        crate::text::lemma_lex_irrefl(s2[0].fname@);
        if i > 0 {
            assert(!lex_lt(s2[0].fname@, s2[i].fname@));
        }
        if j > 0 {
            assert(!lex_lt(s1[0].fname@, s1[j].fname@));
        }
        assert(!lex_lt(s2[0].fname@, s1[0].fname@));
        assert(!lex_lt(s1[0].fname@, s2[0].fname@));
        crate::text::lemma_lex_connected(s1[0].fname@, s2[0].fname@);
        assert(s1[0].fname@ == s2[0].fname@);
        assert(s2[0] == s1[0]) by {
            if i > 0 {
                assert(s2[0].fname@ != s2[i].fname@);
            }
        }
        let t1 = s1.drop_first();
        let t2 = s2.drop_first();
        assert(t1.to_multiset() == t2.to_multiset()) by {
            assert(s1.remove(0) =~= t1);
            assert(s2.remove(0) =~= t2);
            vstd::seq_lib::to_multiset_remove(s1, 0);
            vstd::seq_lib::to_multiset_remove(s2, 0);
        }
        assert(sorted_desc(t1) && distinct_fnames(t1)) by {
            assert(forall|i: int, j: int|
                0 <= i < j < t1.len() ==> t1[i] == s1[i + 1] && t1[j] == s1[j + 1]);
        }
        assert(sorted_desc(t2) && distinct_fnames(t2)) by {
            assert(forall|i: int, j: int|
                0 <= i < j < t2.len() ==> t2[i] == s2[i + 1] && t2[j] == s2[j + 1]);
        }
        lemma_sorted_desc_unique(t1, t2);
        assert(s1 =~= s2) by {
            assert(forall|k: int| 0 < k < s1.len() ==> s1[k] == t1[k - 1] && s2[k] == t2[k - 1]);
        }
    }
}

/// Deterministic ranking: over entries with pairwise distinct canonical
/// names, the finalized order depends only on which entries were accepted,
/// not on the order the classification tasks delivered them in.
pub proof fn lemma_deterministic_ranking(e1: Seq<DLEntry>, e2: Seq<DLEntry>, cap: nat)
    requires
        distinct_fnames(e1),
        e1.to_multiset() == e2.to_multiset(),
    ensures
        cap_entries(sort_desc(dedup_fw(e1)), cap) == cap_entries(sort_desc(dedup_fw(e2)), cap),
{
    lemma_perm_distinct(e1, e2);
    lemma_dedup_of_distinct(e1);
    lemma_dedup_of_distinct(e2);
    lemma_sort_props(e1);
    lemma_sort_props(e2);
    lemma_perm_distinct(e1, sort_desc(e1));
    lemma_perm_distinct(e2, sort_desc(e2));
    lemma_sorted_desc_unique(sort_desc(e1), sort_desc(e2));
}

/// Cap enforcement: the finalized pool is the ranking's prefix of length at
/// most `cap`, and every kept entry ranks at or above every dropped one.
pub proof fn lemma_cap_enforcement(e: Seq<DLEntry>, cap: nat)
    ensures
        ({
            let ranked = sort_desc(dedup_fw(e));
            let kept = cap_entries(ranked, cap);
            &&& kept.len() == if ranked.len() > cap {
                cap as int
            } else {
                ranked.len() as int
            }
            &&& forall|i: int| 0 <= i < kept.len() ==> kept[i] == ranked[i]
            &&& forall|i: int, j: int|
                0 <= i < kept.len() && kept.len() <= j < ranked.len() ==> !lex_lt(
                    kept[i].fname@,
                    ranked[j].fname@,
                )
        }),
{
    let ranked = sort_desc(dedup_fw(e));
    lemma_dedup_distinct(e);
    lemma_sort_props(dedup_fw(e));
    let kept = cap_entries(ranked, cap);
    assert(forall|i: int| 0 <= i < kept.len() ==> kept[i] == ranked[i]);
}

/// The finalized pool's invariant: no two of its entries are equal — their
/// canonical names are pairwise distinct — its order is the descending
/// ranking, and at most `cap` entries survive.
pub proof fn lemma_finalized_pool_invariant(
    results: Seq<Result<Option<DLEntry>, DlError>>,
    cap: nat,
)
    ensures
        distinct_fnames(build_pool_spec(results, cap)),
        sorted_desc(build_pool_spec(results, cap)),
        build_pool_spec(results, cap).len() <= cap,
{
    let acc = accepted(results);
    lemma_dedup_distinct(acc);
    lemma_sort_props(dedup_fw(acc));
    lemma_perm_distinct(dedup_fw(acc), sort_desc(dedup_fw(acc)));
    let s = sort_desc(dedup_fw(acc));
    let c = cap_entries(s, cap);
    assert(forall|i: int| 0 <= i < c.len() ==> c[i] == s[i]);
}

/// Partial-failure isolation: a task that failed, or classified its link
/// away, contributes nothing, and dropping it from the results leaves every
/// other task's contribution — and the finalized pool — unchanged.
pub proof fn lemma_failure_isolated(
    results: Seq<Result<Option<DLEntry>, DlError>>,
    i: int,
    cap: nat,
)
    requires
        0 <= i < results.len(),
        !(results[i] matches Ok(Some(_))),
    ensures
        accepted(results) == accepted(results.remove(i)),
        build_pool_spec(results, cap) == build_pool_spec(results.remove(i), cap),
    decreases results.len(),
{
    if i == results.len() - 1 {
        assert(results.remove(i) =~= results.drop_last());
    } else {
        let st = results.drop_last();
        lemma_failure_isolated(st, i, cap);
        assert(results.remove(i).drop_last() =~= st.remove(i));
        assert(results.remove(i).last() == results.last());
    }
}

/// Where `insert_desc` puts the new entry: before the first position whose
/// entry it is not below.
proof fn lemma_insert_desc_at(e: DLEntry, s: Seq<DLEntry>, j: int)
    requires
        0 <= j <= s.len(),
        forall|k: int| 0 <= k < j ==> lex_lt(e.fname@, s[k].fname@),
        j < s.len() ==> !lex_lt(e.fname@, s[j].fname@),
    ensures
        insert_desc(e, s) == s.insert(j, e),
    decreases j,
{
    if j == 0 {
        if s.len() == 0 {
            assert(insert_desc(e, s) =~= s.insert(0, e));
        } else {
            assert(insert_desc(e, s) =~= s.insert(0, e));
        }
    } else {
        assert(lex_lt(e.fname@, s[0].fname@));
        lemma_insert_desc_at(e, s.drop_first(), j - 1);
        assert(seq![s[0]] + s.drop_first().insert(j - 1, e) =~= s.insert(j, e));
    }
}

/// Inserts an entry into a descending-sorted vector at its rank.
fn insert_entry_desc(sorted: &mut Vec<DLEntry>, ent: DLEntry)
    ensures
        final(sorted)@ == insert_desc(ent, old(sorted)@),
{
    let mut j: usize = 0;
    while j < sorted.len() && str_lex_lt(ent.fname.as_str(), sorted[j].fname.as_str())
        invariant
            0 <= j <= sorted@.len(),
            sorted@ == old(sorted)@,
            forall|k: int| 0 <= k < j ==> lex_lt(ent.fname@, sorted@[k].fname@),
        decreases sorted@.len() - j,
    {
        j = j + 1;
    }
    proof {
        lemma_insert_desc_at(ent, sorted@, j as int);
    }
    sorted.insert(j, ent);
}

} // verus!
