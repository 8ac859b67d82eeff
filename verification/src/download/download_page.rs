//! Page discovery: the oracle's fenced-JSON reply, its sanity checks, and
//! the revalidation of the page it names — liveness first, then the
//! rejection of forge-style mirror hosts.

use vstd::prelude::*;
use vstd::string::StrSliceExecFns;

use crate::DlError;
use crate::text::{
    contains_seq, is_word, occurs_at, occurs_at_exec, opt_string_view, run_end,
    str_contains_sub, word_run_end_exec, lemma_run_end,
};
use crate::utils::url_parses;

verus! {

/// The oracle's answer about one component's download page, revalidated
/// before use; `abnoarmal` is set after the entry pool is built, when that
/// pool came out empty.
pub struct PageAns {
    pub component_name: String,
    pub available: bool,
    pub site_url: Option<String>,
    pub abnoarmal: bool,
}

// ---------------------------------------------------------------------------
// The forge-host grammar: hosts that serve mirrors rather than official
// distributions.  A host is rejected when it carries "github.com", or
// "gitlab." followed — directly or across one word-and-dot label — by
// "com".
// ---------------------------------------------------------------------------

/// A gitlab-style host pattern begins at position `i` of the host.
pub open spec fn gitlab_match_at(h: Seq<char>, i: int) -> bool {
    &&& occurs_at(h, "gitlab."@, i)
    &&& {
        ||| occurs_at(h, "com"@, i + 7)
        ||| {
            let e = run_end(h, |c: char| is_word(c), i + 7);
            e > i + 7 && e < h.len() && h[e] == '.' && occurs_at(h, "com"@, e + 1)
        }
    }
}

/// The host matches the gitlab pattern somewhere.
pub open spec fn gitlab_host(h: Seq<char>) -> bool {
    exists|i: int| gitlab_match_at(h, i)
}

/// A host that belongs to an official distribution site rather than a forge
/// or public mirror service.
pub open spec fn official_host(h: Seq<char>) -> bool {
    !contains_seq(h, "github.com"@) && !gitlab_host(h)
}

/// Tests the gitlab pattern at one position.
fn gitlab_match_at_exec(h: &str, len: usize, i: usize) -> (b: bool)
    requires
        len == h@.len(),
        i < len,
    ensures
        b == gitlab_match_at(h@, i as int),
{
    proof {
        reveal_strlit("gitlab.");
        reveal_strlit("com");
    }
    if len - i < 7 {
        assert(!occurs_at(h@, "gitlab."@, i as int));
        return false;
    }
    if !occurs_at_exec(h, "gitlab.", i) {
        return false;
    }
    if len - i >= 10 && occurs_at_exec(h, "com", i + 7) {
        return true;
    }
    assert(!occurs_at(h@, "com"@, i + 7));
    let e = word_run_end_exec(h, len, i + 7);
    proof {
        lemma_run_end(h@, |c: char| is_word(c), i + 7);
    }
    if e > i + 7 && e < len {
        if h.get_char(e) == '.' {
            if len - e >= 4 && occurs_at_exec(h, "com", e + 1) {
                return true;
            }
            assert(!occurs_at(h@, "com"@, e + 1));
        }
    }
    false
}

/// Whether a host matches the gitlab pattern anywhere.
pub fn is_gitlab_host(h: &str) -> (b: bool)
    ensures
        b == gitlab_host(h@),
{
    let len = h.unicode_len();
    let mut i: usize = 0;
    while i < len
        invariant
            len == h@.len(),
            0 <= i <= len,
            forall|k: int| 0 <= k < i ==> !gitlab_match_at(h@, k),
        decreases len - i,
    {
        if gitlab_match_at_exec(h, len, i) {
            return true;
        }
        i = i + 1;
    }
    proof {
        reveal_strlit("gitlab.");
        assert forall|k: int| !gitlab_match_at(h@, k) by {
            if 0 <= k < len {
            } else {
                assert(!occurs_at(h@, "gitlab."@, k));
            }
        }
    }
    false
}

/// The host of a parsed URL, or None for a URL without one; a function of
/// the URL text alone.
pub uninterp spec fn url_host(s: Seq<char>) -> Option<Seq<char>>;

/// Relies on reqwest::Url::parse and Url::host_str of the url crate: for a
/// string that parses, the host part depends on the string alone; URLs that
/// cannot be a base have no host.
#[verifier::external_body]
fn url_host_str(url: &str) -> (r: Option<Option<String>>)
    ensures
        r is Some <==> url_parses(url@),
        r matches Some(h) ==> opt_string_view(h) == url_host(url@),
{
    match reqwest::Url::parse(url) {
        Ok(u) => Some(u.host_str().map(|s| s.to_string())),
        Err(_) => None,
    }
}

/// Whether a URL names an official distribution site: its host exists and
/// is neither a github host nor a gitlab-style one.  A URL that does not
/// parse is an error.
pub fn is_official_url(url: &str) -> (r: Result<bool, DlError>)
    ensures
        match r {
            Err(e) => !url_parses(url@) && e is UrlUnparseable,
            Ok(b) => url_parses(url@) && b == (match url_host(url@) {
                None => false,
                Some(h) => official_host(h),
            }),
        },
{
    match url_host_str(url) {
        None => Err(DlError::UrlUnparseable),
        Some(None) => Ok(false),
        Some(Some(host)) => {
            if str_contains_sub(host.as_str(), "github.com") {
                Ok(false)
            } else if is_gitlab_host(host.as_str()) {
                Ok(false)
            } else {
                Ok(true)
            }
        }
    }
}

// ---------------------------------------------------------------------------
// The fenced-JSON grammar of the oracle's page reply.
//
// A reply must carry a fenced block: the opening fence, then at least one
// character none of which is a backtick, then the closing fence.  The
// sanitized answer is the inside of the leftmost such block.
// ---------------------------------------------------------------------------

/// A fenced block begins at position `i`.
pub open spec fn fence_match_at(s: Seq<char>, i: int) -> bool {
    &&& occurs_at(s, "```json"@, i)
    &&& {
        let e = run_end(s, |c: char| c != '`', i + 7);
        e > i + 7 && occurs_at(s, "```"@, e)
    }
}

/// The first position, at or after `i`, where a fenced block begins.
pub open spec fn first_fence_start(s: Seq<char>, i: int) -> Option<int>
    decreases s.len() - i,
    when 0 <= i <= s.len()
{
    if i >= s.len() {
        None
    } else if fence_match_at(s, i) {
        Some(i)
    } else {
        first_fence_start(s, i + 1)
    }
}

/// The inside of the leftmost fenced block, if any.
pub open spec fn fenced_json(s: Seq<char>) -> Option<Seq<char>> {
    match first_fence_start(s, 0) {
        None => None,
        Some(i) => Some(s.subrange(i + 7, run_end(s, |c: char| c != '`', i + 7))),
    }
}

/// Tests for a fenced block at one position.
fn fence_match_at_exec(s: &str, len: usize, i: usize) -> (b: bool)
    requires
        len == s@.len(),
        i < len,
    ensures
        b == fence_match_at(s@, i as int),
{
    proof {
        reveal_strlit("```json");
        reveal_strlit("```");
    }
    if len - i < 7 {
        assert(!occurs_at(s@, "```json"@, i as int));
        return false;
    }
    if !occurs_at_exec(s, "```json", i) {
        return false;
    }
    let e = crate::text::non_backtick_run_end_exec(s, len, i + 7);
    proof {
        lemma_run_end(s@, |c: char| c != '`', i + 7);
    }
    if e == i + 7 {
        return false;
    }
    if len - e < 3 {
        assert(!occurs_at(s@, "```"@, e as int));
        return false;
    }
    occurs_at_exec(s, "```", e)
}

/// Extracts the single fenced JSON object from the oracle's reply; a reply
/// without a fenced block broke the oracle's contract.
pub fn sanitize_ans(ans: &str) -> (r: Result<String, DlError>)
    ensures
        match r {
            Ok(s) => fenced_json(ans@) matches Some(v) && s@ == v,
            Err(e) => fenced_json(ans@) is None && e is OracleContract,
        },
{
    let len = ans.unicode_len();
    let mut i: usize = 0;
    while i < len
        invariant
            len == ans@.len(),
            0 <= i <= len,
            first_fence_start(ans@, 0) == first_fence_start(ans@, i as int),
        decreases len - i,
    {
        if fence_match_at_exec(ans, len, i) {
            proof {
                reveal_strlit("```json");
                lemma_run_end(ans@, |c: char| c != '`', i + 7);
            }
            let e = crate::text::non_backtick_run_end_exec(ans, len, i + 7);
            let body = ans.substring_char(i + 7, e);
            return Ok(body.to_owned());
        }
        i = i + 1;
    }
    Err(DlError::OracleContract)
}

// ---------------------------------------------------------------------------
// Reading the reply's JSON fields.
// ---------------------------------------------------------------------------

/// The string value of a named field of a JSON text; None when the text
/// does not parse, the field is absent, or it is not a string.  A function
/// of the text and the key alone.
pub uninterp spec fn json_field_str(s: Seq<char>, key: Seq<char>) -> Option<Seq<char>>;

/// The boolean value of a named field of a JSON text, None likewise.
pub uninterp spec fn json_field_bool(s: Seq<char>, key: Seq<char>) -> Option<bool>;

/// Relies on serde_json::from_str::<Value>, Value::get and Value::as_str:
/// parsing is deterministic, so a field's string value depends on the text
/// and the key alone.
#[verifier::external_body]
fn json_string_field(s: &str, key: &str) -> (r: Option<String>)
    ensures
        opt_string_view(r) == json_field_str(s@, key@),
{
    let v: serde_json::Value = match serde_json::from_str(s) {
        Ok(v) => v,
        Err(_) => return None,
    };
    match v.get(key) {
        Some(f) => f.as_str().map(|x| x.to_string()),
        None => None,
    }
}

/// Relies on serde_json::from_str::<Value>, Value::get and Value::as_bool:
/// parsing is deterministic, so a field's boolean value depends on the text
/// and the key alone.
#[verifier::external_body]
fn json_bool_field(s: &str, key: &str) -> (r: Option<bool>)
    ensures
        r == json_field_bool(s@, key@),
{
    let v: serde_json::Value = match serde_json::from_str(s) {
        Ok(v) => v,
        Err(_) => return None,
    };
    match v.get(key) {
        Some(f) => f.as_bool(),
        None => None,
    }
}

/// Parses the oracle's reply about a component's download page: the fenced
/// block is extracted and its object read.  A reply without a fence, or
/// whose object lacks the component name or the availability flag, broke
/// the oracle's contract; the site URL may be absent.  The abnormal flag of
/// a fresh answer is clear.
pub fn page_ans_from_reply(ans: &str) -> (r: Result<PageAns, DlError>)
    ensures
        match r {
            Ok(p) => {
                &&& fenced_json(ans@) matches Some(j)
                &&& json_field_str(j, "component_name"@) matches Some(cn) && p.component_name@
                    == cn
                &&& json_field_bool(j, "available"@) matches Some(av) && p.available == av
                &&& opt_string_view(p.site_url) == json_field_str(j, "site_url"@)
                &&& !p.abnoarmal
            },
            Err(e) => {
                &&& e is OracleContract
                &&& (fenced_json(ans@) is None || (fenced_json(ans@) matches Some(j)
                    && (json_field_str(j, "component_name"@) is None || json_field_bool(
                    j,
                    "available"@,
                ) is None)))
            },
        },
{
    let body = match sanitize_ans(ans) {
        Ok(b) => b,
        Err(e) => {
            return Err(e);
        }
    };
    let comp = match json_string_field(body.as_str(), "component_name") {
        Some(c) => c,
        None => {
            return Err(DlError::OracleContract);
        }
    };
    let avail = match json_bool_field(body.as_str(), "available") {
        Some(a) => a,
        None => {
            return Err(DlError::OracleContract);
        }
    };
    let site = json_string_field(body.as_str(), "site_url");
    Ok(PageAns { component_name: comp, available: avail, site_url: site, abnoarmal: false })
}

// ---------------------------------------------------------------------------
// The batch fold of discovered pages.
// ---------------------------------------------------------------------------

/// The site URLs of the discovered pages, in task order.
pub open spec fn page_urls(s: Seq<Option<PageAns>>) -> Seq<Seq<char>>
    decreases s.len(),
{
    if s.len() == 0 {
        Seq::empty()
    } else {
        let prev = page_urls(s.drop_last());
        match s.last() {
            Some(p) => prev.push(p.site_url->Some_0@),
            None => prev,
        }
    }
}

/// Folds the page-discovery results of a batch into the list of page URLs,
/// in task order, components without a page skipped.
pub fn collect_page_urls(results: Vec<Option<PageAns>>) -> (r: Vec<String>)
    requires
        forall|i: int|
            0 <= i < results@.len() ==> (#[trigger] results@[i] matches Some(p) ==> p.site_url
                is Some),
    ensures
        r@.map_values(|s: String| s@) == page_urls(results@),
{
    let ghost orig = results@;
    let mut results = results;
    let mut out: Vec<String> = Vec::new();
    proof {
        assert(orig.take(0) =~= Seq::<Option<PageAns>>::empty());
    }
    while results.len() > 0
        invariant
            forall|i: int|
                0 <= i < orig.len() ==> (#[trigger] orig[i] matches Some(p) ==> p.site_url
                    is Some),
            results@.len() <= orig.len(),
            results@ == orig.skip(orig.len() - results@.len()),
            out@.map_values(|s: String| s@) == page_urls(orig.take(orig.len() - results@.len())),
        decreases results@.len(),
    {
        let ghost n = orig.len() - results@.len();
        proof {
            assert(orig.take(n + 1).drop_last() =~= orig.take(n));
            assert(orig.take(n + 1).last() == orig[n]);
            assert(orig.skip(n)[0] == orig[n]);
        }
        let res = results.remove(0);
        proof {
            assert(orig.skip(n).drop_first() =~= orig.skip(n + 1));
        }
        match res {
            Some(page) => {
                let url = page.get_url();
                out.push(url);
                proof {
                    assert(out@.map_values(|s: String| s@) =~= page_urls(orig.take(n + 1)));
                }
            }
            None => {
                proof {
                    assert(page_urls(orig.take(n + 1)) == page_urls(orig.take(n)));
                }
            }
        }
    }
    proof {
        assert(orig.take(orig.len() as int) =~= orig);
    }
    out
}

impl PageAns {
    /// The page URL of an available answer.  Asking an answer without one
    /// is a programming error and stands outside this function's contract.
    pub fn get_url(&self) -> (r: String)
        requires
            self.site_url is Some,
        ensures
            r@ == self.site_url->Some_0@,
    {
        match &self.site_url {
            Some(u) => u.clone(),
            None => vstd::pervasive::unreached(),
        }
    }

    /// A copy of the answer, field for field.
    pub fn duplicate(&self) -> (r: PageAns)
        ensures
            r.component_name@ == self.component_name@,
            r.available == self.available,
            opt_string_view(r.site_url) == opt_string_view(self.site_url),
            r.abnoarmal == self.abnoarmal,
    {
        PageAns {
            component_name: self.component_name.clone(),
            available: self.available,
            site_url: match &self.site_url {
                Some(u) => Some(u.clone()),
                None => None,
            },
            abnoarmal: self.abnoarmal,
        }
    }

    /// What to probe for liveness: the declared site URL, when the answer
    /// declares itself available at all.
    pub fn refrac_precheck(&self) -> (r: Option<String>)
        ensures
            match r {
                Some(u) => self.available && (self.site_url matches Some(su) && u@ == su@),
                None => !self.available || self.site_url is None,
            },
    {
        if !self.available {
            return None;
        }
        match &self.site_url {
            None => None,
            Some(u) => Some(u.clone()),
        }
    }

    /// The revalidation decision, with the liveness probe's outcome handed
    /// in: an unavailable answer, an unreachable page, and a forge-style
    /// host all yield nothing; otherwise the answer is rebuilt around the
    /// resolved URL that the probe reported, not the oracle's original
    /// string.
    pub fn refrac_with_valid_url(&self, probe_ok: bool, resolved_url: Option<String>) -> (r:
        Result<Option<PageAns>, DlError>)
        requires
            probe_ok ==> resolved_url is Some,
        ensures
            match r {
                Err(e) => {
                    &&& self.available
                    &&& self.site_url is Some
                    &&& probe_ok
                    &&& !url_parses(resolved_url->Some_0@)
                    &&& e is UrlUnparseable
                },
                Ok(None) => !self.available || self.site_url is None || !probe_ok || (probe_ok
                    && url_parses(resolved_url->Some_0@) && match url_host(resolved_url->Some_0@) {
                    None => true,
                    Some(h) => !official_host(h),
                }),
                Ok(Some(p)) => {
                    &&& self.available
                    &&& self.site_url is Some
                    &&& probe_ok
                    &&& url_parses(resolved_url->Some_0@)
                    &&& url_host(resolved_url->Some_0@) matches Some(h) && official_host(h)
                    &&& p.component_name@ == self.component_name@
                    &&& p.available
                    &&& p.site_url matches Some(su) && su@ == resolved_url->Some_0@
                    &&& !p.abnoarmal
                },
            },
    {
        if !self.available || matches!(&self.site_url, None) {
            return Ok(None);
        }
        if !probe_ok {
            return Ok(None);
        }
        let res_url: String = match resolved_url {
            Some(u) => u,
            None => vstd::pervasive::unreached(),
        };
        match is_official_url(res_url.as_str()) {
            Err(e) => Err(e),
            Ok(false) => Ok(None),
            Ok(true) => Ok(
                Some(
                    PageAns {
                        component_name: self.component_name.clone(),
                        available: true,
                        site_url: Some(res_url),
                        abnoarmal: false,
                    },
                ),
            ),
        }
    }
}

} // verus!
