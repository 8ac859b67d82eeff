//! The download plan for a finalized pool: where each artifact goes, and
//! the manifest that records every intended entry.  The fetching and the
//! writing themselves are the caller's work.

use vstd::prelude::*;
use vstd::string::StringExecFns;

use super::download_link::{DLEntry, DLEntryPool};

verus! {

/// The per-user download directory under the base directory.
pub fn get_download_dir(base_dir: &str, username: &str) -> (r: String)
    ensures
        r@ == base_dir@ + "/"@ + username@,
{
    base_dir.to_owned().concat("/").concat(username)
}

/// The directory whose subdirectory names are the candidate component
/// names.
pub fn get_github_dl_dir(base_dir: &str, username: &str) -> (r: String)
    ensures
        r@ == base_dir@ + "/"@ + username@ + "/"@ + "GitHub"@,
{
    get_download_dir(base_dir, username).concat("/").concat("GitHub")
}

/// The official-download root under the base directory: the per-user
/// subdirectory's `Official` folder.
pub fn get_offical_dl_dir(base_dir: &str, username: &str) -> (r: String)
    ensures
        r@ == base_dir@ + "/"@ + username@ + "/"@ + "Official"@,
{
    base_dir.to_owned().concat("/").concat(username).concat("/").concat("Official")
}

/// Where the list of available pages of a whole run is written.
pub fn get_official_available_page_fpath(official_dir: &str) -> (r: String)
    ensures
        r@ == official_dir@ + "/"@ + "available_url_list.json"@,
{
    official_dir.to_owned().concat("/").concat("available_url_list.json")
}

/// Where the list of abnormal pages of a whole run is written.
pub fn get_official_abnormal_page_fpath(official_dir: &str) -> (r: String)
    ensures
        r@ == official_dir@ + "/"@ + "abnormal_url_list.json"@,
{
    official_dir.to_owned().concat("/").concat("abnormal_url_list.json")
}

/// One line of the manifest: the literal file name, a separator, the URL.
pub open spec fn manifest_line(e: DLEntry) -> Seq<char> {
    e.fname_ext@ + ": "@ + e.url@ + "\n"@
}

/// The whole manifest: one line per intended entry, in pool order,
/// regardless of whether its download succeeds.
pub open spec fn manifest_text_spec(s: Seq<DLEntry>) -> Seq<char>
    decreases s.len(),
{
    if s.len() == 0 {
        Seq::empty()
    } else {
        manifest_text_spec(s.drop_last()) + manifest_line(s.last())
    }
}

impl DLEntry {
    /// The component's directory under the official-download root.
    pub fn get_comp_dir(&self, official_dir: &str) -> (r: String)
        ensures
            r@ == official_dir@ + "/"@ + self.comp_name@,
    {
        official_dir.to_owned().concat("/").concat(self.comp_name.as_str())
    }

    /// The component's `repos` directory, where artifacts land.
    pub fn get_comp_repo_dir(&self, official_dir: &str) -> (r: String)
        ensures
            r@ == official_dir@ + "/"@ + self.comp_name@ + "/"@ + "repos"@,
    {
        self.get_comp_dir(official_dir).concat("/").concat("repos")
    }

    /// Where this entry's artifact is written: the `repos` directory, then
    /// the literal file name from the URL.
    pub fn get_download_path(&self, official_dir: &str) -> (r: String)
        ensures
            r@ == official_dir@ + "/"@ + self.comp_name@ + "/"@ + "repos"@ + "/"@
                + self.fname_ext@,
    {
        self.get_comp_repo_dir(official_dir).concat("/").concat(self.fname_ext.as_str())
    }
}

/// One planned fetch: the URL to get and the path to write its body to.
pub struct DownloadJob {
    pub url: String,
    pub dest_path: String,
}

impl DLEntryPool {
    /// The component's directory under the official-download root.
    pub fn get_comp_dir(&self, official_dir: &str) -> (r: String)
        ensures
            r@ == official_dir@ + "/"@ + self.comp_name@,
    {
        official_dir.to_owned().concat("/").concat(self.comp_name.as_str())
    }

    /// Where this pool's manifest is written.
    pub fn get_download_link_file_path(&self, official_dir: &str) -> (r: String)
        ensures
            r@ == official_dir@ + "/"@ + self.comp_name@ + "/"@ + "downloadlinks.txt"@,
    {
        self.get_comp_dir(official_dir).concat("/").concat("downloadlinks.txt")
    }

    /// The manifest's text: every intended entry, one line each, in pool
    /// order — independent of any download's outcome.
    pub fn manifest_text(&self, official_dir: &str) -> (r: String)
        ensures
            r@ == manifest_text_spec(self.entries@),
    {
        let mut text = String::new();
        let mut i: usize = 0;
        proof {
            assert(self.entries@.take(0) =~= Seq::<DLEntry>::empty());
        }
        while i < self.entries.len()
            invariant
                0 <= i <= self.entries@.len(),
                text@ == manifest_text_spec(self.entries@.take(i as int)),
            decreases self.entries@.len() - i,
        {
            proof {
                assert(self.entries@.take(i + 1).drop_last() =~= self.entries@.take(i as int));
                assert(self.entries@.take(i + 1).last() == self.entries@[i as int]);
            }
            text.append(self.entries[i].fname_ext.as_str());
            text.append(": ");
            text.append(self.entries[i].url.as_str());
            text.append("\n");
            i = i + 1;
        }
        proof {
            assert(self.entries@.take(self.entries@.len() as int) =~= self.entries@);
        }
        text
    }

    /// The fetch plan for this pool: one job per entry, in pool order, each
    /// writing under the component's `repos` directory.
    pub fn download_plan(&self, official_dir: &str) -> (r: Vec<DownloadJob>)
        ensures
            r@.len() == self.entries@.len(),
            forall|i: int|
                0 <= i < r@.len() ==> (#[trigger] r@[i]).url@ == self.entries@[i].url@
                    && r@[i].dest_path@ == official_dir@ + "/"@ + self.entries@[i].comp_name@
                    + "/"@ + "repos"@ + "/"@ + self.entries@[i].fname_ext@,
    {
        let mut jobs: Vec<DownloadJob> = Vec::new();
        let mut i: usize = 0;
        while i < self.entries.len()
            invariant
                0 <= i <= self.entries@.len(),
                jobs@.len() == i,
                forall|k: int|
                    0 <= k < i ==> (#[trigger] jobs@[k]).url@ == self.entries@[k].url@
                        && jobs@[k].dest_path@ == official_dir@ + "/"@
                        + self.entries@[k].comp_name@ + "/"@ + "repos"@ + "/"@
                        + self.entries@[k].fname_ext@,
            decreases self.entries@.len() - i,
        {
            let ent = &self.entries[i];
            let job = DownloadJob {
                url: ent.url.clone(),
                dest_path: ent.get_download_path(official_dir),
            };
            jobs.push(job);
            i = i + 1;
        }
        jobs
    }

    /// What the manifest step of a download is: nothing at all for an empty
    /// pool — its manifest is skipped, not written empty — and otherwise
    /// the manifest path and its full text.
    pub fn manifest_action(&self, official_dir: &str) -> (r: Option<(String, String)>)
        ensures
            match r {
                None => self.entries@.len() == 0,
                Some(pt) => {
                    &&& self.entries@.len() > 0
                    &&& pt.0@ == official_dir@ + "/"@ + self.comp_name@ + "/"@
                        + "downloadlinks.txt"@
                    &&& pt.1@ == manifest_text_spec(self.entries@)
                },
            },
    {
        if self.is_empty() {
            return None;
        }
        Some((self.get_download_link_file_path(official_dir), self.manifest_text(official_dir)))
    }
}

} // verus!
