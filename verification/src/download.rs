//! The discovery-and-classification pipeline: page discovery, link
//! classification into a pool, the download plan with its manifest, and the
//! fold of a whole run's results into the available and abnormal lists.

use vstd::prelude::*;

use crate::text::opt_string_view;
use download_page::PageAns;

pub mod download_link;
pub mod download_page;
pub mod file_download;

verus! {

/// A page answer reduced to its plain values, for stating which answers two
/// collections hold.
pub open spec fn page_view(p: PageAns) -> (Seq<char>, bool, Option<Seq<char>>, bool) {
    (p.component_name@, p.available, opt_string_view(p.site_url), p.abnoarmal)
}

/// The plain values of a whole collection of page answers.
pub open spec fn page_views(s: Seq<PageAns>) -> Seq<(Seq<char>, bool, Option<Seq<char>>, bool)> {
    s.map_values(|p: PageAns| page_view(p))
}

/// Appending an answer appends its plain values.
proof fn lemma_page_views_push(s: Seq<PageAns>, p: PageAns)
    ensures
        page_views(s.push(p)) == page_views(s).push(page_view(p)),
{
    assert(page_views(s.push(p)) =~= page_views(s).push(page_view(p)));
}

/// The components of a batch that produced a page, in task order.
pub open spec fn somes_pages(s: Seq<Option<PageAns>>) -> Seq<PageAns>
    decreases s.len(),
{
    if s.len() == 0 {
        Seq::empty()
    } else {
        let prev = somes_pages(s.drop_last());
        match s.last() {
            Some(p) => prev.push(p),
            None => prev,
        }
    }
}

/// The pages whose pool came out empty.
pub open spec fn abnormal_only(s: Seq<PageAns>) -> Seq<PageAns>
    decreases s.len(),
{
    if s.len() == 0 {
        Seq::empty()
    } else {
        let prev = abnormal_only(s.drop_last());
        if s.last().abnoarmal {
            prev.push(s.last())
        } else {
            prev
        }
    }
}

/// Folds a run's per-component results into the two reports: every page
/// found, and the subset whose pool came out empty.  A component whose
/// worker produced nothing appears in neither.
pub fn partition_batch(results: Vec<Option<PageAns>>) -> (r: (Vec<PageAns>, Vec<PageAns>))
    ensures
        r.0@ == somes_pages(results@),
        page_views(r.1@) == page_views(abnormal_only(somes_pages(results@))),
{
    let ghost orig = results@;
    let mut results = results;
    let mut all: Vec<PageAns> = Vec::new();
    let mut abn: Vec<PageAns> = Vec::new();
    proof {
        assert(orig.take(0) =~= Seq::<Option<PageAns>>::empty());
        assert(page_views(abn@) =~= page_views(abnormal_only(somes_pages(orig.take(0)))));
    }
    while results.len() > 0
        invariant
            results@.len() <= orig.len(),
            results@ == orig.skip(orig.len() - results@.len()),
            all@ == somes_pages(orig.take(orig.len() - results@.len())),
            page_views(abn@) == page_views(
                abnormal_only(somes_pages(orig.take(orig.len() - results@.len()))),
            ),
        decreases results@.len(),
    {
        let ghost n = orig.len() - results@.len();
        proof {
            assert(orig.take(n + 1).drop_last() =~= orig.take(n));
            assert(orig.take(n + 1).last() == orig[n]);
            assert(orig.skip(n)[0] == orig[n]);
        }
        let res = results.remove(0);
        proof {
            assert(orig.skip(n).drop_first() =~= orig.skip(n + 1));
        }
        match res {
            Some(page) => {
                let ghost sp = somes_pages(orig.take(n));
                proof {
                    assert(somes_pages(orig.take(n + 1)) == sp.push(page));
                    assert(sp.push(page).drop_last() =~= sp);
                    assert(sp.push(page).last() == page);
                }
                if page.abnoarmal {
                    let ghost abn_old = abn@;
                    let copy = page.duplicate();
                    proof {
                        assert(page_view(copy) == page_view(page));
                    }
                    abn.push(copy);
                    proof {
                        let target = abnormal_only(somes_pages(orig.take(n + 1)));
                        assert(target == abnormal_only(sp).push(page));
                        lemma_page_views_push(abnormal_only(sp), page);
                        lemma_page_views_push(abn_old, copy);
                        assert(page_views(abn@) == page_views(target));
                    }
                }
                all.push(page);
            }
            None => {
                proof {
                    assert(somes_pages(orig.take(n + 1)) == somes_pages(orig.take(n)));
                }
            }
        }
    }
    proof {
        assert(orig.take(orig.len() as int) =~= orig);
    }
    (all, abn)
}

} // verus!
