use vstd::prelude::*;
use crate::dedup::{merge_records, merged};
use crate::html::{text_option, text_options};
use crate::page::{page_outcome, process_page};
use crate::record::{ProductRecord, RecordView, ScrapeError, record_views};

verus! {

/// The records gathered from fetched pages taken in the order they arrived
/// (`None` for a page whose fetch failed, which adds nothing, as does a page too
/// long to parse); an error where some page has a card whose caption link lacks
/// an `href`.
pub open spec fn gathered(pages: Seq<Option<Seq<char>>>) -> Result<Seq<RecordView>, ScrapeError>
    decreases pages.len(),
{
    if pages.len() == 0 {
        Ok(Seq::empty())
    } else {
        match gathered(pages.drop_last()) {
            Err(e) => Err(e),
            Ok(acc) => absorbed(acc, pages.last()),
        }
    }
}

/// `acc` after one more page outcome arrives.
pub open spec fn absorbed(acc: Seq<RecordView>, page: Option<Seq<char>>) -> Result<
    Seq<RecordView>,
    ScrapeError,
> {
    match page {
        None => Ok(acc),
        Some(p) => match page_outcome(p) {
            Ok(recs) => Ok(merged(acc, recs)),
            Err(ScrapeError::PageTooLarge) => Ok(acc),
            Err(e) => Err(e),
        },
    }
}

/// Takes in one page's outcome: a failed fetch (`None`) or a page too long to
/// parse changes nothing, a fetched page adds its records, each product kept
/// once overall; a caption link without an `href` stops the crawl.
pub fn absorb_page(all: &mut Vec<ProductRecord>, page: Option<String>) -> (r: Result<(), ScrapeError>)
    ensures
        match absorbed(record_views(old(all)@), text_option(page)) {
            Ok(acc) => r is Ok && record_views(final(all)@) == acc,
            Err(e) => r == Err::<(), ScrapeError>(e) && final(all)@ == old(all)@,
        },
{
    match page {
        None => Ok(()),
        Some(body) => match process_page(body.as_str()) {
            Ok(records) => {
                merge_records(all, records);
                Ok(())
            },
            Err(ScrapeError::PageTooLarge) => Ok(()),
            Err(e) => Err(e),
        },
    }
}

/// The records of all pages taken in the order given, each product once, the
/// first record of it winning; a page whose fetch failed, or that is too long
/// to parse, is passed over.
pub fn crawl_pages(pages: Vec<Option<String>>) -> (r: Result<Vec<ProductRecord>, ScrapeError>)
    ensures
        match gathered(text_options(pages@)) {
            Ok(acc) => r is Ok && record_views(r->Ok_0@) == acc,
            Err(e) => r == Err::<Vec<ProductRecord>, ScrapeError>(e),
        },
{
    let ghost ps = text_options(pages@);
    let mut outcomes = pages;
    let mut all: Vec<ProductRecord> = Vec::new();
    let n = outcomes.len();
    let mut i: usize = 0;
    assert(ps.take(0) =~= Seq::<Option<Seq<char>>>::empty());
    assert(record_views(all@) =~= Seq::<RecordView>::empty());
    while i < n
        invariant
            i <= n == outcomes@.len() == ps.len(),
            ps == text_options(pages@),
            forall|k: int| i <= k < n ==> text_option(#[trigger] outcomes@[k]) == ps[k],
            gathered(ps.take(i as int)) == Ok::<Seq<RecordView>, ScrapeError>(record_views(all@)),
        decreases n - i,
    {
        let mut slot: Option<String> = None;
        std::mem::swap(&mut slot, &mut outcomes[i]);
        proof {
            let t = ps.take(i + 1);
            assert(t.drop_last() =~= ps.take(i as int));
            assert(t.last() == text_option(slot));
        }
        match absorb_page(&mut all, slot) {
            Ok(()) => {},
            Err(e) => {
                proof {
                    assert(gathered(ps.take(i + 1)) == Err::<Seq<RecordView>, ScrapeError>(e));
                    lemma_failure_persists(ps, i + 1);
                }
                return Err(e);
            },
        }
        i += 1;
    }
    assert(ps.take(n as int) =~= ps);
    Ok(all)
}

/// Once a page has stopped the crawl, no later page restarts it.
proof fn lemma_failure_persists(ps: Seq<Option<Seq<char>>>, i: int)
    requires
        0 <= i <= ps.len(),
        gathered(ps.take(i)) is Err,
    ensures
        gathered(ps) == gathered(ps.take(i)),
    decreases ps.len() - i,
{
    if i < ps.len() {
        assert(ps.take(i + 1).drop_last() =~= ps.take(i));
        lemma_failure_persists(ps, i + 1);
    } else {
        assert(ps.take(i) =~= ps);
    }
}

/// A page whose fetch failed contributes nothing: the crawl gathers from the
/// outcomes with that failure among them exactly what it gathers without it.
pub proof fn lemma_failed_fetch_adds_nothing(pages: Seq<Option<Seq<char>>>, k: int)
    requires
        0 <= k <= pages.len(),
    ensures
        gathered(pages.insert(k, None)) == gathered(pages),
    decreases pages.len(),
{
    let with = pages.insert(k, None);
    if k == pages.len() {
        assert(with.drop_last() =~= pages);
    } else {
        lemma_failed_fetch_adds_nothing(pages.drop_last(), k);
        assert(with.drop_last() =~= pages.drop_last().insert(k, None));
        assert(with.last() == pages.last());
    }
}

} // verus!
