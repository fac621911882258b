//! The commit log of one execution unit: the status of every transaction,
//! by transaction identifier.
//!
//! The log answers from its page cache. Where the page of a transaction is
//! not in the cache it says which page it needs; its owner reads that page
//! from the segment file, hands it over with `load_page`, and asks again.

use crate::access::page::{flushed, page_of, place_of, xid_page, xid_place, PageSink, PageView};
use crate::access::pagecache::{
    brought_in, given_up, index_of_page, kept, lemma_bring_in_changes_one_page,
    lemma_use_changes_one_page, page_numbered, pages_wf, released, released_all, resident,
    used_as, PageCache,
};
use crate::access::status::{lemma_write_changes_one_status, VecXidStatus, XidStatus};
use crate::utils::xid::Xid;
use crate::KB_BLCKSZ;
use vstd::prelude::*;

verus! {

/// The answer of the commit log to a question about one transaction.
#[derive(Clone, Copy, Debug, PartialEq, Eq, Structural)]
pub enum Fetch<T> {
    /// The page was in the cache: this is the answer.
    Ready(T),
    /// The page with this number has to be loaded first.
    NeedPage(u64),
}

/// How far a batch read got.
#[derive(Clone, Copy, Debug, PartialEq, Eq, Structural)]
pub enum BatchStep {
    /// Every transaction of the batch was answered.
    Done,
    /// The transactions before position `next` were answered; for the one
    /// at `next` the page with number `pageno` has to be loaded first.
    NeedPage { pageno: u64, next: usize },
}

/// The number of the page of a transaction.
pub open spec fn pageno_of(xid: int) -> u64 {
    page_of(xid) as u64
}

/// The cache holds the page of the transaction.
pub open spec fn known(pages: Seq<PageView>, xid: int) -> bool {
    resident(pages, pageno_of(xid))
}

/// The status of a transaction, as the page in the cache has it.
pub open spec fn status_in(pages: Seq<PageView>, xid: int) -> XidStatus {
    page_numbered(pages, pageno_of(xid)).statuses()[place_of(xid)]
}

/// The cache after the status of a transaction was read: its page is the
/// most recently used.
pub open spec fn after_read(pages: Seq<PageView>, xid: int) -> Seq<PageView> {
    used_as(pages, pageno_of(xid), page_numbered(pages, pageno_of(xid)))
}

/// The cache after the status of a transaction was set: its page is the
/// most recently used, is dirty, and has the new status at the place of the
/// transaction.
pub open spec fn after_write(pages: Seq<PageView>, xid: int, status: XidStatus) -> Seq<PageView> {
    used_as(
        pages,
        pageno_of(xid),
        page_numbered(pages, pageno_of(xid)).written(place_of(xid), status),
    )
}

/// The output buffer after the transactions at positions `from` up to `to`
/// of a batch were answered in turn: the status of each stands at the
/// position that the index map gives for it.
pub open spec fn batch_out(
    out: Seq<XidStatus>,
    pages: Seq<PageView>,
    xids: Seq<Xid>,
    idxes: Seq<usize>,
    from: int,
    to: int,
) -> Seq<XidStatus>
    decreases to - from,
{
    if to <= from {
        out
    } else {
        batch_out(out, pages, xids, idxes, from, to - 1).update(
            idxes[to - 1] as int,
            status_in(pages, xids[to - 1]@ as int),
        )
    }
}

/// The cache after the transactions at positions `from` up to `to` of a
/// batch were read in turn.
pub open spec fn batch_pages(pages: Seq<PageView>, xids: Seq<Xid>, from: int, to: int) -> Seq<
    PageView,
>
    decreases to - from,
{
    if to <= from {
        pages
    } else {
        after_read(batch_pages(pages, xids, from, to - 1), xids[to - 1]@ as int)
    }
}

/// Two caches hold the same pages, in whatever order.
pub open spec fn same_pages(a: Seq<PageView>, b: Seq<PageView>) -> bool {
    &&& forall|pageno: u64| #[trigger] resident(a, pageno) == resident(b, pageno)
    &&& forall|pageno: u64|
        resident(a, pageno) ==> #[trigger] page_numbered(a, pageno) == page_numbered(b, pageno)
}

/// The commit log.
pub struct Clog {
    cache: PageCache,
}

impl View for Clog {
    type V = Seq<PageView>;

    /// The pages in the cache, least recently used first.
    closed spec fn view(&self) -> Seq<PageView> {
        self.cache@
    }
}

impl Clog {
    /// The number of pages the cache holds at most.
    pub closed spec fn capacity(&self) -> nat {
        self.cache.capacity()
    }

    /// The invariant of the commit log: that of its page cache.
    pub open spec fn wf(&self) -> bool {
        pages_wf(self@, self.capacity())
    }

    /// A commit log with an empty cache for at most `cache_size` pages.
    /// There is none for `cache_size == 0`.
    pub fn new(cache_size: usize) -> (clog: Option<Self>)
        ensures
            cache_size == 0 ==> clog is None,
            cache_size >= 1 ==> clog is Some && clog.unwrap().wf() && clog.unwrap()@ == Seq::<
                PageView,
            >::empty() && clog.unwrap().capacity() == cache_size,
    {
        match PageCache::new(cache_size) {
            None => None,
            Some(cache) => Some(Clog { cache }),
        }
    }

    /// The number of pages in the cache.
    pub fn len(&self) -> (n: usize)
        ensures
            n == self@.len(),
    {
        self.cache.len()
    }

    /// The number of pages the cache holds at most.
    pub fn cap(&self) -> (n: usize)
        ensures
            n == self.capacity(),
    {
        self.cache.cap()
    }

    /// The status of a transaction.
    pub fn xid_status(&mut self, xid: Xid) -> (answer: Fetch<XidStatus>)
        requires
            old(self).wf(),
        ensures
            final(self).wf(),
            final(self).capacity() == old(self).capacity(),
            known(old(self)@, xid@ as int) ==> answer == Fetch::Ready(
                status_in(old(self)@, xid@ as int),
            ) && final(self)@ == after_read(old(self)@, xid@ as int),
            !known(old(self)@, xid@ as int) ==> answer == Fetch::<XidStatus>::NeedPage(
                pageno_of(xid@ as int),
            ) && final(self)@ == old(self)@,
            same_pages(old(self)@, final(self)@),
    {
        let pageno = xid_page(xid);
        proof {
            if known(self@, xid@ as int) {
                lemma_read_keeps_pages(self@, self.capacity(), xid@ as int);
            }
        }
        match self.cache.status(pageno, xid_place(xid)) {
            Some(status) => Fetch::Ready(status),
            None => Fetch::NeedPage(pageno),
        }
    }

    /// Sets the status of one transaction. The page of the transaction is
    /// dirty afterwards, and no other status on it has changed. A reader
    /// that holds the page keeps it as it was.
    pub fn set_xid_status(&mut self, xid: Xid, status: XidStatus, sink: &mut PageSink) -> (answer:
        Fetch<()>)
        requires
            old(self).wf(),
        ensures
            final(self).wf(),
            final(self).capacity() == old(self).capacity(),
            known(old(self)@, xid@ as int) ==> answer == Fetch::Ready(()) && final(self)@
                == after_write(old(self)@, xid@ as int, status) && known(
                final(self)@,
                xid@ as int,
            ) && status_in(final(self)@, xid@ as int) == status && released(
                old(sink)@,
                final(sink)@,
                page_numbered(old(self)@, pageno_of(xid@ as int)),
            ),
            !known(old(self)@, xid@ as int) ==> answer == Fetch::<()>::NeedPage(
                pageno_of(xid@ as int),
            ) && final(self)@ == old(self)@ && final(sink)@ == old(sink)@,
    {
        let pageno = xid_page(xid);
        proof {
            if known(self@, xid@ as int) {
                lemma_set_then_read(self@, self.capacity(), xid@ as int, status);
            }
        }
        if self.cache.set_status(pageno, xid_place(xid), status, sink) {
            Fetch::Ready(())
        } else {
            Fetch::NeedPage(pageno)
        }
    }

    /// Reads the statuses of a batch of transactions, from position `start`
    /// of the batch on. The transactions may come in any order and more
    /// than once. The status of the transaction at position `i` is put at
    /// position `idxes[i]` of `out`. The read stops at the first
    /// transaction whose page is not in the cache, and is taken up again
    /// from there once the page is loaded.
    pub fn get_xid_status(
        &mut self,
        xids: &[Xid],
        idxes: &[usize],
        out: &mut VecXidStatus,
        start: usize,
    ) -> (step: BatchStep)
        requires
            old(self).wf(),
            idxes@.len() == xids@.len(),
            start <= xids@.len(),
            forall|i: int| 0 <= i < idxes@.len() ==> idxes@[i] < old(out)@.len(),
        ensures
            final(self).wf(),
            final(self).capacity() == old(self).capacity(),
            same_pages(old(self)@, final(self)@),
            final(out)@.len() == old(out)@.len(),
            match step {
                BatchStep::Done => final(out)@ == batch_out(
                    old(out)@,
                    old(self)@,
                    xids@,
                    idxes@,
                    start as int,
                    xids@.len() as int,
                ) && final(self)@ == batch_pages(
                    old(self)@,
                    xids@,
                    start as int,
                    xids@.len() as int,
                ),
                BatchStep::NeedPage { pageno, next } => start <= next < xids@.len() && final(out)@
                    == batch_out(old(out)@, old(self)@, xids@, idxes@, start as int, next as int)
                    && final(self)@ == batch_pages(old(self)@, xids@, start as int, next as int)
                    && pageno == pageno_of(xids@[next as int]@ as int) && !known(
                    old(self)@,
                    xids@[next as int]@ as int,
                ),
            },
    {
        let ghost pages = self@;
        let ghost before = out@;
        let mut i: usize = start;
        while i < xids.len()
            invariant
                start <= i <= xids@.len(),
                idxes@.len() == xids@.len(),
                pages == old(self)@,
                before == old(out)@,
                self.wf(),
                self.capacity() == old(self).capacity(),
                pages_wf(pages, self.capacity()),
                same_pages(pages, self@),
                out@.len() == before.len(),
                forall|k: int| 0 <= k < idxes@.len() ==> idxes@[k] < before.len(),
                out@ == batch_out(before, pages, xids@, idxes@, start as int, i as int),
                self@ == batch_pages(pages, xids@, start as int, i as int),
            decreases xids@.len() - i,
        {
            let xid = xids[i];
            let ghost now = self@;
            match self.xid_status(xid) {
                Fetch::NeedPage(pageno) => {
                    assert(resident(pages, pageno) == resident(now, pageno));
                    return BatchStep::NeedPage { pageno, next: i };
                },
                Fetch::Ready(status) => {
                    out.set(idxes[i], status);
                    proof {
                        let p = pageno_of(xid@ as int);
                        assert forall|q: u64| #[trigger]
                            resident(pages, q) == resident(self@, q) by {
                            lemma_use_changes_one_page(
                                now,
                                self.capacity(),
                                p,
                                page_numbered(now, p),
                                q,
                            );
                            assert(resident(pages, q) == resident(now, q));
                        }
                        assert forall|q: u64| resident(pages, q) implies #[trigger] page_numbered(
                            pages,
                            q,
                        ) == page_numbered(self@, q) by {
                            lemma_use_changes_one_page(
                                now,
                                self.capacity(),
                                p,
                                page_numbered(now, p),
                                q,
                            );
                            assert(resident(pages, q) == resident(now, q));
                            assert(page_numbered(pages, q) == page_numbered(now, q));
                        }
                        assert(resident(pages, p) == resident(now, p));
                        assert(page_numbered(pages, p) == page_numbered(now, p));
                    }
                    i += 1;
                },
            }
        }
        BatchStep::Done
    }

    /// Hands over a page that was read from disk. It becomes the most
    /// recently used page of the cache. A full cache first gives up its
    /// least recently used page, which thereby reaches the sink if it is
    /// dirty and no reader holds it. Nothing is done if `data` is not one
    /// block long or if the cache holds the page already.
    pub fn load_page(&mut self, pageno: u64, data: Vec<u8>, sink: &mut PageSink) -> (done: bool)
        requires
            old(self).wf(),
        ensures
            final(self).wf(),
            final(self).capacity() == old(self).capacity(),
            done == (data@.len() == KB_BLCKSZ && !resident(old(self)@, pageno)),
            done ==> final(self)@ == brought_in(
                old(self)@,
                old(self).capacity(),
                PageView { pageno, data: data@, dirty: false },
            ),
            done ==> resident(final(self)@, pageno) && page_numbered(final(self)@, pageno) == (
            PageView { pageno, data: data@, dirty: false }),
            done && old(self)@.len() >= old(self).capacity() ==> released(
                old(sink)@,
                final(sink)@,
                old(self)@[0],
            ),
            done && old(self)@.len() < old(self).capacity() ==> final(sink)@ == old(sink)@,
            !done ==> final(self)@ == old(self)@ && final(sink)@ == old(sink)@,
    {
        proof {
            if data@.len() == KB_BLCKSZ && !resident(self@, pageno) {
                lemma_brought_in_is_resident(
                    self@,
                    self.capacity(),
                    PageView { pageno, data: data@, dirty: false },
                );
            }
        }
        self.cache.load(pageno, data, sink)
    }

    /// Sets the limit of the page cache to `cache_size` pages and gives up
    /// the pages beyond it, least recently used first. Nothing is done for
    /// `cache_size == 0`.
    pub fn resize_cache(&mut self, cache_size: usize, sink: &mut PageSink) -> (done: bool)
        requires
            old(self).wf(),
        ensures
            final(self).wf(),
            done == (cache_size >= 1),
            done ==> final(self).capacity() == cache_size && final(self)@
                == kept(old(self)@, cache_size as nat) && released_all(
                old(sink)@,
                final(sink)@,
                given_up(old(self)@, cache_size as nat),
            ),
            !done ==> final(self).capacity() == old(self).capacity() && final(self)@ == old(
                self,
            )@ && final(sink)@ == old(sink)@,
    {
        self.cache.resize(cache_size, sink)
    }

    /// Gives up every page of the cache, least recently used first, so that
    /// what is dirty reaches the sink.
    pub fn close(&mut self, sink: &mut PageSink)
        requires
            old(self).wf(),
        ensures
            final(self).wf(),
            final(self).capacity() == old(self).capacity(),
            final(self)@ == Seq::<PageView>::empty(),
            released_all(old(sink)@, final(sink)@, old(self)@),
    {
        self.cache.clear(sink)
    }
}

/// The status that was set for a transaction is the status that is read for
/// it next.
pub proof fn lemma_set_then_read(pages: Seq<PageView>, limit: nat, xid: int, status: XidStatus)
    requires
        pages_wf(pages, limit),
        xid >= 1,
        known(pages, xid),
    ensures
        pages_wf(after_write(pages, xid, status), limit),
        known(after_write(pages, xid, status), xid),
        status_in(after_write(pages, xid, status), xid) == status,
{
    let p = pageno_of(xid);
    let page = page_numbered(pages, p);
    assert(page.data.len() == KB_BLCKSZ);
    lemma_write_changes_one_status(page.data, place_of(xid), status);
    lemma_use_changes_one_page(pages, limit, p, page.written(place_of(xid), status), p);
}

/// Setting the status of one transaction changes the status of no other,
/// be it on the same page, in the same byte even, or on another page.
pub proof fn lemma_set_keeps_other_statuses(
    pages: Seq<PageView>,
    limit: nat,
    xid: int,
    status: XidStatus,
    other: int,
)
    requires
        pages_wf(pages, limit),
        1 <= xid <= u64::MAX,
        1 <= other <= u64::MAX,
        other != xid,
        known(pages, xid),
        known(pages, other),
    ensures
        known(after_write(pages, xid, status), other),
        status_in(after_write(pages, xid, status), other) == status_in(pages, other),
{
    let p = pageno_of(xid);
    let page = page_numbered(pages, p);
    assert(page.data.len() == KB_BLCKSZ);
    lemma_write_changes_one_status(page.data, place_of(xid), status);
    lemma_use_changes_one_page(
        pages,
        limit,
        p,
        page.written(place_of(xid), status),
        pageno_of(other),
    );
    if pageno_of(other) == p {
        assert(place_of(other) != place_of(xid)) by {
            assert(page_of(other) == page_of(xid));
        }
    }
}

/// Reading the status of one transaction leaves the cache with the pages it
/// had.
pub proof fn lemma_read_keeps_pages(pages: Seq<PageView>, limit: nat, xid: int)
    requires
        pages_wf(pages, limit),
        known(pages, xid),
    ensures
        pages_wf(after_read(pages, xid), limit),
        same_pages(pages, after_read(pages, xid)),
{
    let p = pageno_of(xid);
    let after = after_read(pages, xid);
    assert forall|q: u64| #[trigger] resident(pages, q) == resident(after, q) by {
        lemma_use_changes_one_page(pages, limit, p, page_numbered(pages, p), q);
    }
    assert forall|q: u64| resident(pages, q) implies #[trigger] page_numbered(pages, q)
        == page_numbered(after, q) by {
        lemma_use_changes_one_page(pages, limit, p, page_numbered(pages, p), q);
    }
    lemma_use_changes_one_page(pages, limit, p, page_numbered(pages, p), p);
}

/// A page that is brought in is in the cache afterwards, as it came.
pub proof fn lemma_brought_in_is_resident(pages: Seq<PageView>, limit: nat, page: PageView)
    requires
        pages_wf(pages, limit),
        !resident(pages, page.pageno),
        page.data.len() == KB_BLCKSZ,
    ensures
        pages_wf(brought_in(pages, limit, page), limit),
        resident(brought_in(pages, limit, page), page.pageno),
        page_numbered(brought_in(pages, limit, page), page.pageno) == page,
{
    let after = brought_in(pages, limit, page);
    assert(after[after.len() - 1] == page);
    if pages.len() > 0 {
        let first = pages[0].pageno;
        assert(resident(pages, first));
        lemma_bring_in_changes_one_page(pages, limit, page, first);
    } else {
        assert(after =~= seq![page]);
        let k = index_of_only(after, page.pageno);
    }
}

/// Reading the status of one transaction changes the status of none.
pub proof fn lemma_read_keeps_statuses(pages: Seq<PageView>, limit: nat, xid: int, other: int)
    requires
        pages_wf(pages, limit),
        known(pages, xid),
        known(pages, other),
    ensures
        pages_wf(after_read(pages, xid), limit),
        known(after_read(pages, xid), other),
        status_in(after_read(pages, xid), other) == status_in(pages, other),
{
    let p = pageno_of(xid);
    lemma_use_changes_one_page(pages, limit, p, page_numbered(pages, p), pageno_of(other));
}

/// A dirty page that is torn down leaves its bytes in the sink, and the page
/// that is loaded from those bytes later has every status as it was set:
/// what was written before a page left the cache is read after it came
/// back.
pub proof fn lemma_status_survives_eviction(
    pages: Seq<PageView>,
    limit: nat,
    page: PageView,
    waiting: Seq<(u64, Seq<u8>)>,
    xid: int,
)
    requires
        pages_wf(pages, limit),
        page.dirty,
        page.data.len() == KB_BLCKSZ,
        !resident(pages, page.pageno),
        xid >= 1,
        pageno_of(xid) == page.pageno,
    ensures
        flushed(waiting, page).last() == (page.pageno, page.data),
        status_in(
            brought_in(
                pages,
                limit,
                PageView {
                    pageno: flushed(waiting, page).last().0,
                    data: flushed(waiting, page).last().1,
                    dirty: false,
                },
            ),
            xid,
        ) == page.statuses()[place_of(xid)],
{
    let back = PageView { pageno: page.pageno, data: page.data, dirty: false };
    lemma_brought_in_is_resident(pages, limit, back);
}

/// The place of the page in a cache that holds this one page only.
proof fn index_of_only(pages: Seq<PageView>, pageno: u64) -> (k: int)
    requires
        pages.len() == 1,
        pages[0].pageno == pageno,
    ensures
        k == index_of_page(pages, pageno),
        k == 0,
{
    assert(resident(pages, pageno));
    0
}

} // verus!
