//! A bounded cache of commit-log pages, keyed by page number.
//!
//! Each page sits behind a shared-ownership handle, so that a reader may
//! keep the page as it was while a writer goes on. The cache reads and writes
//! no file: its owner hands it the bytes of a page that is missing, and
//! finds in the sink the pages that have to go back to disk.

use crate::access::page::{flushed, Page, PageSink, PageView};
use crate::access::status::XidStatus;
use crate::utils::marc::{duplicate, Marc};
use crate::KB_BLCKSZ;
use vstd::prelude::*;

verus! {

/// Some page of the cache has this number.
pub open spec fn resident(pages: Seq<PageView>, pageno: u64) -> bool {
    exists|i: int| 0 <= i < pages.len() && (#[trigger] pages[i]).pageno == pageno
}

/// The place in the cache of the page with this number, where there is one.
pub open spec fn index_of_page(pages: Seq<PageView>, pageno: u64) -> int {
    choose|i: int| 0 <= i < pages.len() && (#[trigger] pages[i]).pageno == pageno
}

/// The page with this number, where the cache holds it.
pub open spec fn page_numbered(pages: Seq<PageView>, pageno: u64) -> PageView {
    pages[index_of_page(pages, pageno)]
}

/// No two pages have the same number.
pub open spec fn distinct_pages(pages: Seq<PageView>) -> bool {
    forall|i: int, j: int| 0 <= i < j < pages.len() ==> pages[i].pageno != pages[j].pageno
}

/// What holds of the pages of every cache with this limit: the limit is at
/// least one page, the cache holds no more than that, no page twice, and
/// every page is one block long.
pub open spec fn pages_wf(pages: Seq<PageView>, limit: nat) -> bool {
    &&& 1 <= limit
    &&& pages.len() <= limit
    &&& distinct_pages(pages)
    &&& forall|i: int| 0 <= i < pages.len() ==> (#[trigger] pages[i]).data.len() == KB_BLCKSZ
}

/// The pages after the page with this number was used and left as `page`:
/// it is now the most recently used, the others keep their order.
pub open spec fn used_as(pages: Seq<PageView>, pageno: u64, page: PageView) -> Seq<PageView> {
    pages.remove(index_of_page(pages, pageno)).push(page)
}

/// The pages after a page was brought in as the most recently used one. A
/// full cache gives up its least recently used page for it.
pub open spec fn brought_in(pages: Seq<PageView>, limit: nat, page: PageView) -> Seq<PageView> {
    if pages.len() >= limit {
        pages.drop_first().push(page)
    } else {
        pages.push(page)
    }
}

/// What may wait in a sink after the cache gave up its handle of `page`:
/// the page was torn down, or others still hold it and nothing happened.
pub open spec fn released(
    before: Seq<(u64, Seq<u8>)>,
    after: Seq<(u64, Seq<u8>)>,
    page: PageView,
) -> bool {
    after == before || after == flushed(before, page)
}

/// What may wait in a sink after the cache gave up its handles of `pages`,
/// one after the other.
pub open spec fn released_all(
    before: Seq<(u64, Seq<u8>)>,
    after: Seq<(u64, Seq<u8>)>,
    pages: Seq<PageView>,
) -> bool
    decreases pages.len(),
{
    if pages.len() == 0 {
        after == before
    } else {
        exists|mid: Seq<(u64, Seq<u8>)>|
            released_all(before, mid, pages.drop_last()) && released(mid, after, pages.last())
    }
}

/// The page cache.
pub struct PageCache {
    slots: Vec<Marc<Page>>,
    cap: usize,
}

impl View for PageCache {
    type V = Seq<PageView>;

    /// The pages in the cache, least recently used first.
    closed spec fn view(&self) -> Seq<PageView> {
        Seq::new(self.slots@.len(), |i: int| self.slots@[i]@@)
    }
}

impl PageCache {
    /// The number of pages the cache holds at most.
    pub closed spec fn capacity(&self) -> nat {
        self.cap as nat
    }

    /// The invariant of the cache.
    pub open spec fn wf(&self) -> bool {
        pages_wf(self@, self.capacity())
    }

    /// An empty cache for at most `cap` pages. A cache has room for one page
    /// at least, so there is none for `cap == 0`.
    pub fn new(cap: usize) -> (cache: Option<Self>)
        ensures
            cap == 0 ==> cache is None,
            cap >= 1 ==> cache is Some && cache.unwrap().wf() && cache.unwrap()@ == Seq::<
                PageView,
            >::empty() && cache.unwrap().capacity() == cap,
    {
        if cap == 0 {
            None
        } else {
            let cache = PageCache { slots: Vec::new(), cap };
            assert(cache@ =~= Seq::<PageView>::empty());
            Some(cache)
        }
    }

    /// The number of pages in the cache.
    pub fn len(&self) -> (n: usize)
        ensures
            n == self@.len(),
    {
        self.slots.len()
    }

    /// The number of pages the cache holds at most.
    pub fn cap(&self) -> (n: usize)
        ensures
            n == self.capacity(),
    {
        self.cap
    }

    fn find(&self, pageno: u64) -> (found: Option<usize>)
        requires
            self.wf(),
        ensures
            resident(self@, pageno) ==> found == Some(index_of_page(self@, pageno) as usize),
            !resident(self@, pageno) ==> found is None,
    {
        let mut i: usize = 0;
        while i < self.slots.len()
            invariant
                i <= self.slots@.len(),
                self.wf(),
                forall|k: int| 0 <= k < i ==> (#[trigger] self@[k]).pageno != pageno,
            decreases self.slots@.len() - i,
        {
            if self.slots[i].pageno() == pageno {
                proof {
                    assert(self@[i as int].pageno == pageno);
                    lemma_index_of_page(self@, pageno, i as int);
                }
                return Some(i);
            }
            i += 1;
        }
        None
    }

    /// Whether the cache holds the page. This is no use of the page.
    pub fn contains(&self, pageno: u64) -> (found: bool)
        requires
            self.wf(),
        ensures
            found == resident(self@, pageno),
    {
        self.find(pageno).is_some()
    }

    /// Reads the status at `place` of a page, if the cache holds the page,
    /// and counts that as a use of it.
    pub fn status(&mut self, pageno: u64, place: usize) -> (found: Option<XidStatus>)
        requires
            old(self).wf(),
            place < 32768,
        ensures
            final(self).wf(),
            final(self).capacity() == old(self).capacity(),
            resident(old(self)@, pageno) ==> found == Some(
                page_numbered(old(self)@, pageno).statuses()[place as int],
            ) && final(self)@ == used_as(old(self)@, pageno, page_numbered(old(self)@, pageno)),
            !resident(old(self)@, pageno) ==> found is None && final(self)@ == old(self)@,
    {
        match self.find(pageno) {
            None => None,
            Some(i) => {
                let ghost before = self@;
                let handle = self.slots.remove(i);
                let status = handle.status(place);
                self.slots.push(handle);
                proof {
                    assert(self@ =~= used_as(before, pageno, before[i as int]));
                    lemma_use_keeps_wf(before, self.cap as nat, pageno, before[i as int]);
                }
                Some(status)
            },
        }
    }

    /// One more handle of a page, for a reader that wants to keep the page
    /// as it is now. This counts as a use of the page. The reader gives the
    /// handle up with `unref` when it is done.
    pub fn snapshot(&mut self, pageno: u64) -> (found: Option<Marc<Page>>)
        requires
            old(self).wf(),
        ensures
            final(self).wf(),
            final(self).capacity() == old(self).capacity(),
            resident(old(self)@, pageno) ==> found is Some && found.unwrap()@@ == page_numbered(
                old(self)@,
                pageno,
            ) && final(self)@ == used_as(old(self)@, pageno, page_numbered(old(self)@, pageno)),
            !resident(old(self)@, pageno) ==> found is None && final(self)@ == old(self)@,
    {
        match self.find(pageno) {
            None => None,
            Some(i) => {
                let ghost before = self@;
                let handle = self.slots.remove(i);
                let copy = handle.clone();
                self.slots.push(handle);
                proof {
                    assert(self@ =~= used_as(before, pageno, before[i as int]));
                    lemma_use_keeps_wf(before, self.cap as nat, pageno, before[i as int]);
                }
                Some(copy)
            },
        }
    }

    /// Writes a status at `place` of a page, if the cache holds the page,
    /// and counts that as a use of it. The page is then dirty. Readers that
    /// hold the page keep it as it was: the cache then goes on with a
    /// duplicate and gives up its handle of the old page.
    pub fn set_status(
        &mut self,
        pageno: u64,
        place: usize,
        status: XidStatus,
        sink: &mut PageSink,
    ) -> (done: bool)
        requires
            old(self).wf(),
            place < 32768,
        ensures
            final(self).wf(),
            final(self).capacity() == old(self).capacity(),
            done == resident(old(self)@, pageno),
            done ==> final(self)@ == used_as(
                old(self)@,
                pageno,
                page_numbered(old(self)@, pageno).written(place as int, status),
            ) && released(old(sink)@, final(sink)@, page_numbered(old(self)@, pageno)),
            !done ==> final(self)@ == old(self)@ && final(sink)@ == old(sink)@,
    {
        match self.find(pageno) {
            None => false,
            Some(i) => {
                let ghost before = self@;
                let mut handle = self.slots.remove(i);
                let ghost held = handle@;
                let page = handle.make_mut(sink);
                proof {
                    lemma_duplicate_page(held, *page);
                }
                page.set_status(place, status);
                self.slots.push(handle);
                proof {
                    let after = before[i as int].written(place as int, status);
                    assert(self@ =~= used_as(before, pageno, after));
                    lemma_use_keeps_wf(before, self.cap as nat, pageno, after);
                }
                true
            },
        }
    }

    /// Brings in a page that was read from disk, as the most recently used
    /// one. A full cache first gives up its handle of the least recently
    /// used page, which is thereby torn down unless a reader still holds it.
    /// Nothing is done if `data` is not one block long, or if the cache
    /// holds the page already: what it holds is never older than the disk.
    pub fn load(&mut self, pageno: u64, data: Vec<u8>, sink: &mut PageSink) -> (done: bool)
        requires
            old(self).wf(),
        ensures
            final(self).wf(),
            final(self).capacity() == old(self).capacity(),
            done == (data@.len() == KB_BLCKSZ && !resident(old(self)@, pageno)),
            done ==> final(self)@ == brought_in(
                old(self)@,
                old(self).capacity(),
                PageView { pageno, data: data@, dirty: false },
            ),
            done && old(self)@.len() >= old(self).capacity() ==> released(
                old(sink)@,
                final(sink)@,
                old(self)@[0],
            ),
            done && old(self)@.len() < old(self).capacity() ==> final(sink)@ == old(sink)@,
            !done ==> final(self)@ == old(self)@ && final(sink)@ == old(sink)@,
    {
        if self.find(pageno).is_some() {
            return false;
        }
        let ghost before = self@;
        let ghost bytes = data@;
        match Page::new(pageno, data) {
            None => false,
            Some(page) => {
                if self.slots.len() >= self.cap {
                    let victim = self.slots.remove(0);
                    victim.unref(sink);
                }
                self.slots.push(Marc::new(page));
                proof {
                    let fresh = PageView { pageno, data: bytes, dirty: false };
                    assert(self@ =~= brought_in(before, self.cap as nat, fresh));
                    lemma_bring_in_keeps_wf(before, self.cap as nat, fresh);
                }
                true
            },
        }
    }

    /// Sets the limit to `cap` pages and gives up the pages beyond it, least
    /// recently used first. Nothing is done for `cap == 0`.
    pub fn resize(&mut self, cap: usize, sink: &mut PageSink) -> (done: bool)
        requires
            old(self).wf(),
        ensures
            final(self).wf(),
            done == (cap >= 1),
            done ==> final(self).capacity() == cap && final(self)@ == kept(old(self)@, cap as nat)
                && released_all(old(sink)@, final(sink)@, given_up(old(self)@, cap as nat)),
            !done ==> final(self).capacity() == old(self).capacity() && final(self)@ == old(
                self,
            )@ && final(sink)@ == old(sink)@,
    {
        if cap == 0 {
            return false;
        }
        let ghost before = self@;
        let ghost waiting = sink@;
        while self.slots.len() > cap
            invariant
                cap >= 1,
                self.cap == old(self).cap,
                self@.len() <= before.len(),
                self@ == before.skip(before.len() - self@.len()),
                before.len() > cap ==> self@.len() >= cap,
                before.len() <= cap ==> self@.len() == before.len(),
                released_all(waiting, sink@, before.take(before.len() - self@.len())),
            decreases self.slots@.len(),
        {
            let ghost now = self@;
            let ghost sink_now = sink@;
            let victim = self.slots.remove(0);
            victim.unref(sink);
            proof {
                let gone = before.len() - now.len();
                assert forall|k: int| 0 <= k < self@.len() implies self@[k] == before.skip(
                    gone + 1,
                )[k] by {
                    assert(self@[k] == now[k + 1]);
                    assert(now[k + 1] == before.skip(gone)[k + 1]);
                }
                assert(self@ =~= before.skip(gone + 1));
                assert(before.take(gone + 1).drop_last() =~= before.take(gone));
                assert(before.take(gone + 1).last() == now[0]);
                assert(released(sink_now, sink@, now[0]));
            }
        }
        self.cap = cap;
        proof {
            if before.len() <= cap {
                assert(self@ =~= before);
                assert(before.take(0) =~= given_up(before, cap as nat));
            }
            lemma_kept_is_wf(before, cap as nat);
        }
        true
    }

    /// Gives up every page, least recently used first, and leaves the cache
    /// empty.
    pub fn clear(&mut self, sink: &mut PageSink)
        requires
            old(self).wf(),
        ensures
            final(self).wf(),
            final(self).capacity() == old(self).capacity(),
            final(self)@ == Seq::<PageView>::empty(),
            released_all(old(sink)@, final(sink)@, old(self)@),
    {
        let ghost before = self@;
        let ghost waiting = sink@;
        while self.slots.len() > 0
            invariant
                self.cap == old(self).cap,
                1 <= self.cap,
                self@.len() <= before.len(),
                self@ == before.skip(before.len() - self@.len()),
                released_all(waiting, sink@, before.take(before.len() - self@.len())),
            decreases self.slots@.len(),
        {
            let ghost now = self@;
            let ghost sink_now = sink@;
            let victim = self.slots.remove(0);
            victim.unref(sink);
            proof {
                let gone = before.len() - now.len();
                assert forall|k: int| 0 <= k < self@.len() implies self@[k] == before.skip(
                    gone + 1,
                )[k] by {
                    assert(self@[k] == now[k + 1]);
                    assert(now[k + 1] == before.skip(gone)[k + 1]);
                }
                assert(self@ =~= before.skip(gone + 1));
                assert(before.take(gone + 1).drop_last() =~= before.take(gone));
                assert(before.take(gone + 1).last() == now[0]);
                assert(released(sink_now, sink@, now[0]));
            }
        }
        proof {
            assert(self@ =~= Seq::<PageView>::empty());
            assert(before.take(before.len() as int) =~= before);
        }
    }
}

/// The pages that stay when the limit becomes `cap`: the `cap` most recently
/// used.
pub open spec fn kept(pages: Seq<PageView>, cap: nat) -> Seq<PageView> {
    if pages.len() > cap {
        pages.skip(pages.len() - cap)
    } else {
        pages
    }
}

/// The pages that leave when the limit becomes `cap`, least recently used
/// first.
pub open spec fn given_up(pages: Seq<PageView>, cap: nat) -> Seq<PageView> {
    if pages.len() > cap {
        pages.take(pages.len() - cap)
    } else {
        Seq::empty()
    }
}

/// A use of one page, whatever it leaves of the page, takes no page out of
/// the cache and brings none in, leaves every other page as it is, and
/// leaves the cache well formed.
pub proof fn lemma_use_changes_one_page(
    pages: Seq<PageView>,
    limit: nat,
    pageno: u64,
    page: PageView,
    other: u64,
)
    requires
        pages_wf(pages, limit),
        resident(pages, pageno),
        page.pageno == pageno,
        page.data.len() == KB_BLCKSZ,
    ensures
        pages_wf(used_as(pages, pageno, page), limit),
        resident(used_as(pages, pageno, page), other) == resident(pages, other),
        page_numbered(used_as(pages, pageno, page), pageno) == page,
        other != pageno && resident(pages, other) ==> page_numbered(
            used_as(pages, pageno, page),
            other,
        ) == page_numbered(pages, other),
{
    let i = index_of_page(pages, pageno);
    let after = used_as(pages, pageno, page);
    lemma_use_keeps_wf(pages, limit, pageno, page);
    assert(after[after.len() - 1] == page);
    lemma_index_of_page(after, pageno, after.len() - 1);
    if other != pageno {
        if resident(pages, other) {
            let k = index_of_page(pages, other);
            let to = if k < i {
                k
            } else {
                k - 1
            };
            assert(after[to] == pages[k]);
            lemma_index_of_page(after, other, to);
        }
        if resident(after, other) {
            let k = index_of_page(after, other);
            let from = if k < i {
                k
            } else {
                k + 1
            };
            assert(after[k] == pages[from]);
            lemma_index_of_page(pages, other, from);
        }
    }
}

/// A page that is brought in is in the cache afterwards, as it came. Every
/// other page stays as it is, but for the least recently used page of a full
/// cache, which leaves.
pub proof fn lemma_bring_in_changes_one_page(
    pages: Seq<PageView>,
    limit: nat,
    page: PageView,
    other: u64,
)
    requires
        pages_wf(pages, limit),
        !resident(pages, page.pageno),
        page.data.len() == KB_BLCKSZ,
        resident(pages, other),
    ensures
        pages_wf(brought_in(pages, limit, page), limit),
        page_numbered(brought_in(pages, limit, page), page.pageno) == page,
        resident(brought_in(pages, limit, page), page.pageno),
        pages.len() < limit || index_of_page(pages, other) > 0 ==> resident(
            brought_in(pages, limit, page),
            other,
        ) && page_numbered(brought_in(pages, limit, page), other) == page_numbered(pages, other),
        pages.len() >= limit && index_of_page(pages, other) == 0 ==> !resident(
            brought_in(pages, limit, page),
            other,
        ),
{
    let after = brought_in(pages, limit, page);
    lemma_bring_in_keeps_wf(pages, limit, page);
    assert(after[after.len() - 1] == page);
    lemma_index_of_page(after, page.pageno, after.len() - 1);
    let k = index_of_page(pages, other);
    let shift: int = if pages.len() >= limit {
        1
    } else {
        0
    };
    if k - shift >= 0 {
        assert(after[k - shift] == pages[k]);
        lemma_index_of_page(after, other, k - shift);
    } else {
        if resident(after, other) {
            let j = index_of_page(after, other);
            assert(j < after.len() - 1);
            assert(after[j] == pages[j + 1]);
            assert(pages[0].pageno != pages[j + 1].pageno);
        }
    }
}

/// A duplicate of a page holds what the page holds.
proof fn lemma_duplicate_page(a: Page, b: Page)
    requires
        duplicate::<Page>(a, b),
    ensures
        b@ == a@,
{
    let m = choose|m: Page| cloned::<Page>(a, m) && cloned::<Page>(m, b);
    assert(m@ == a@);
    assert(b@ == m@);
}

/// Where the page numbers are distinct, the page with a number is the only
/// one.
proof fn lemma_index_of_page(pages: Seq<PageView>, pageno: u64, i: int)
    requires
        distinct_pages(pages),
        0 <= i < pages.len(),
        pages[i].pageno == pageno,
    ensures
        resident(pages, pageno),
        index_of_page(pages, pageno) == i,
{
    let j = index_of_page(pages, pageno);
    if j < i {
        assert(pages[j].pageno != pages[i].pageno);
    } else if i < j {
        assert(pages[i].pageno != pages[j].pageno);
    }
}

/// Using a page, and changing what it holds but not its number or its
/// length, leaves the cache well formed.
proof fn lemma_use_keeps_wf(pages: Seq<PageView>, limit: nat, pageno: u64, page: PageView)
    requires
        pages_wf(pages, limit),
        resident(pages, pageno),
        page.pageno == pageno,
        page.data.len() == KB_BLCKSZ,
    ensures
        pages_wf(used_as(pages, pageno, page), limit),
{
    let i = index_of_page(pages, pageno);
    let after = used_as(pages, pageno, page);
    assert forall|a: int, b: int| 0 <= a < b < after.len() implies after[a].pageno
        != after[b].pageno by {
        let src_a = if a < i {
            a
        } else {
            a + 1
        };
        assert(after[a] == pages[src_a]);
        if b < after.len() - 1 {
            let src_b = if b < i {
                b
            } else {
                b + 1
            };
            assert(after[b] == pages[src_b]);
        }
    }
    assert forall|a: int| 0 <= a < after.len() implies (#[trigger] after[a]).data.len()
        == KB_BLCKSZ by {
        if a < after.len() - 1 {
            let src_a = if a < i {
                a
            } else {
                a + 1
            };
            assert(after[a] == pages[src_a]);
        }
    }
}

/// Bringing in a page that the cache does not hold leaves it well formed.
proof fn lemma_bring_in_keeps_wf(pages: Seq<PageView>, limit: nat, page: PageView)
    requires
        pages_wf(pages, limit),
        !resident(pages, page.pageno),
        page.data.len() == KB_BLCKSZ,
    ensures
        pages_wf(brought_in(pages, limit, page), limit),
{
    let after = brought_in(pages, limit, page);
    let shift: int = if pages.len() >= limit {
        1
    } else {
        0
    };
    assert forall|a: int, b: int| 0 <= a < b < after.len() implies after[a].pageno
        != after[b].pageno by {
        assert(after[a] == pages[a + shift]);
        if b < after.len() - 1 {
            assert(after[b] == pages[b + shift]);
        }
    }
    assert forall|a: int| 0 <= a < after.len() implies (#[trigger] after[a]).data.len()
        == KB_BLCKSZ by {
        if a < after.len() - 1 {
            assert(after[a] == pages[a + shift]);
        }
    }
}

/// The pages that stay after a resize are well formed for the new limit.
proof fn lemma_kept_is_wf(pages: Seq<PageView>, cap: nat)
    requires
        distinct_pages(pages),
        forall|i: int| 0 <= i < pages.len() ==> (#[trigger] pages[i]).data.len() == KB_BLCKSZ,
        cap >= 1,
    ensures
        pages_wf(kept(pages, cap), cap),
{
    let after = kept(pages, cap);
    let shift: int = pages.len() - after.len();
    assert forall|a: int, b: int| 0 <= a < b < after.len() implies after[a].pageno
        != after[b].pageno by {
        assert(after[a] == pages[a + shift]);
        assert(after[b] == pages[b + shift]);
    }
    assert forall|a: int| 0 <= a < after.len() implies (#[trigger] after[a]).data.len()
        == KB_BLCKSZ by {
        assert(after[a] == pages[a + shift]);
    }
}

} // verus!
