//! The pages of the commit log: where the status of a transaction lives,
//! what a page in memory holds, and how a page that was written to finds its
//! way back to disk when it is torn down.

use crate::access::status::{
    byte_with_status, get_status, lemma_write_changes_one_status, set_status, statuses_of,
    XidStatus,
};
use crate::utils::marc::Destory;
use crate::utils::xid::Xid;
use crate::KB_BLCKSZ;
use vstd::prelude::*;

verus! {

/// The number of transactions whose statuses make up one page.
pub const XACTS_PER_PAGE: u64 = 32768;

/// The page that holds the status of the transaction with number `xid`.
pub open spec fn page_of(xid: int) -> int {
    (xid - 1) / 32768
}

/// The place of the status of the transaction with number `xid` within its
/// page, counted in statuses.
pub open spec fn place_of(xid: int) -> int {
    (xid - 1) % 32768
}

/// The page that holds the status of a transaction.
pub fn xid_page(xid: Xid) -> (pageno: u64)
    ensures
        pageno == page_of(xid@ as int),
{
    (xid.get() - 1) / XACTS_PER_PAGE
}

/// The place of the status of a transaction within its page.
pub fn xid_place(xid: Xid) -> (place: usize)
    ensures
        place == place_of(xid@ as int),
        place < 32768,
{
    ((xid.get() - 1) % XACTS_PER_PAGE) as usize
}

/// What a page in memory holds.
#[verifier::ext_equal]
pub struct PageView {
    /// The number of the page.
    pub pageno: u64,
    /// The bytes of the page.
    pub data: Seq<u8>,
    /// Whether the bytes differ from what is on disk.
    pub dirty: bool,
}

impl PageView {
    /// The statuses on the page, by place.
    pub open spec fn statuses(self) -> Seq<XidStatus> {
        statuses_of(self.data)
    }

    /// The page after a status was written at `place`: that status is
    /// changed, and the page differs from what is on disk.
    pub open spec fn written(self, place: int, status: XidStatus) -> PageView {
        PageView {
            pageno: self.pageno,
            data: self.data.update(
                place / 4,
                byte_with_status(self.data[place / 4], place % 4, status),
            ),
            dirty: true,
        }
    }
}

/// The bytes of a page that have to be written back to disk.
#[derive(Debug, PartialEq, Eq)]
pub struct PageImage {
    pub pageno: u64,
    pub data: Vec<u8>,
}

/// Where pages go that have to be written back: the context in which a
/// page is torn down. Its owner writes the images to disk in the order in
/// which they stand, and takes them out.
#[derive(Debug, PartialEq, Eq)]
pub struct PageSink {
    pub pending: Vec<PageImage>,
}

impl View for PageSink {
    type V = Seq<(u64, Seq<u8>)>;

    /// The page numbers and bytes that wait to be written, oldest first.
    open spec fn view(&self) -> Seq<(u64, Seq<u8>)> {
        Seq::new(self.pending@.len(), |i: int| (self.pending@[i].pageno, self.pending@[i].data@))
    }
}

impl PageSink {
    /// A sink in which nothing waits.
    pub fn new() -> (sink: Self)
        ensures
            sink@ == Seq::<(u64, Seq<u8>)>::empty(),
    {
        let sink = PageSink { pending: Vec::new() };
        assert(sink@ =~= Seq::<(u64, Seq<u8>)>::empty());
        sink
    }

    /// Takes out all that waits, oldest first.
    pub fn take(&mut self) -> (images: Vec<PageImage>)
        ensures
            final(self)@ == Seq::<(u64, Seq<u8>)>::empty(),
            images@ == old(self).pending@,
    {
        let mut images: Vec<PageImage> = Vec::new();
        std::mem::swap(&mut self.pending, &mut images);
        assert(self@ =~= Seq::<(u64, Seq<u8>)>::empty());
        images
    }
}

/// What waits in a sink after a page was torn down in it: the page itself
/// comes last if it was dirty, and a clean page changes nothing.
pub open spec fn flushed(before: Seq<(u64, Seq<u8>)>, page: PageView) -> Seq<(u64, Seq<u8>)> {
    if page.dirty {
        before.push((page.pageno, page.data))
    } else {
        before
    }
}

/// A page of the commit log in memory.
#[derive(Debug)]
pub struct Page {
    pageno: u64,
    data: Vec<u8>,
    dirty: bool,
}

impl View for Page {
    type V = PageView;

    closed spec fn view(&self) -> PageView {
        PageView { pageno: self.pageno, data: self.data@, dirty: self.dirty }
    }
}

impl Page {
    /// A page has exactly one block of bytes.
    pub open spec fn wf(&self) -> bool {
        self@.data.len() == KB_BLCKSZ
    }

    /// The page with number `pageno` as it was read from disk. There is none
    /// if `data` is not one block long.
    pub fn new(pageno: u64, data: Vec<u8>) -> (page: Option<Page>)
        ensures
            data@.len() != KB_BLCKSZ ==> page is None,
            data@.len() == KB_BLCKSZ ==> page is Some && page.unwrap().wf() && page.unwrap()@ == (
            PageView { pageno, data: data@, dirty: false }),
    {
        if data.len() != KB_BLCKSZ {
            None
        } else {
            Some(Page { pageno, data, dirty: false })
        }
    }

    /// The number of the page.
    pub fn pageno(&self) -> (pageno: u64)
        ensures
            pageno == self@.pageno,
    {
        self.pageno
    }

    /// Whether the page differs from what is on disk.
    pub fn is_dirty(&self) -> (dirty: bool)
        ensures
            dirty == self@.dirty,
    {
        self.dirty
    }

    /// The bytes of the page.
    pub fn data(&self) -> (bytes: &[u8])
        ensures
            bytes@ == self@.data,
    {
        self.data.as_slice()
    }

    /// The status at `place`.
    pub fn status(&self, place: usize) -> (status: XidStatus)
        requires
            self.wf(),
            place < 32768,
        ensures
            status == self@.statuses()[place as int],
    {
        get_status(self.data[place / 4], (place % 4) as u8)
    }

    /// Writes a status at `place` and marks the page dirty. Every other
    /// status on the page stays as it is.
    pub fn set_status(&mut self, place: usize, status: XidStatus)
        requires
            old(self).wf(),
            place < 32768,
        ensures
            final(self).wf(),
            final(self)@ == old(self)@.written(place as int, status),
            final(self)@.statuses() == old(self)@.statuses().update(place as int, status),
    {
        let byte = set_status(self.data[place / 4], (place % 4) as u8, status);
        proof {
            lemma_write_changes_one_status(self.data@, place as int, status);
        }
        self.data[place / 4] = byte;
        self.dirty = true;
    }
}

impl Clone for Page {
    fn clone(&self) -> (page: Self)
        ensures
            page@ == self@,
    {
        Page { pageno: self.pageno, data: self.data.clone(), dirty: self.dirty }
    }
}

impl Destory for Page {
    type DestoryCtx = PageSink;

    /// A dirty page leaves its bytes in the sink, behind all that waits
    /// there; a clean page leaves nothing.
    open spec fn torn_down(&self, before: &PageSink, after: &PageSink) -> bool {
        after@ == flushed(before@, self@)
    }

    fn destory(&mut self, ctx: &mut PageSink) {
        if self.dirty {
            let mut data: Vec<u8> = Vec::new();
            std::mem::swap(&mut self.data, &mut data);
            ctx.pending.push(PageImage { pageno: self.pageno, data });
            self.dirty = false;
            assert(ctx@ =~= flushed(old(ctx)@, old(self)@));
        }
    }
}

} // verus!
