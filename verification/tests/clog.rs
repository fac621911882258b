use commit_log::access::clog::{BatchStep, Clog, Fetch};
use commit_log::access::fd::{use_file, FdCache, FileEvent, FileStep, IoFailure, IoKind};
use commit_log::access::page::{xid_page, xid_place, Page, PageSink, XACTS_PER_PAGE};
use commit_log::access::pagecache::PageCache;
use commit_log::access::segment::{page_offset, page_segment, segment_path};
use commit_log::access::status::{VecXidStatus, XidStatus, XACTS_PER_BYTE};
use commit_log::guc;
use commit_log::utils::{SessionState, Worker, WorkerState, Xid};
use commit_log::KB_BLCKSZ;
use std::collections::HashMap;

/// Segment files in memory, and the handles that are open on them.
struct Disk {
    files: HashMap<String, Vec<u8>>,
    open: HashMap<u64, String>,
    next_fd: u64,
    opens: usize,
    reads: usize,
    writes: usize,
}

impl Disk {
    fn with_segments(n: u64) -> Disk {
        let mut files = HashMap::new();
        for segno in 0..n {
            files.insert(segment_path(segno), vec![0u8; 32 * KB_BLCKSZ]);
        }
        Disk { files, open: HashMap::new(), next_fd: 3, opens: 0, reads: 0, writes: 0 }
    }

    fn open(&mut self, path: &String) -> FileEvent {
        if !self.files.contains_key(path) {
            return FileEvent::OpenFailed(IoFailure {
                kind: IoKind::NotFound,
                message: format!("no such file: {}", path),
            });
        }
        self.opens += 1;
        let fd = self.next_fd;
        self.next_fd += 1;
        self.open.insert(fd, path.clone());
        FileEvent::Opened(fd)
    }
}

fn with_file<T>(
    disk: &mut Disk,
    cache: &mut FdCache,
    path: &String,
    act: impl FnOnce(&mut Vec<u8>) -> T,
) -> Result<T, IoFailure> {
    let mut event = FileEvent::Request;
    loop {
        match use_file(cache, path, event) {
            FileStep::Open => event = disk.open(path),
            FileStep::Use { fd, close } => {
                let name = disk.open.get(&fd).expect("the handle is open").clone();
                let ret = act(disk.files.get_mut(&name).expect("the file is there"));
                if let Some(old) = close {
                    disk.open.remove(&old).expect("a handle is closed once");
                }
                return Ok(ret);
            }
            FileStep::Missing => unreachable!("use_file reports a missing file as a failure"),
            FileStep::Fail(failure) => return Err(failure),
        }
    }
}

fn read_page(disk: &mut Disk, cache: &mut FdCache, pageno: u64) -> Result<Vec<u8>, IoFailure> {
    let path = segment_path(page_segment(pageno));
    let at = page_offset(pageno) as usize;
    disk.reads += 1;
    with_file(disk, cache, &path, |file| file[at..at + KB_BLCKSZ].to_vec())
}

fn flush(disk: &mut Disk, cache: &mut FdCache, sink: &mut PageSink) -> Result<(), IoFailure> {
    for image in sink.take() {
        let path = segment_path(page_segment(image.pageno));
        let at = page_offset(image.pageno) as usize;
        disk.writes += 1;
        with_file(disk, cache, &path, |file| file[at..at + KB_BLCKSZ].copy_from_slice(&image.data))?;
    }
    Ok(())
}

fn load(
    disk: &mut Disk,
    cache: &mut FdCache,
    clog: &mut Clog,
    sink: &mut PageSink,
    pageno: u64,
) -> Result<(), IoFailure> {
    let data = read_page(disk, cache, pageno)?;
    assert!(clog.load_page(pageno, data, sink));
    flush(disk, cache, sink)
}

struct Session {
    state: SessionState,
    disk: Disk,
}

impl Session {
    fn xid_status(&mut self, xid: Xid) -> Result<XidStatus, IoFailure> {
        let s = &mut self.state;
        loop {
            match s.clog.xid_status(xid) {
                Fetch::Ready(status) => return Ok(status),
                Fetch::NeedPage(pageno) => {
                    load(&mut self.disk, &mut s.fdcache, &mut s.clog, &mut s.sink, pageno)?
                }
            }
        }
    }

    fn set_xid_status(&mut self, xid: Xid, status: XidStatus) -> Result<(), IoFailure> {
        let s = &mut self.state;
        loop {
            match s.clog.set_xid_status(xid, status, &mut s.sink) {
                Fetch::Ready(()) => return flush(&mut self.disk, &mut s.fdcache, &mut s.sink),
                Fetch::NeedPage(pageno) => {
                    load(&mut self.disk, &mut s.fdcache, &mut s.clog, &mut s.sink, pageno)?
                }
            }
        }
    }
}

fn new_session() -> Session {
    let mut gucstate = guc::GucState::new();
    gucstate.set_int(guc::ClogL2cacheSize, 1);
    Session { state: SessionState::new(gucstate).unwrap(), disk: Disk::with_segments(1) }
}

struct TestWorker {
    worker: Worker,
    disk: Disk,
}

fn new_worker() -> TestWorker {
    let mut gucstate = guc::GucState::new();
    gucstate.set_int(guc::ClogL2cacheSize, 1);
    TestWorker {
        worker: Worker { state: WorkerState::new(gucstate).unwrap() },
        disk: Disk::with_segments(1),
    }
}

impl TestWorker {
    fn get_xid_status_into(
        &mut self,
        xids: &[Xid],
        idxes: &[usize],
        out: &mut VecXidStatus,
    ) -> Result<(), IoFailure> {
        let s = &mut self.worker.state;
        let mut start = 0;
        loop {
            match s.clog.get_xid_status(xids, idxes, out, start) {
                BatchStep::Done => return Ok(()),
                BatchStep::NeedPage { pageno, next } => {
                    load(&mut self.disk, &mut s.fdcache, &mut s.clog, &mut s.sink, pageno)?;
                    start = next;
                }
            }
        }
    }

    fn set_xid_status(&mut self, xid: Xid, status: XidStatus) -> Result<(), IoFailure> {
        let s = &mut self.worker.state;
        loop {
            match s.clog.set_xid_status(xid, status, &mut s.sink) {
                Fetch::Ready(()) => return flush(&mut self.disk, &mut s.fdcache, &mut s.sink),
                Fetch::NeedPage(pageno) => {
                    load(&mut self.disk, &mut s.fdcache, &mut s.clog, &mut s.sink, pageno)?
                }
            }
        }
    }
}

fn get_xid_status(w: &mut TestWorker, xids: &[Xid]) -> Vec<XidStatus> {
    let idxes: Vec<usize> = (0..xids.len()).into_iter().collect();
    let mut ret = VecXidStatus::new(xids.len());
    w.get_xid_status_into(xids, &idxes, &mut ret).unwrap();
    let mut v = Vec::<XidStatus>::with_capacity(xids.len());
    for &byteval in ret.data() {
        let xid_status = VecXidStatus::split(byteval);
        v.push(xid_status[0]);
        v.push(xid_status[1]);
        v.push(xid_status[2]);
        v.push(xid_status[3]);
    }
    v
}

fn get_single_xid_status(w: &mut TestWorker, xid: Xid) -> XidStatus {
    let xids = [xid];
    get_xid_status(w, &xids)[0]
}

#[test]
fn clog_t() {
    let mut sess = new_session();
    assert_eq!(1, guc::get_int(&sess.state.gucstate, guc::ClogL2cacheSize));

    let xid = Xid::new(1).unwrap();
    assert_eq!(XidStatus::InProgress, sess.xid_status(xid).unwrap());
    sess.set_xid_status(xid, XidStatus::Committed).unwrap();
    assert_eq!(XidStatus::Committed, sess.xid_status(xid).unwrap());

    let xid = Xid::new(KB_BLCKSZ as u64 * XACTS_PER_BYTE * 4).unwrap();
    assert_eq!(XidStatus::InProgress, sess.xid_status(xid).unwrap());
    sess.set_xid_status(xid, XidStatus::Committed).unwrap();
    assert_eq!(XidStatus::Committed, sess.xid_status(xid).unwrap());

    let xid = Xid::new(1).unwrap();
    assert_eq!(XidStatus::Committed, sess.xid_status(xid).unwrap());
}

#[test]
fn t() {
    let mut worker = new_worker();
    assert_eq!(1, guc::get_int(&worker.worker.state.gucstate, guc::ClogL2cacheSize));

    let xid = Xid::new(1).unwrap();
    assert_eq!(XidStatus::InProgress, get_single_xid_status(&mut worker, xid));
    worker.set_xid_status(xid, XidStatus::Committed).unwrap();
    assert_eq!(XidStatus::Committed, get_single_xid_status(&mut worker, xid));

    let xid = Xid::new(KB_BLCKSZ as u64 * XACTS_PER_BYTE * 4).unwrap();
    assert_eq!(XidStatus::InProgress, get_single_xid_status(&mut worker, xid));
    worker.set_xid_status(xid, XidStatus::Committed).unwrap();
    assert_eq!(XidStatus::Committed, get_single_xid_status(&mut worker, xid));

    let xid = Xid::new(1).unwrap();
    assert_eq!(XidStatus::Committed, get_single_xid_status(&mut worker, xid));
}

#[test]
fn eviction_writes_the_page_back_and_reload_reads_it() {
    let mut sess = new_session();
    let near = Xid::new(1).unwrap();
    let far = Xid::new(KB_BLCKSZ as u64 * XACTS_PER_BYTE * 4).unwrap();
    assert_eq!(0, xid_page(near));
    assert_eq!(3, xid_page(far));

    sess.set_xid_status(near, XidStatus::Committed).unwrap();
    assert_eq!(1, sess.disk.reads);
    assert_eq!(0, sess.disk.writes);
    assert_eq!(0u8, sess.disk.files[&segment_path(0)][0]);

    // One page fits: the far page pushes the near one out, dirty as it is.
    sess.set_xid_status(far, XidStatus::Committed).unwrap();
    assert_eq!(2, sess.disk.reads);
    assert_eq!(1, sess.disk.writes);
    assert_eq!(1u8, sess.disk.files[&segment_path(0)][0]);
    assert_eq!(1, sess.state.clog.cap());
    assert!(sess.state.sink.pending.is_empty());

    assert_eq!(XidStatus::Committed, sess.xid_status(near).unwrap());
    assert_eq!(3, sess.disk.reads);
    assert_eq!(2, sess.disk.writes);
    // The last status of page 3 sits in the highest bit pair of its last byte.
    let end_of_page_3 = 4 * KB_BLCKSZ - 1;
    assert_eq!(0b0100_0000u8, sess.disk.files[&segment_path(0)][end_of_page_3]);
}

#[test]
fn set_then_read_returns_what_was_set() {
    let mut sess = new_session();
    let statuses = [
        XidStatus::Committed,
        XidStatus::Aborted,
        XidStatus::SubCommitted,
        XidStatus::InProgress,
    ];
    for (i, v) in [1u64, 2, 3, 4, 5, 32768, 32769, 70000, 1048576].iter().enumerate() {
        let xid = Xid::new(*v).unwrap();
        let status = statuses[i % 4];
        sess.set_xid_status(xid, status).unwrap();
        assert_eq!(status, sess.xid_status(xid).unwrap());
    }
}

#[test]
fn neighbours_in_one_byte_keep_their_status() {
    let mut sess = new_session();
    let x1 = Xid::new(1).unwrap();
    let x2 = Xid::new(2).unwrap();
    let x3 = Xid::new(3).unwrap();
    let x4 = Xid::new(4).unwrap();
    sess.set_xid_status(x2, XidStatus::Aborted).unwrap();
    sess.set_xid_status(x1, XidStatus::Committed).unwrap();
    sess.set_xid_status(x4, XidStatus::SubCommitted).unwrap();
    assert_eq!(XidStatus::Committed, sess.xid_status(x1).unwrap());
    assert_eq!(XidStatus::Aborted, sess.xid_status(x2).unwrap());
    assert_eq!(XidStatus::InProgress, sess.xid_status(x3).unwrap());
    assert_eq!(XidStatus::SubCommitted, sess.xid_status(x4).unwrap());
    sess.set_xid_status(x2, XidStatus::InProgress).unwrap();
    assert_eq!(XidStatus::Committed, sess.xid_status(x1).unwrap());
    assert_eq!(XidStatus::InProgress, sess.xid_status(x2).unwrap());
    assert_eq!(XidStatus::SubCommitted, sess.xid_status(x4).unwrap());

    // 0b11_00_00_01: slot 0 holds the first transaction of the byte.
    let mut sink = PageSink::new();
    sess.state.clog.close(&mut sink);
    assert_eq!(1, sink.pending.len());
    assert_eq!(0, sink.pending[0].pageno);
    assert_eq!(0b1100_0001u8, sink.pending[0].data[0]);
}

#[test]
fn batch_read_follows_the_index_map() {
    let mut w = new_worker();
    let a = Xid::new(7).unwrap();
    let b = Xid::new(40000).unwrap();
    let c = Xid::new(8).unwrap();
    w.set_xid_status(a, XidStatus::Committed).unwrap();
    w.set_xid_status(b, XidStatus::Aborted).unwrap();
    w.set_xid_status(c, XidStatus::SubCommitted).unwrap();

    // Unsorted, with a repeat, into chosen places of a larger buffer.
    let xids = [b, a, c, b, a];
    let idxes = [6usize, 0, 3, 1, 5];
    let mut out = VecXidStatus::new(8);
    w.get_xid_status_into(&xids, &idxes, &mut out).unwrap();
    let got = out.to_vec();
    assert_eq!(
        vec![
            XidStatus::Committed,
            XidStatus::Aborted,
            XidStatus::InProgress,
            XidStatus::SubCommitted,
            XidStatus::InProgress,
            XidStatus::Committed,
            XidStatus::Aborted,
            XidStatus::InProgress,
        ],
        got
    );
    assert_eq!(XidStatus::Aborted, out.get(6));
    assert_eq!(
        vec![XidStatus::Aborted, XidStatus::Committed, XidStatus::SubCommitted],
        get_xid_status(&mut w, &[b, a, c])[..3].to_vec()
    );
}

#[test]
fn batch_read_stops_at_a_page_that_is_missing() {
    let mut clog = Clog::new(2).unwrap();
    let mut sink = PageSink::new();
    assert!(clog.load_page(0, vec![0u8; KB_BLCKSZ], &mut sink));
    let xids = [Xid::new(1).unwrap(), Xid::new(32769).unwrap(), Xid::new(2).unwrap()];
    let idxes = [0usize, 1, 2];
    let mut out = VecXidStatus::new(3);
    assert_eq!(
        BatchStep::NeedPage { pageno: 1, next: 1 },
        clog.get_xid_status(&xids, &idxes, &mut out, 0)
    );
    assert!(clog.load_page(1, vec![0x55u8; KB_BLCKSZ], &mut sink));
    assert_eq!(BatchStep::Done, clog.get_xid_status(&xids, &idxes, &mut out, 1));
    assert_eq!(
        vec![
            XidStatus::InProgress,
            XidStatus::Committed,
            XidStatus::InProgress,
            XidStatus::InProgress
        ],
        out.to_vec()
    );
    assert!(sink.pending.is_empty());
}

#[test]
fn a_missing_segment_is_reported_as_not_found() {
    let mut sess = new_session();
    // Page 32 is the first page of segment 1, which was never provided.
    let xid = Xid::new(32 * XACTS_PER_PAGE + 1).unwrap();
    assert_eq!(32, xid_page(xid));
    let err = sess.xid_status(xid).unwrap_err();
    assert_eq!(IoKind::NotFound, err.kind);
    assert_eq!("use_file: file not found: path=kb_xact/0001", err.message);
    assert_eq!(0, sess.state.fdcache.len());
    assert_eq!(0, sess.state.clog.len());
}

#[test]
fn the_segment_file_is_opened_once() {
    let mut sess = new_session();
    let xid = Xid::new(1).unwrap();
    let far = Xid::new(100000).unwrap();
    for _ in 0..5 {
        sess.set_xid_status(xid, XidStatus::Committed).unwrap();
        sess.set_xid_status(far, XidStatus::Aborted).unwrap();
    }
    assert_eq!(1, sess.disk.opens);
    assert_eq!(1, sess.disk.open.len());
    assert_eq!(1, sess.state.fdcache.len());
    assert_eq!(XidStatus::Committed, sess.xid_status(xid).unwrap());
    assert_eq!(XidStatus::Aborted, sess.xid_status(far).unwrap());
}

#[test]
fn there_is_no_transaction_zero() {
    assert!(Xid::new(0).is_none());
    assert_eq!(1, Xid::new(1).unwrap().get());
    assert_eq!(u64::MAX, Xid::new(u64::MAX).unwrap().get());
}

#[test]
fn transactions_are_placed_by_their_number_less_one() {
    let at = |v: u64| {
        let xid = Xid::new(v).unwrap();
        (xid_page(xid), xid_place(xid))
    };
    assert_eq!((0, 0), at(1));
    assert_eq!((0, 1), at(2));
    assert_eq!((0, 32767), at(32768));
    assert_eq!((1, 0), at(32769));
    assert_eq!((3, 32767), at(131072));
    assert_eq!((562949953421311, 32766), at(u64::MAX));
    assert_eq!(32768, XACTS_PER_PAGE);
    assert_eq!(KB_BLCKSZ as u64 * XACTS_PER_BYTE, XACTS_PER_PAGE);
}

#[test]
fn segments_are_named_in_hexadecimal() {
    assert_eq!("kb_xact/0000", segment_path(0));
    assert_eq!("kb_xact/000A", segment_path(10));
    assert_eq!("kb_xact/01AB", segment_path(0x1ab));
    assert_eq!("kb_xact/FFFF", segment_path(0xffff));
    assert_eq!("kb_xact/12345", segment_path(0x12345));
    assert_eq!("kb_xact/FFFFFFFFFFFFFFFF", segment_path(u64::MAX));
    assert_eq!(0, page_segment(31));
    assert_eq!(1, page_segment(32));
    assert_eq!(0, page_offset(0));
    assert_eq!(8192, page_offset(1));
    assert_eq!(31 * 8192, page_offset(31));
    assert_eq!(0, page_offset(32));
    assert_eq!(3 * 8192, page_offset(3 + 32 * 1000));
}

#[test]
fn a_commit_log_needs_room_for_a_page() {
    assert!(Clog::new(0).is_none());
    let mut gucstate = guc::GucState::new();
    gucstate.set_int(guc::ClogL2cacheSize, 0);
    assert!(SessionState::new(gucstate).is_none());
    assert!(WorkerState::new(gucstate).is_none());
    gucstate.set_int(guc::ClogL2cacheSize, 5);
    let state = SessionState::new(gucstate).unwrap();
    assert_eq!(5, state.clog.cap());
    assert_eq!(32, state.fdcache.cap());
}

#[test]
fn load_page_takes_whole_new_pages_only() {
    let mut clog = Clog::new(2).unwrap();
    let mut sink = PageSink::new();
    assert!(!clog.load_page(0, vec![0u8; KB_BLCKSZ - 1], &mut sink));
    assert!(!clog.load_page(0, Vec::new(), &mut sink));
    assert!(clog.load_page(0, vec![0u8; KB_BLCKSZ], &mut sink));
    let one = Xid::new(1).unwrap();
    assert_eq!(Fetch::Ready(()), clog.set_xid_status(one, XidStatus::Aborted, &mut sink));
    // What the cache holds is newer than the disk: it is kept.
    assert!(!clog.load_page(0, vec![0u8; KB_BLCKSZ], &mut sink));
    assert_eq!(Fetch::Ready(XidStatus::Aborted), clog.xid_status(one));
    assert_eq!(Fetch::NeedPage(1), clog.xid_status(Xid::new(32769).unwrap()));
    assert_eq!(
        Fetch::NeedPage(2),
        clog.set_xid_status(Xid::new(65537).unwrap(), XidStatus::Committed, &mut sink)
    );
    assert!(sink.pending.is_empty());
}

#[test]
fn shrinking_the_page_cache_gives_up_the_oldest_pages() {
    let mut clog = Clog::new(3).unwrap();
    let mut sink = PageSink::new();
    for pageno in 0..3u64 {
        assert!(clog.load_page(pageno, vec![0u8; KB_BLCKSZ], &mut sink));
    }
    let on = |pageno: u64| Xid::new(pageno * XACTS_PER_PAGE + 1).unwrap();
    assert_eq!(Fetch::Ready(()), clog.set_xid_status(on(1), XidStatus::Committed, &mut sink));
    assert_eq!(Fetch::Ready(()), clog.set_xid_status(on(0), XidStatus::Aborted, &mut sink));
    // Least recently used first: 2 (clean), 1 (dirty), 0 (dirty).
    assert!(!clog.resize_cache(0, &mut sink));
    assert_eq!(3, clog.len());
    assert!(clog.resize_cache(1, &mut sink));
    assert_eq!(1, clog.len());
    assert_eq!(1, clog.cap());
    assert_eq!(1, sink.pending.len());
    assert_eq!(1, sink.pending[0].pageno);
    assert_eq!(1u8, sink.pending[0].data[0]);
    assert_eq!(Fetch::Ready(XidStatus::Aborted), clog.xid_status(on(0)));
    assert_eq!(Fetch::NeedPage(1), clog.xid_status(on(1)));
    assert_eq!(Fetch::NeedPage(2), clog.xid_status(on(2)));

    clog.close(&mut sink);
    assert_eq!(0, clog.len());
    let images = sink.take();
    assert_eq!(2, images.len());
    assert_eq!(0, images[1].pageno);
    assert_eq!(2u8, images[1].data[0]);
    assert_eq!(KB_BLCKSZ, images[1].data.len());
    assert!(sink.pending.is_empty());
}

#[test]
fn a_reader_keeps_the_page_as_it_was() {
    let mut cache = PageCache::new(1).unwrap();
    let mut sink = PageSink::new();
    assert!(cache.load(0, vec![0u8; KB_BLCKSZ], &mut sink));
    assert!(cache.set_status(0, 0, XidStatus::Committed, &mut sink));

    let reader = cache.snapshot(0).unwrap();
    assert!(cache.set_status(0, 1, XidStatus::Aborted, &mut sink));
    assert_eq!(XidStatus::Committed, reader.status(0));
    assert_eq!(XidStatus::InProgress, reader.status(1));
    assert_eq!(Some(XidStatus::Committed), cache.status(0, 0));
    assert_eq!(Some(XidStatus::Aborted), cache.status(0, 1));
    assert!(sink.pending.is_empty());

    // The reader holds the last handle of the page as it was: it is torn
    // down where the reader lets go.
    reader.unref(&mut sink);
    assert_eq!(1, sink.pending.len());
    assert_eq!(0b0000_0001u8, sink.pending[0].data[0]);

    // A page that a reader holds outlives its place in the cache.
    let reader = cache.snapshot(0).unwrap();
    assert!(cache.load(1, vec![0u8; KB_BLCKSZ], &mut sink));
    assert!(!cache.contains(0));
    assert_eq!(None, cache.status(0, 0));
    assert_eq!(1, sink.pending.len());
    assert_eq!(XidStatus::Aborted, reader.status(1));
    reader.unref(&mut sink);
    assert_eq!(2, sink.pending.len());
    assert_eq!(0, sink.pending[1].pageno);
    assert_eq!(0b0000_1001u8, sink.pending[1].data[0]);
}

#[test]
fn a_page_is_one_block() {
    assert!(Page::new(0, Vec::new()).is_none());
    assert!(Page::new(0, vec![0u8; KB_BLCKSZ + 1]).is_none());
    let mut page = Page::new(9, vec![0xffu8; KB_BLCKSZ]).unwrap();
    assert_eq!(9, page.pageno());
    assert!(!page.is_dirty());
    assert_eq!(XidStatus::SubCommitted, page.status(32767));
    page.set_status(32767, XidStatus::Committed);
    assert!(page.is_dirty());
    assert_eq!(XidStatus::Committed, page.status(32767));
    assert_eq!(XidStatus::SubCommitted, page.status(32766));
    assert_eq!(0b0111_1111u8, page.data()[KB_BLCKSZ - 1]);
    assert_eq!(KB_BLCKSZ, page.data().len());
    assert!(PageCache::new(0).is_none());
}
