//! What an execution unit owns of the storage layer: its settings, its
//! file-handle cache, its commit log, and the sink for the pages that have
//! to go back to disk. Nothing of it is shared with another unit.

use crate::access::clog::Clog;
use crate::access::fd::FdCache;
use crate::access::page::{PageSink, PageView};
use crate::access::recency::Entry;
use crate::guc::{as_limit, get_int, limit_of, GucState, I};
use vstd::prelude::*;

verus! {

/// The state of a session.
pub struct SessionState {
    pub gucstate: GucState,
    pub fdcache: FdCache,
    pub clog: Clog,
    pub sink: PageSink,
}

impl SessionState {
    /// The caches of the session are well formed.
    pub open spec fn wf(&self) -> bool {
        self.fdcache.wf() && self.clog.wf()
    }

    /// The state of a session that starts with the given settings: nothing
    /// is cached yet, the caches have the limits that the settings give.
    /// There is none where the setting for the page cache is 0.
    pub fn new(gucstate: GucState) -> (state: Option<Self>)
        ensures
            gucstate.value(I::ClogL2cacheSize) == 0 ==> state is None,
            gucstate.value(I::ClogL2cacheSize) != 0 ==> state is Some && state.unwrap().wf()
                && state.unwrap().gucstate == gucstate && state.unwrap().fdcache@ == Seq::<
                Entry,
            >::empty() && state.unwrap().fdcache.capacity() == limit_of(
                gucstate.value(I::MaxFilesPerProcess),
            ) && state.unwrap().clog@ == Seq::<PageView>::empty() && state.unwrap().clog.capacity()
                == limit_of(gucstate.value(I::ClogL2cacheSize)) && state.unwrap().sink@ == Seq::<
                (u64, Seq<u8>),
            >::empty(),
    {
        let fdcache = FdCache::new(as_limit(get_int(&gucstate, I::MaxFilesPerProcess)));
        match Clog::new(as_limit(get_int(&gucstate, I::ClogL2cacheSize))) {
            None => None,
            Some(clog) => Some(SessionState { gucstate, fdcache, clog, sink: PageSink::new() }),
        }
    }
}

/// The state of a worker.
pub struct WorkerState {
    pub gucstate: GucState,
    pub fdcache: FdCache,
    pub clog: Clog,
    pub sink: PageSink,
}

impl WorkerState {
    /// The caches of the worker are well formed.
    pub open spec fn wf(&self) -> bool {
        self.fdcache.wf() && self.clog.wf()
    }

    /// The state of a worker that starts with the given settings: nothing
    /// is cached yet, the caches have the limits that the settings give.
    /// There is none where the setting for the page cache is 0.
    pub fn new(gucstate: GucState) -> (state: Option<Self>)
        ensures
            gucstate.value(I::ClogL2cacheSize) == 0 ==> state is None,
            gucstate.value(I::ClogL2cacheSize) != 0 ==> state is Some && state.unwrap().wf()
                && state.unwrap().gucstate == gucstate && state.unwrap().fdcache@ == Seq::<
                Entry,
            >::empty() && state.unwrap().fdcache.capacity() == limit_of(
                gucstate.value(I::MaxFilesPerProcess),
            ) && state.unwrap().clog@ == Seq::<PageView>::empty() && state.unwrap().clog.capacity()
                == limit_of(gucstate.value(I::ClogL2cacheSize)) && state.unwrap().sink@ == Seq::<
                (u64, Seq<u8>),
            >::empty(),
    {
        let fdcache = FdCache::new(as_limit(get_int(&gucstate, I::MaxFilesPerProcess)));
        match Clog::new(as_limit(get_int(&gucstate, I::ClogL2cacheSize))) {
            None => None,
            Some(clog) => Some(WorkerState { gucstate, fdcache, clog, sink: PageSink::new() }),
        }
    }
}

/// A worker.
pub struct Worker {
    pub state: WorkerState,
}

} // verus!
