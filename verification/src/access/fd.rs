//! A bounded cache of open file handles, one per execution unit.
//!
//! The cache maps a path to the handle the file was opened under and keeps
//! the entries in order of use. It opens and closes nothing itself: it tells
//! its owner when a file has to be opened and which handle has to be closed,
//! and the owner reports back what the operating system said.

use crate::access::recency::{
    lru_cap, lru_contains, lru_entries, lru_get, lru_len, lru_limit, lru_new, lru_pop_lru, lru_put,
    lru_resize, Entry,
};
use crate::guc::{as_limit, get_int, limit_of, GucState, I};
use crate::utils::state::{SessionState, WorkerState};
use vstd::prelude::*;

verus! {

/// A handle of an open file, as the owner of the cache names it.
pub type Fd = u64;

/// No two entries have the same path.
pub open spec fn distinct_paths(entries: Seq<Entry>) -> bool {
    forall|i: int, j: int| 0 <= i < j < entries.len() ==> entries[i].0 != entries[j].0
}

/// What holds of the entries of every cache with this limit.
pub open spec fn well_formed(entries: Seq<Entry>, limit: nat) -> bool {
    distinct_paths(entries) && entries.len() <= limit
}

/// Some entry has this path.
pub open spec fn cached(entries: Seq<Entry>, path: Seq<char>) -> bool {
    exists|i: int| 0 <= i < entries.len() && (#[trigger] entries[i]).0 == path
}

/// The place of the entry with this path, where there is one.
pub open spec fn index_of(entries: Seq<Entry>, path: Seq<char>) -> int {
    choose|i: int| 0 <= i < entries.len() && (#[trigger] entries[i]).0 == path
}

/// The handle cached under this path.
pub open spec fn handle_of(entries: Seq<Entry>, path: Seq<char>) -> Option<Fd> {
    if cached(entries, path) {
        Some(entries[index_of(entries, path)].1)
    } else {
        None
    }
}

/// The entries after the one with this path was used: it is now the most
/// recently used, the others keep their order.
pub open spec fn touched(entries: Seq<Entry>, path: Seq<char>) -> Seq<Entry> {
    if cached(entries, path) {
        let i = index_of(entries, path);
        entries.remove(i).push(entries[i])
    } else {
        entries
    }
}

/// The entries after a handle was inserted under this path. The new entry is
/// the most recently used. A cache that is full gives up its least recently
/// used entry for it, and a cache with limit zero takes nothing in.
pub open spec fn inserted(entries: Seq<Entry>, limit: nat, path: Seq<char>, fd: Fd) -> Seq<
    Entry,
> {
    if cached(entries, path) {
        entries.remove(index_of(entries, path)).push((path, fd))
    } else if limit == 0 {
        entries
    } else if entries.len() >= limit {
        entries.drop_first().push((path, fd))
    } else {
        entries.push((path, fd))
    }
}

/// The handle that leaves the cache when `fd` is inserted under this path,
/// and that the owner has to close once it has no more use for it: the
/// handle the path was cached under before, the handle of the least recently
/// used entry of a full cache, or `fd` itself where the limit is zero.
pub open spec fn displaced(entries: Seq<Entry>, limit: nat, path: Seq<char>, fd: Fd) -> Option<
    Fd,
> {
    if cached(entries, path) {
        let was = entries[index_of(entries, path)].1;
        if was == fd {
            None
        } else {
            Some(was)
        }
    } else if limit == 0 {
        Some(fd)
    } else if entries.len() >= limit {
        Some(entries[0].1)
    } else {
        None
    }
}

/// The entries that stay when the limit becomes `cap`: the `cap` most
/// recently used.
pub open spec fn retained(entries: Seq<Entry>, cap: nat) -> Seq<Entry> {
    if entries.len() > cap {
        entries.skip(entries.len() - cap)
    } else {
        entries
    }
}

/// The handles that leave when the limit becomes `cap`, least recently used
/// first.
pub open spec fn evicted(entries: Seq<Entry>, cap: nat) -> Seq<Fd> {
    if entries.len() > cap {
        Seq::new((entries.len() - cap) as nat, |i: int| entries[i].1)
    } else {
        Seq::empty()
    }
}

/// The kinds of failure the library tells apart.
#[derive(Clone, Copy, Debug, PartialEq, Eq, Structural)]
pub enum IoKind {
    NotFound,
    PermissionDenied,
    Interrupted,
    UnexpectedEof,
    Other,
}

/// A failed file operation, as the owner of the cache reports it.
#[derive(Clone, Debug, PartialEq, Eq)]
pub struct IoFailure {
    pub kind: IoKind,
    pub message: String,
}

/// What the owner of the cache reports when it asks to use a file.
#[derive(Clone, Debug, PartialEq, Eq)]
pub enum FileEvent {
    /// The owner wants to use the file and has not touched it yet.
    Request,
    /// The owner was told to open the file, and did: this is its handle.
    Opened(Fd),
    /// The owner was told to open the file, and could not.
    OpenFailed(IoFailure),
}

/// What the owner of the cache has to do next.
#[derive(Clone, Debug, PartialEq, Eq)]
pub enum FileStep {
    /// Run the action on the file behind `fd` and hand on what it returns,
    /// be it success or failure. Then close `close`, if there is one.
    Use { fd: Fd, close: Option<Fd> },
    /// Open the file for reading and writing, without creating it, and
    /// report `Opened` or `OpenFailed`.
    Open,
    /// There is no such file. Nothing was done.
    Missing,
    /// The file could not be opened. Nothing was done.
    Fail(IoFailure),
}

/// The step that answers an event, for a cache with these entries and this
/// limit.
pub open spec fn step_of(entries: Seq<Entry>, limit: nat, path: Seq<char>, event: FileEvent)
    -> FileStep {
    match event {
        FileEvent::Request => match handle_of(entries, path) {
            Some(fd) => FileStep::Use { fd, close: None },
            None => FileStep::Open,
        },
        FileEvent::Opened(fd) => FileStep::Use { fd, close: displaced(entries, limit, path, fd) },
        FileEvent::OpenFailed(failure) => if failure.kind == IoKind::NotFound {
            FileStep::Missing
        } else {
            FileStep::Fail(failure)
        },
    }
}

/// The entries after an event. A file that was found in the cache becomes
/// the most recently used; a file that was opened is cached, even where the
/// action on it fails later; a file that could not be opened leaves the
/// cache as it was.
pub open spec fn entries_after(
    entries: Seq<Entry>,
    limit: nat,
    path: Seq<char>,
    event: FileEvent,
) -> Seq<Entry> {
    match event {
        FileEvent::Request => touched(entries, path),
        FileEvent::Opened(fd) => inserted(entries, limit, path, fd),
        FileEvent::OpenFailed(_) => entries,
    }
}

/// The text of the failure that `use_file` reports for a missing file.
pub open spec fn not_found_message(path: Seq<char>) -> Seq<char> {
    "use_file: file not found: path="@ + path
}

/// The file-handle cache of one execution unit.
pub struct FdCache {
    files: lru::LruCache<String, u64>,
}

impl View for FdCache {
    type V = Seq<Entry>;

    /// The cached (path, handle) pairs, least recently used first.
    closed spec fn view(&self) -> Seq<Entry> {
        lru_entries(self.files)
    }
}

impl FdCache {
    /// The number of handles the cache holds at most.
    pub closed spec fn capacity(&self) -> nat {
        lru_limit(self.files)
    }

    /// The invariant of the cache: no path is cached twice, and the cache
    /// holds no more handles than its limit allows.
    pub open spec fn wf(&self) -> bool {
        well_formed(self@, self.capacity())
    }

    /// An empty cache that holds at most `cap` handles.
    pub fn new(cap: usize) -> (cache: Self)
        ensures
            cache.wf(),
            cache@ == Seq::<Entry>::empty(),
            cache.capacity() == cap,
    {
        let first: usize = if cap < 32 {
            cap
        } else {
            32
        };
        let mut files = lru_new(first);
        lru_resize(&mut files, cap);
        FdCache { files }
    }

    /// The number of cached handles.
    pub fn len(&self) -> (n: usize)
        ensures
            n == self@.len(),
    {
        lru_len(&self.files)
    }

    /// The limit the cache was last given.
    pub fn cap(&self) -> (n: usize)
        ensures
            n == self.capacity(),
    {
        lru_cap(&self.files)
    }

    /// Looks the path up and counts that as a use of its entry.
    pub fn lookup(&mut self, path: &String) -> (found: Option<Fd>)
        requires
            old(self).wf(),
        ensures
            final(self).wf(),
            found == handle_of(old(self)@, path@),
            final(self)@ == touched(old(self)@, path@),
            final(self).capacity() == old(self).capacity(),
    {
        let ghost before = lru_entries(self.files);
        let found = lru_get(&mut self.files, path);
        proof {
            if cached(before, path@) {
                let i = index_of(before, path@);
                assert(before[i].0 == path@);
                lemma_touch_keeps_distinct(before, i, before[i]);
            }
        }
        found
    }

    /// Caches `fd` under the path as the most recently used entry, and
    /// returns the handle that left the cache for it, which the owner has to
    /// close.
    pub fn insert(&mut self, path: String, fd: Fd) -> (close: Option<Fd>)
        requires
            old(self).wf(),
        ensures
            final(self).wf(),
            final(self)@ == inserted(old(self)@, old(self).capacity(), path@, fd),
            close == displaced(old(self)@, old(self).capacity(), path@, fd),
            final(self).capacity() == old(self).capacity(),
    {
        let ghost before = lru_entries(self.files);
        if lru_cap(&self.files) == 0 {
            return Some(fd);
        }
        let fresh = !lru_contains(&self.files, &path);
        let mut close: Option<Fd> = None;
        if fresh && lru_len(&self.files) == lru_cap(&self.files) {
            if let Some((_, oldest)) = lru_pop_lru(&mut self.files) {
                close = Some(oldest);
            }
            proof {
                lemma_suffix_keeps_distinct(before, 1);
                assert(before.drop_first() == before.skip(1));
                assert forall|i: int| 0 <= i < before.drop_first().len() implies (
                #[trigger] before.drop_first()[i]).0 != path@ by {
                    assert(before.drop_first()[i] == before[i + 1]);
                }
            }
        }
        let ghost middle = lru_entries(self.files);
        if let Some(was) = lru_put(&mut self.files, path, fd) {
            if was != fd {
                close = Some(was);
            }
        }
        proof {
            if fresh {
                lemma_push_keeps_distinct(middle, (path@, fd));
            } else {
                let i = index_of(before, path@);
                lemma_touch_keeps_distinct(before, i, (path@, fd));
            }
        }
        close
    }

    /// Sets the limit to `cap`. The entries beyond it leave at once, least
    /// recently used first; their handles are returned in that order for the
    /// owner to close.
    pub fn resize(&mut self, cap: usize) -> (closed: Vec<Fd>)
        requires
            old(self).wf(),
        ensures
            final(self).wf(),
            final(self)@ == retained(old(self)@, cap as nat),
            closed@ == evicted(old(self)@, cap as nat),
            final(self).capacity() == cap,
    {
        let ghost before = lru_entries(self.files);
        let mut closed: Vec<Fd> = Vec::new();
        while lru_len(&self.files) > cap
            invariant
                closed@.len() + lru_entries(self.files).len() == before.len(),
                lru_entries(self.files) == before.skip(closed@.len() as int),
                forall|i: int| 0 <= i < closed@.len() ==> closed@[i] == before[i].1,
                closed@.len() == 0 || lru_entries(self.files).len() >= cap,
            decreases lru_entries(self.files).len(),
        {
            if let Some((_, fd)) = lru_pop_lru(&mut self.files) {
                closed.push(fd);
            }
        }
        lru_resize(&mut self.files, cap);
        proof {
            lemma_suffix_keeps_distinct(before, closed@.len() as int);
            assert(closed@ =~= evicted(before, cap as nat));
        }
        closed
    }
}

/// One step of using the file at `path` through the cache.
///
/// The owner starts with `Request`. A cached file is used at once, and
/// becomes the most recently used. For any other the owner is told to open
/// it, and reports the outcome: a file that does not exist is `Missing`,
/// another failure is handed back, and in both cases the cache stays as it
/// was; a handle is cached before it is used.
pub fn do_use_file(cache: &mut FdCache, path: &String, event: FileEvent) -> (step: FileStep)
    requires
        old(cache).wf(),
    ensures
        final(cache).wf(),
        step == step_of(old(cache)@, old(cache).capacity(), path@, event),
        final(cache)@ == entries_after(old(cache)@, old(cache).capacity(), path@, event),
        final(cache).capacity() == old(cache).capacity(),
{
    match event {
        FileEvent::Request => match cache.lookup(path) {
            Some(fd) => FileStep::Use { fd, close: None },
            None => FileStep::Open,
        },
        FileEvent::Opened(fd) => {
            let close = cache.insert(path.clone(), fd);
            FileStep::Use { fd, close }
        },
        FileEvent::OpenFailed(failure) => {
            if failure.kind == IoKind::NotFound {
                FileStep::Missing
            } else {
                FileStep::Fail(failure)
            }
        },
    }
}

/// One step of probing for the file at `path`: a missing file is an outcome
/// of its own, `Missing`, and no failure.
pub fn try_use_file(cache: &mut FdCache, path: &String, event: FileEvent) -> (step: FileStep)
    requires
        old(cache).wf(),
    ensures
        final(cache).wf(),
        step == step_of(old(cache)@, old(cache).capacity(), path@, event),
        final(cache)@ == entries_after(old(cache)@, old(cache).capacity(), path@, event),
        final(cache).capacity() == old(cache).capacity(),
{
    do_use_file(cache, path, event)
}

/// One step of using a file that is expected to exist: as `try_use_file`,
/// but a missing file is reported as a failure of kind `NotFound` that names
/// the path.
pub fn use_file(cache: &mut FdCache, path: &String, event: FileEvent) -> (step: FileStep)
    requires
        old(cache).wf(),
    ensures
        final(cache).wf(),
        final(cache)@ == entries_after(old(cache)@, old(cache).capacity(), path@, event),
        final(cache).capacity() == old(cache).capacity(),
        match step_of(old(cache)@, old(cache).capacity(), path@, event) {
            FileStep::Missing => match step {
                FileStep::Fail(failure) => failure.kind == IoKind::NotFound && failure.message@
                    == not_found_message(path@),
                _ => false,
            },
            other => step == other,
        },
{
    match try_use_file(cache, path, event) {
        FileStep::Missing => {
            let mut message = String::from_str("use_file: file not found: path=");
            message.append(path.as_str());
            FileStep::Fail(IoFailure { kind: IoKind::NotFound, message })
        },
        other => other,
    }
}

/// Applies the setting for the number of open files to a cache, and returns
/// the handles that thereby left it, least recently used first, for the
/// owner to close. The setting is read when this is called and not watched.
pub fn do_resize_fdcache(cache: &mut FdCache, gucstate: &GucState) -> (closed: Vec<Fd>)
    requires
        old(cache).wf(),
    ensures
        final(cache).wf(),
        final(cache).capacity() == limit_of(gucstate.value(I::MaxFilesPerProcess)),
        final(cache)@ == retained(old(cache)@, limit_of(gucstate.value(I::MaxFilesPerProcess))),
        closed@ == evicted(old(cache)@, limit_of(gucstate.value(I::MaxFilesPerProcess))),
{
    let newsize = as_limit(get_int(gucstate, I::MaxFilesPerProcess));
    cache.resize(newsize)
}

/// What a session can do with its file-handle cache.
pub trait SessionExt {
    /// The file-handle cache of the session.
    spec fn fdcache_of(&self) -> FdCache;

    /// The settings of the session.
    spec fn gucstate_of(&self) -> GucState;

    /// Applies the setting for the number of open files to the cache of the
    /// session, and returns the handles to close.
    fn resize_fdcache(&mut self) -> (closed: Vec<Fd>)
        requires
            old(self).fdcache_of().wf(),
        ensures
            final(self).fdcache_of().wf(),
            final(self).gucstate_of() == old(self).gucstate_of(),
            final(self).fdcache_of().capacity() == limit_of(
                old(self).gucstate_of().value(I::MaxFilesPerProcess),
            ),
            final(self).fdcache_of()@ == retained(
                old(self).fdcache_of()@,
                limit_of(old(self).gucstate_of().value(I::MaxFilesPerProcess)),
            ),
            closed@ == evicted(
                old(self).fdcache_of()@,
                limit_of(old(self).gucstate_of().value(I::MaxFilesPerProcess)),
            ),
    ;
}

impl SessionExt for SessionState {
    open spec fn fdcache_of(&self) -> FdCache {
        self.fdcache
    }

    open spec fn gucstate_of(&self) -> GucState {
        self.gucstate
    }

    fn resize_fdcache(&mut self) -> (closed: Vec<Fd>) {
        do_resize_fdcache(&mut self.fdcache, &self.gucstate)
    }
}

/// What a worker can do with its file-handle cache.
pub trait WorkerExt {
    /// The file-handle cache of the worker.
    spec fn fdcache_of(&self) -> FdCache;

    /// The settings of the worker.
    spec fn gucstate_of(&self) -> GucState;

    /// Applies the setting for the number of open files to the cache of the
    /// worker, and returns the handles to close.
    fn resize_fdcache(&mut self) -> (closed: Vec<Fd>)
        requires
            old(self).fdcache_of().wf(),
        ensures
            final(self).fdcache_of().wf(),
            final(self).gucstate_of() == old(self).gucstate_of(),
            final(self).fdcache_of().capacity() == limit_of(
                old(self).gucstate_of().value(I::MaxFilesPerProcess),
            ),
            final(self).fdcache_of()@ == retained(
                old(self).fdcache_of()@,
                limit_of(old(self).gucstate_of().value(I::MaxFilesPerProcess)),
            ),
            closed@ == evicted(
                old(self).fdcache_of()@,
                limit_of(old(self).gucstate_of().value(I::MaxFilesPerProcess)),
            ),
    ;
}

impl WorkerExt for WorkerState {
    open spec fn fdcache_of(&self) -> FdCache {
        self.fdcache
    }

    open spec fn gucstate_of(&self) -> GucState {
        self.gucstate
    }

    fn resize_fdcache(&mut self) -> (closed: Vec<Fd>) {
        do_resize_fdcache(&mut self.fdcache, &self.gucstate)
    }
}

/// Probing for a file that is neither cached nor on disk: the owner is told
/// to open it, the report that it does not exist is answered with `Missing`,
/// and the cache is the same after each of the two steps.
pub proof fn lemma_probe_of_missing_file(
    entries: Seq<Entry>,
    limit: nat,
    path: Seq<char>,
    failure: IoFailure,
)
    requires
        !cached(entries, path),
        failure.kind == IoKind::NotFound,
    ensures
        step_of(entries, limit, path, FileEvent::Request) == FileStep::Open,
        entries_after(entries, limit, path, FileEvent::Request) == entries,
        step_of(entries, limit, path, FileEvent::OpenFailed(failure)) == FileStep::Missing,
        entries_after(entries, limit, path, FileEvent::OpenFailed(failure)) == entries,
{
}

/// The first use of a file that is not cached asks for one open. Once the
/// handle is reported, a cache that can hold anything holds it as its most
/// recently used entry, and the next use of the file gets that handle
/// without another open.
pub proof fn lemma_second_use_reuses_handle(
    entries: Seq<Entry>,
    limit: nat,
    path: Seq<char>,
    fd: Fd,
)
    requires
        well_formed(entries, limit),
        limit >= 1,
        !cached(entries, path),
    ensures
        step_of(entries, limit, path, FileEvent::Request) == FileStep::Open,
        well_formed(entries_after(entries, limit, path, FileEvent::Opened(fd)), limit),
        entries_after(entries, limit, path, FileEvent::Opened(fd)).last() == (path, fd),
        step_of(
            entries_after(entries, limit, path, FileEvent::Opened(fd)),
            limit,
            path,
            FileEvent::Request,
        ) == (FileStep::Use { fd, close: None }),
{
    let after = inserted(entries, limit, path, fd);
    if entries.len() >= limit {
        lemma_suffix_keeps_distinct(entries, 1);
        assert(entries.drop_first() == entries.skip(1));
        assert forall|i: int| 0 <= i < entries.drop_first().len() implies (
        #[trigger] entries.drop_first()[i]).0 != path by {
            assert(entries.drop_first()[i] == entries[i + 1]);
        }
        lemma_push_keeps_distinct(entries.drop_first(), (path, fd));
    } else {
        lemma_push_keeps_distinct(entries, (path, fd));
    }
    let last = after.len() - 1;
    assert(after[last].0 == path);
    lemma_index_of_unique(after, path, last);
}

/// How long ago an entry was used: 1 for the most recently used entry, and
/// one more for each entry that was used after it.
pub open spec fn age(entries: Seq<Entry>, path: Seq<char>) -> int {
    entries.len() - index_of(entries, path)
}

/// Using or opening one file takes no other file out of the cache, but for
/// the least recently used entry of a full cache when a file is opened. The
/// other entries keep their handles and grow older by one step at most: an
/// entry stays until as many other files as the limit allows were used after
/// it.
pub proof fn lemma_other_files_stay(
    entries: Seq<Entry>,
    limit: nat,
    path: Seq<char>,
    event: FileEvent,
    other: Seq<char>,
)
    requires
        well_formed(entries, limit),
        cached(entries, other),
        other != path,
        age(entries, other) < limit || !(event is Opened) || cached(entries, path),
    ensures
        1 <= age(entries, other) <= limit,
        cached(entries_after(entries, limit, path, event), other),
        handle_of(entries_after(entries, limit, path, event), other) == handle_of(entries, other),
        age(entries_after(entries, limit, path, event), other) <= age(entries, other) + 1,
{
    let k = index_of(entries, other);
    let after = entries_after(entries, limit, path, event);
    if after != entries {
        if cached(entries, path) {
            let i = index_of(entries, path);
            let e = after.last();
            lemma_touch_keeps_distinct(entries, i, e);
            let to = if k < i {
                k
            } else {
                k - 1
            };
            assert(after[to] == entries[k]);
            lemma_index_of_unique(after, other, to);
        } else if entries.len() >= limit {
            lemma_suffix_keeps_distinct(entries, 1);
            assert(entries.drop_first() == entries.skip(1));
            assert forall|i: int| 0 <= i < entries.drop_first().len() implies (
            #[trigger] entries.drop_first()[i]).0 != path by {
                assert(entries.drop_first()[i] == entries[i + 1]);
            }
            lemma_push_keeps_distinct(entries.drop_first(), after.last());
            assert(after[k - 1] == entries[k]);
            lemma_index_of_unique(after, other, k - 1);
        } else {
            lemma_push_keeps_distinct(entries, after.last());
            assert(after[k] == entries[k]);
            lemma_index_of_unique(after, other, k);
        }
    }
}

/// After a resize to `cap` the cache holds at most `cap` entries: those that
/// were used last, in their order. The handles that left are those of all
/// the entries before them, least recently used first.
pub proof fn lemma_resize_keeps_most_recent(entries: Seq<Entry>, cap: nat)
    ensures
        retained(entries, cap).len() <= cap,
        evicted(entries, cap).len() + retained(entries, cap).len() == entries.len(),
        forall|i: int|
            0 <= i < evicted(entries, cap).len() ==> #[trigger] evicted(entries, cap)[i]
                == entries[i].1,
        forall|i: int|
            0 <= i < retained(entries, cap).len() ==> #[trigger] retained(entries, cap)[i]
                == entries[evicted(entries, cap).len() + i],
{
}

/// Where the paths are distinct, the entry with a path is the only one.
proof fn lemma_index_of_unique(entries: Seq<Entry>, path: Seq<char>, i: int)
    requires
        distinct_paths(entries),
        0 <= i < entries.len(),
        entries[i].0 == path,
    ensures
        cached(entries, path),
        index_of(entries, path) == i,
{
    let j = index_of(entries, path);
    if j < i {
        assert(entries[j].0 != entries[i].0);
    } else if i < j {
        assert(entries[i].0 != entries[j].0);
    }
}

/// Replacing the handle of an entry, or just moving the entry to the most
/// recently used place, keeps the paths distinct.
proof fn lemma_touch_keeps_distinct(entries: Seq<Entry>, i: int, e: Entry)
    requires
        distinct_paths(entries),
        0 <= i < entries.len(),
        e.0 == entries[i].0,
    ensures
        distinct_paths(entries.remove(i).push(e)),
        entries.remove(i).push(e).len() == entries.len(),
{
    let after = entries.remove(i).push(e);
    assert forall|a: int, b: int| 0 <= a < b < after.len() implies after[a].0 != after[b].0 by {
        let src_a = if a < i { a } else { a + 1 };
        assert(after[a] == entries[src_a]);
        if b < after.len() - 1 {
            let src_b = if b < i { b } else { b + 1 };
            assert(after[b] == entries[src_b]);
        } else {
            assert(after[b] == e);
        }
    }
}

/// Dropping the least recently used entries keeps the paths distinct.
proof fn lemma_suffix_keeps_distinct(entries: Seq<Entry>, n: int)
    requires
        distinct_paths(entries),
        0 <= n <= entries.len(),
    ensures
        distinct_paths(entries.skip(n)),
{
}

/// An entry with a path that is not cached yet keeps the paths distinct.
proof fn lemma_push_keeps_distinct(entries: Seq<Entry>, e: Entry)
    requires
        distinct_paths(entries),
        !cached(entries, e.0),
    ensures
        distinct_paths(entries.push(e)),
{
    let after = entries.push(e);
    assert forall|a: int, b: int| 0 <= a < b < after.len() implies after[a].0 != after[b].0 by {
        if b == entries.len() {
            assert(after[a] == entries[a]);
        }
    }
}

} // verus!
