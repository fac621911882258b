//! The least-recently-used map of the `lru` crate, as the file-handle cache
//! sees it: a list of (path, handle) pairs ordered by use, and a limit.
//!
//! Nothing in this file is proved. Each function states what the method of
//! `lru::LruCache` that it calls does to that list, as the crate's source has
//! it; the file-handle cache is verified against these statements.

use vstd::prelude::*;

verus! {

/// The cache of the `lru` crate. Nothing inside it is visible here.
#[verifier::external_type_specification]
#[verifier::external_body]
#[verifier::reject_recursive_types(K)]
#[verifier::reject_recursive_types(V)]
#[verifier::reject_recursive_types(S)]
pub struct ExLruCache<K, V, S>(lru::LruCache<K, V, S>);

/// The hasher that the cache of the `lru` crate uses unless told otherwise.
#[verifier::external_type_specification]
#[verifier::external_body]
pub struct ExDefaultHasher(lru::DefaultHasher);

/// One cached file: its path and the handle it was opened under.
pub type Entry = (Seq<char>, u64);

/// The entries of the cache, least recently used first.
pub uninterp spec fn lru_entries(c: lru::LruCache<String, u64>) -> Seq<Entry>;

/// The number of entries the cache is to hold at most.
pub uninterp spec fn lru_limit(c: lru::LruCache<String, u64>) -> nat;

/// `LruCache::new`: an empty cache with the given limit. The crate sets
/// aside room for `cap` entries at once and fails where it cannot, so only
/// small limits are asked of it here; `lru_resize` sets any other.
#[verifier::external_body]
pub(crate) fn lru_new(cap: usize) -> (c: lru::LruCache<String, u64>)
    requires
        cap <= 32,
    ensures
        lru_entries(c) == Seq::<Entry>::empty(),
        lru_limit(c) == cap,
{
    lru::LruCache::new(cap)
}

/// `LruCache::len`: the number of entries.
#[verifier::external_body]
pub(crate) fn lru_len(c: &lru::LruCache<String, u64>) -> (n: usize)
    ensures
        n == lru_entries(*c).len(),
{
    c.len()
}

/// `LruCache::cap`: the limit.
#[verifier::external_body]
pub(crate) fn lru_cap(c: &lru::LruCache<String, u64>) -> (n: usize)
    ensures
        n == lru_limit(*c),
{
    c.cap()
}

/// `LruCache::contains`: whether some entry has this path. The order of use
/// is left as it is.
#[verifier::external_body]
pub(crate) fn lru_contains(c: &lru::LruCache<String, u64>, path: &String) -> (found: bool)
    ensures
        found == (exists|i: int|
            0 <= i < lru_entries(*c).len() && (#[trigger] lru_entries(*c)[i]).0 == path@),
{
    c.contains(path)
}

/// `LruCache::get`: the handle cached under this path, if there is one; that
/// entry becomes the most recently used.
#[verifier::external_body]
pub(crate) fn lru_get(c: &mut lru::LruCache<String, u64>, path: &String) -> (found: Option<u64>)
    ensures
        lru_limit(*final(c)) == lru_limit(*old(c)),
        forall|i: int|
            0 <= i < lru_entries(*old(c)).len() && (#[trigger] lru_entries(*old(c))[i]).0 == path@
                ==> found == Some(lru_entries(*old(c))[i].1) && lru_entries(*final(c))
                == lru_entries(*old(c)).remove(i).push(lru_entries(*old(c))[i]),
        (forall|i: int|
            0 <= i < lru_entries(*old(c)).len() ==> (#[trigger] lru_entries(*old(c))[i]).0
                != path@) ==> found is None && lru_entries(*final(c)) == lru_entries(*old(c)),
{
    c.get(path).copied()
}

/// `LruCache::put`: caches the handle under the path as the most recently
/// used entry. A path that is cached already keeps its entry, with the new
/// handle, and the old handle is returned. Otherwise nothing is returned: a
/// cache with limit zero stays empty, a full one loses its least recently
/// used entry, and any other just grows.
#[verifier::external_body]
pub(crate) fn lru_put(c: &mut lru::LruCache<String, u64>, path: String, fd: u64) -> (replaced:
    Option<u64>)
    ensures
        lru_limit(*final(c)) == lru_limit(*old(c)),
        forall|i: int|
            0 <= i < lru_entries(*old(c)).len() && (#[trigger] lru_entries(*old(c))[i]).0 == path@
                ==> replaced == Some(lru_entries(*old(c))[i].1) && lru_entries(*final(c))
                == lru_entries(*old(c)).remove(i).push((path@, fd)),
        (forall|i: int|
            0 <= i < lru_entries(*old(c)).len() ==> (#[trigger] lru_entries(*old(c))[i]).0
                != path@) ==> replaced is None && lru_entries(*final(c)) == (if lru_limit(*old(c))
            == 0 {
            lru_entries(*old(c))
        } else if lru_entries(*old(c)).len() == lru_limit(*old(c)) {
            lru_entries(*old(c)).drop_first().push((path@, fd))
        } else {
            lru_entries(*old(c)).push((path@, fd))
        }),
{
    c.put(path, fd)
}

/// `LruCache::pop_lru`: takes the least recently used entry out and returns
/// it; an empty cache gives nothing and stays empty.
#[verifier::external_body]
pub(crate) fn lru_pop_lru(c: &mut lru::LruCache<String, u64>) -> (popped: Option<(String, u64)>)
    ensures
        lru_limit(*final(c)) == lru_limit(*old(c)),
        lru_entries(*old(c)).len() == 0 ==> popped is None && lru_entries(*final(c))
            == lru_entries(*old(c)),
        lru_entries(*old(c)).len() > 0 ==> (match popped {
            Some((path, fd)) => (path@, fd) == lru_entries(*old(c))[0],
            None => false,
        }) && lru_entries(*final(c)) == lru_entries(*old(c)).drop_first(),
{
    c.pop_lru()
}

/// `LruCache::resize`: sets the limit. Where the limit changes and the cache
/// holds more than the new one, the least recently used entries are dropped
/// until it fits.
#[verifier::external_body]
pub(crate) fn lru_resize(c: &mut lru::LruCache<String, u64>, cap: usize)
    ensures
        lru_limit(*final(c)) == cap,
        lru_entries(*final(c)) == (if cap != lru_limit(*old(c)) && lru_entries(*old(c)).len()
            > cap {
            lru_entries(*old(c)).skip(lru_entries(*old(c)).len() - cap)
        } else {
            lru_entries(*old(c))
        }),
{
    c.resize(cap)
}

} // verus!
