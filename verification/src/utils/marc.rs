//! A shared-ownership handle whose payload is torn down through an
//! explicit call that carries a context.

use std::sync::Arc;
use vstd::prelude::*;

verus! {

/// A payload that has to be told when it goes away, and needs something
/// from outside to do its part: a dirty page, say, that must be written back
/// through whatever the context gives it.
pub trait Destory {
    type DestoryCtx;

    /// Whether `after` is what a context `before` may look like once this
    /// payload was torn down in it. A payload that says nothing else allows
    /// any change.
    open spec fn torn_down(&self, before: &Self::DestoryCtx, after: &Self::DestoryCtx) -> bool {
        true
    }

    /// Tears the payload down. It is called once, by the last handle, just
    /// before the payload's storage is released.
    fn destory(&mut self, ctx: &mut Self::DestoryCtx)
        ensures
            old(self).torn_down(old(ctx), final(ctx)),
    ;
}

/// `Arc::clone`: one more handle of the same value. What is claimed is that
/// the new handle leads to the value that the old one leads to. (The call
/// ends the process rather than let the number of handles pass `isize::MAX`,
/// for which memory runs out first.)
#[verifier::external_body]
fn arc_clone<T>(a: &Arc<T>) -> (b: Arc<T>)
    ensures
        *b == **a,
{
    Arc::clone(a)
}

/// `Arc::into_inner`: gives the handle up, and hands the value out if this
/// was the last handle of it. Whether it was depends on what other handles
/// did, on other threads too, so all that is claimed is that a value that
/// comes out is the value behind the handle.
#[verifier::external_body]
fn arc_into_inner<T>(a: Arc<T>) -> (last: Option<T>)
    ensures
        last matches Some(v) ==> v == *a,
{
    Arc::into_inner(a)
}

/// `Arc::strong_count`: the number of handles of the value at some moment
/// during the call. Other threads may change it at any time, so nothing is
/// claimed of it.
#[verifier::external_body]
fn arc_strong_count<T>(a: &Arc<T>) -> (n: usize) {
    Arc::strong_count(a)
}

/// `Arc::make_mut`: exclusive access to the value behind the handle. Where
/// other handles of the value exist the handle is first pointed at a clone
/// of it. What is claimed is that the reference leads to the old value or to
/// a clone of it, and that the handle holds in the end what the reference
/// holds in the end.
#[verifier::external_body]
fn arc_make_mut<T: Clone>(a: &mut Arc<T>) -> (v: &mut T)
    ensures
        cloned::<T>(**old(a), *v),
        **final(a) == *final(v),
{
    Arc::make_mut(a)
}

/// `b` is `a`, or what cloning `a` gave, or what cloning that gave.
pub open spec fn duplicate<T: Clone>(a: T, b: T) -> bool {
    exists|m: T| cloned::<T>(a, m) && cloned::<T>(m, b)
}

/// One of the handles that share a payload.
///
/// Handles are counted. `clone` makes one more, `unref` gives one up, and
/// the payload is torn down once, by the `unref` that gives up the last one.
/// A handle that merely leaves scope gives up its share without a teardown:
/// that is in order for the only handle of a payload that needs none, and a
/// mistake otherwise.
///
/// To a contract a handle is its payload. How many handles there are is not
/// part of that: other handles, on other threads too, change it at any time.
pub struct Marc<T: Destory> {
    ptr: Arc<T>,
}

impl<T: Destory> View for Marc<T> {
    type V = T;

    /// The payload.
    closed spec fn view(&self) -> T {
        *self.ptr
    }
}

impl<T: Destory> Marc<T> {
    /// The first handle of a new payload.
    pub fn new(v: T) -> (m: Self)
        ensures
            m@ == v,
    {
        Self::from_inner(Arc::new(v))
    }

    fn from_inner(ptr: Arc<T>) -> (m: Self)
        ensures
            m@ == *ptr,
    {
        Self { ptr }
    }

    fn inner(&self) -> (v: &T)
        ensures
            *v == self@,
    {
        &*self.ptr
    }

    fn do_unref(self, ctx: &mut T::DestoryCtx)
        ensures
            *final(ctx) == *old(ctx) || self@.torn_down(old(ctx), final(ctx)),
    {
        // Whether this was the last handle is for `Arc` to say. What follows
        // from its answer is stated, for each answer, by `tear_down_last`.
        let last = arc_into_inner(self.ptr);
        Self::tear_down_last(last, ctx);
    }

    /// Gives this handle up. The last handle of a payload tears it down in
    /// `ctx`; any other leaves `ctx` alone. So `ctx` is as it was, or as one
    /// teardown of the payload leaves it.
    pub fn unref(self, ctx: &mut T::DestoryCtx)
        ensures
            *final(ctx) == *old(ctx) || self@.torn_down(old(ctx), final(ctx)),
    {
        self.do_unref(ctx);
    }

    /// What giving up a handle comes to, once it is known whether it was
    /// the last one. `last` is the payload if it was, and nothing otherwise:
    /// the payload of the last handle is torn down in `ctx`, once, and for
    /// any other handle `ctx` is left as it is.
    pub fn tear_down_last(last: Option<T>, ctx: &mut T::DestoryCtx)
        ensures
            match last {
                Some(payload) => payload.torn_down(old(ctx), final(ctx)),
                None => *final(ctx) == *old(ctx),
            },
    {
        match last {
            Some(mut payload) => payload.destory(ctx),
            None => {},
        }
    }
}

impl<T: Destory + Clone> Marc<T> {
    /// Exclusive access to the payload of this handle, for writing.
    ///
    /// A handle that is alone with its payload gets the payload itself.
    /// Where other handles exist, this one is pointed at a duplicate first
    /// and its share in the old payload is given up as by `unref`; the other
    /// handles keep the payload as it was. Whatever is written through the
    /// returned reference is what this handle holds afterwards.
    pub fn make_mut(&mut self, ctx: &mut T::DestoryCtx) -> (v: &mut T)
        ensures
            duplicate::<T>(old(self)@, *v),
            final(self)@ == *final(v),
            *final(ctx) == *old(ctx) || old(self)@.torn_down(old(ctx), final(ctx)),
    {
        let ghost before = self@;
        if arc_strong_count(&self.ptr) != 1 {
            let mut bak = Marc::new(self.inner().clone());
            assert(cloned::<T>(before, bak@));
            std::mem::swap(self, &mut bak);
            bak.do_unref(ctx);
        } else {
            assert(cloned::<T>(before, self@));
        }
        arc_make_mut(&mut self.ptr)
    }
}

impl<T: Destory> Clone for Marc<T> {
    /// One more handle of the same payload.
    fn clone(&self) -> (m: Self)
        ensures
            m@ == self@,
    {
        Self::from_inner(arc_clone(&self.ptr))
    }
}

impl<T: Destory> std::ops::Deref for Marc<T> {
    type Target = T;

    /// The payload, for reading.
    fn deref(&self) -> (v: &T)
        ensures
            *v == self@,
    {
        self.inner()
    }
}

} // verus!
