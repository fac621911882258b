//! Transaction identifiers.

use vstd::prelude::*;

verus! {

/// The identifier of a transaction. Identifiers are handed out in rising
/// order and start at 1; 0 stands for no transaction and is no identifier.
#[derive(Clone, Copy, Debug, PartialEq, Eq)]
pub struct Xid(u64);

impl View for Xid {
    type V = u64;

    /// The number of the transaction.
    closed spec fn view(&self) -> u64 {
        self.0
    }
}

impl Xid {
    #[verifier::type_invariant]
    spec fn inv(self) -> bool {
        self.0 >= 1
    }

    /// The identifier with number `v`, if `v` is one.
    pub fn new(v: u64) -> (xid: Option<Xid>)
        ensures
            v == 0 ==> xid is None,
            v != 0 ==> xid is Some && xid.unwrap()@ == v,
    {
        if v == 0 {
            None
        } else {
            Some(Xid(v))
        }
    }

    /// The number of the transaction, which is never 0.
    pub fn get(&self) -> (v: u64)
        ensures
            v == self@,
            v >= 1,
    {
        proof {
            use_type_invariant(self);
        }
        self.0
    }
}

} // verus!
