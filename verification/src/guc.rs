//! The settings that the storage layer reads. They are owned and changed
//! elsewhere in the engine; here they are only looked up.

use vstd::prelude::*;

pub use self::I::{ClogL2cacheSize, MaxFilesPerProcess};

verus! {

/// The names of the integer settings.
#[derive(Clone, Copy, Debug, PartialEq, Eq, Structural)]
pub enum I {
    /// How many file handles an execution unit keeps open at most.
    MaxFilesPerProcess,
    /// How many pages the page cache of the commit log holds at most.
    ClogL2cacheSize,
}

/// The settings of one execution unit.
#[derive(Clone, Copy, Debug, PartialEq, Eq, Structural)]
pub struct GucState {
    max_files_per_process: i32,
    clog_l2cache_size: i32,
}

impl GucState {
    /// The value of an integer setting.
    pub closed spec fn value(self, name: I) -> i32 {
        match name {
            I::MaxFilesPerProcess => self.max_files_per_process,
            I::ClogL2cacheSize => self.clog_l2cache_size,
        }
    }

    /// The settings an execution unit starts with: 32 file handles and one
    /// page.
    pub fn new() -> (state: Self)
        ensures
            state.value(I::MaxFilesPerProcess) == 32,
            state.value(I::ClogL2cacheSize) == 1,
    {
        GucState { max_files_per_process: 32, clog_l2cache_size: 1 }
    }

    /// Changes one integer setting.
    pub fn set_int(&mut self, name: I, value: i32)
        ensures
            final(self).value(name) == value,
            forall|other: I| other != name ==> final(self).value(other) == old(self).value(other),
    {
        match name {
            I::MaxFilesPerProcess => {
                self.max_files_per_process = value;
            },
            I::ClogL2cacheSize => {
                self.clog_l2cache_size = value;
            },
        }
    }
}

/// The value of an integer setting.
pub fn get_int(state: &GucState, name: I) -> (value: i32)
    ensures
        value == state.value(name),
{
    match name {
        I::MaxFilesPerProcess => state.max_files_per_process,
        I::ClogL2cacheSize => state.clog_l2cache_size,
    }
}

/// The limit that an integer setting stands for. A negative value stands
/// for the limit that its two's complement pattern spells in a `usize`,
/// which is as good as none.
pub open spec fn limit_of(value: i32) -> nat {
    if value >= 0 {
        value as nat
    } else {
        (usize::MAX + 1 + value) as nat
    }
}

/// The limit that an integer setting stands for.
pub fn as_limit(value: i32) -> (limit: usize)
    ensures
        limit == limit_of(value),
{
    if value >= 0 {
        value as usize
    } else {
        usize::MAX - ((-(value + 1)) as usize)
    }
}

} // verus!
