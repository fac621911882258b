//! The outcome of a transaction and how four of them share a byte.
//!
//! A status takes two bits. The four statuses of a byte sit in slots 0 to 3,
//! slot 0 in the two lowest bits, so that the transaction with the lowest
//! identifier of a group comes first.

use vstd::prelude::*;

verus! {

/// The number of statuses in one byte.
pub const XACTS_PER_BYTE: u64 = 4;

/// The outcome of a transaction.
#[derive(Clone, Copy, Debug, PartialEq, Eq, Structural)]
pub enum XidStatus {
    InProgress,
    Committed,
    Aborted,
    SubCommitted,
}

impl XidStatus {
    /// The two bits that stand for the status.
    pub open spec fn bits(self) -> u8 {
        match self {
            XidStatus::InProgress => 0,
            XidStatus::Committed => 1,
            XidStatus::Aborted => 2,
            XidStatus::SubCommitted => 3,
        }
    }

    /// The status that two bits stand for.
    pub open spec fn of_bits(bits: u8) -> XidStatus {
        if bits % 4 == 0 {
            XidStatus::InProgress
        } else if bits % 4 == 1 {
            XidStatus::Committed
        } else if bits % 4 == 2 {
            XidStatus::Aborted
        } else {
            XidStatus::SubCommitted
        }
    }

    /// The two bits that stand for the status.
    pub fn to_bits(self) -> (bits: u8)
        ensures
            bits == self.bits(),
    {
        match self {
            XidStatus::InProgress => 0,
            XidStatus::Committed => 1,
            XidStatus::Aborted => 2,
            XidStatus::SubCommitted => 3,
        }
    }

    /// The status that the two lowest bits of `bits` stand for.
    pub fn from_bits(bits: u8) -> (status: XidStatus)
        ensures
            status == XidStatus::of_bits(bits),
    {
        let low = bits % 4;
        if low == 0 {
            XidStatus::InProgress
        } else if low == 1 {
            XidStatus::Committed
        } else if low == 2 {
            XidStatus::Aborted
        } else {
            XidStatus::SubCommitted
        }
    }
}

/// The two bits in slot `slot` of a byte.
pub open spec fn slot_bits(byte: u8, slot: int) -> u8 {
    if slot == 0 {
        byte % 4
    } else if slot == 1 {
        (byte / 4) % 4
    } else if slot == 2 {
        (byte / 16) % 4
    } else {
        (byte / 64) % 4
    }
}

/// The status in slot `slot` of a byte.
pub open spec fn byte_status(byte: u8, slot: int) -> XidStatus {
    XidStatus::of_bits(slot_bits(byte, slot))
}

/// The byte with the status in slot `slot` replaced.
pub open spec fn byte_with_status(byte: u8, slot: int, status: XidStatus) -> u8 {
    if slot == 0 {
        (byte - byte % 4 + status.bits()) as u8
    } else if slot == 1 {
        (byte - ((byte / 4) % 4) * 4 + status.bits() * 4) as u8
    } else if slot == 2 {
        (byte - ((byte / 16) % 4) * 16 + status.bits() * 16) as u8
    } else {
        (byte - ((byte / 64) % 4) * 64 + status.bits() * 64) as u8
    }
}

/// The four statuses of a byte, slot 0 first.
pub open spec fn byte_statuses(byte: u8) -> Seq<XidStatus> {
    seq![byte_status(byte, 0), byte_status(byte, 1), byte_status(byte, 2), byte_status(byte, 3)]
}

/// The statuses of a run of bytes, four to the byte.
pub open spec fn statuses_of(bytes: Seq<u8>) -> Seq<XidStatus> {
    Seq::new(4 * bytes.len(), |i: int| byte_status(bytes[i / 4], i % 4))
}

/// Reads the status in slot `slot` of a byte.
pub fn get_status(byte: u8, slot: u8) -> (status: XidStatus)
    requires
        slot < 4,
    ensures
        status == byte_status(byte, slot as int),
{
    let shift: u8 = slot * 2;
    let field: u8 = (byte >> shift) & 3;
    proof {
        if slot == 0 {
            assert((byte >> 0u8) & 3 == byte % 4) by (bit_vector);
        } else if slot == 1 {
            assert((byte >> 2u8) & 3 == (byte / 4) % 4) by (bit_vector);
        } else if slot == 2 {
            assert((byte >> 4u8) & 3 == (byte / 16) % 4) by (bit_vector);
        } else {
            assert((byte >> 6u8) & 3 == (byte / 64) % 4) by (bit_vector);
        }
    }
    XidStatus::from_bits(field)
}

/// Writes a status into slot `slot` of a byte and leaves the other three
/// slots as they are.
pub fn set_status(byte: u8, slot: u8, status: XidStatus) -> (changed: u8)
    requires
        slot < 4,
    ensures
        changed == byte_with_status(byte, slot as int, status),
{
    let shift: u8 = slot * 2;
    let bits: u8 = status.to_bits();
    let changed: u8 = (byte & !(3u8 << shift)) | (bits << shift);
    proof {
        if slot == 0 {
            assert((byte & !(3u8 << 0u8)) | (bits << 0u8) == (byte - byte % 4 + bits) as u8)
                by (bit_vector)
                requires
                    bits < 4,
            ;
        } else if slot == 1 {
            assert((byte & !(3u8 << 2u8)) | (bits << 2u8) == (byte - ((byte / 4) % 4) * 4 + bits
                * 4) as u8) by (bit_vector)
                requires
                    bits < 4,
            ;
        } else if slot == 2 {
            assert((byte & !(3u8 << 4u8)) | (bits << 4u8) == (byte - ((byte / 16) % 4) * 16 + bits
                * 16) as u8) by (bit_vector)
                requires
                    bits < 4,
            ;
        } else {
            assert((byte & !(3u8 << 6u8)) | (bits << 6u8) == (byte - ((byte / 64) % 4) * 64 + bits
                * 64) as u8) by (bit_vector)
                requires
                    bits < 4,
            ;
        }
    }
    changed
}

/// A status that was written into a slot is the status read from it.
pub proof fn lemma_written_status_is_read(byte: u8, slot: int, status: XidStatus)
    requires
        0 <= slot < 4,
    ensures
        byte_status(byte_with_status(byte, slot, status), slot) == status,
{
    let bits = status.bits();
    let w: u8 = if slot == 0 {
        1
    } else if slot == 1 {
        4
    } else if slot == 2 {
        16
    } else {
        64
    };
    assert(((byte - ((byte / w) % 4) * w + bits * w) as u8 / w) % 4 == bits) by (bit_vector)
        requires
            bits < 4,
            w == 1 || w == 4 || w == 16 || w == 64,
    ;
}

/// Writing a status into one slot of a byte changes no other slot of it.
pub proof fn lemma_other_slots_keep_status(byte: u8, slot: int, status: XidStatus, other: int)
    requires
        0 <= slot < 4,
        0 <= other < 4,
        other != slot,
    ensures
        byte_status(byte_with_status(byte, slot, status), other) == byte_status(byte, other),
{
    let bits = status.bits();
    let w: u8 = if slot == 0 {
        1
    } else if slot == 1 {
        4
    } else if slot == 2 {
        16
    } else {
        64
    };
    let v: u8 = if other == 0 {
        1
    } else if other == 1 {
        4
    } else if other == 2 {
        16
    } else {
        64
    };
    assert(((byte - ((byte / w) % 4) * w + bits * w) as u8 / v) % 4 == (byte / v) % 4)
        by (bit_vector)
        requires
            bits < 4,
            w == 1 || w == 4 || w == 16 || w == 64,
            v == 1 || v == 4 || v == 16 || v == 64,
            v != w,
    ;
}

/// Writing the status of one transaction into a run of bytes changes the
/// status of that transaction and of no other.
pub proof fn lemma_write_changes_one_status(bytes: Seq<u8>, at: int, status: XidStatus)
    requires
        0 <= at < 4 * bytes.len(),
    ensures
        statuses_of(bytes.update(at / 4, byte_with_status(bytes[at / 4], at % 4, status)))
            == statuses_of(bytes).update(at, status),
{
    let changed = bytes.update(at / 4, byte_with_status(bytes[at / 4], at % 4, status));
    assert forall|i: int| 0 <= i < 4 * bytes.len() implies #[trigger] statuses_of(changed)[i]
        == statuses_of(bytes).update(at, status)[i] by {
        if i == at {
            lemma_written_status_is_read(bytes[at / 4], at % 4, status);
        } else if i / 4 == at / 4 {
            lemma_other_slots_keep_status(bytes[at / 4], at % 4, status, i % 4);
        }
    }
    assert(statuses_of(changed) =~= statuses_of(bytes).update(at, status));
}

/// A run of zero bytes holds `InProgress` throughout.
pub proof fn lemma_zero_bytes_are_in_progress(bytes: Seq<u8>)
    requires
        forall|i: int| 0 <= i < bytes.len() ==> bytes[i] == 0,
    ensures
        forall|i: int|
            0 <= i < 4 * bytes.len() ==> #[trigger] statuses_of(bytes)[i] == XidStatus::InProgress,
{
    assert forall|i: int| 0 <= i < 4 * bytes.len() implies #[trigger] statuses_of(bytes)[i]
        == XidStatus::InProgress by {
        assert(bytes[i / 4] == 0);
    }
}

/// A buffer of statuses, packed four to the byte, that a batch read fills.
pub struct VecXidStatus {
    data: Vec<u8>,
}

impl View for VecXidStatus {
    type V = Seq<XidStatus>;

    /// The statuses in the buffer, by position.
    closed spec fn view(&self) -> Seq<XidStatus> {
        statuses_of(self.data@)
    }
}

impl VecXidStatus {
    /// The packed bytes of the buffer.
    pub closed spec fn bytes(&self) -> Seq<u8> {
        self.data@
    }

    /// The view is what the packed bytes hold.
    pub proof fn lemma_view_is_unpacked(&self)
        ensures
            self@ == statuses_of(self.bytes()),
    {
    }

    /// A buffer with room for at least `len` statuses, in whole bytes, all
    /// of them `InProgress`.
    pub fn new(len: usize) -> (buf: Self)
        ensures
            buf.bytes().len() == (len + 3) / 4,
            buf@.len() == 4 * ((len + 3) / 4),
            forall|i: int| 0 <= i < buf@.len() ==> buf@[i] == XidStatus::InProgress,
    {
        let extra: usize = if len % 4 == 0 {
            0
        } else {
            1
        };
        let nbytes: usize = len / 4 + extra;
        let mut data: Vec<u8> = Vec::new();
        while data.len() < nbytes
            invariant
                data@.len() <= nbytes,
                forall|i: int| 0 <= i < data@.len() ==> data@[i] == 0,
            decreases nbytes - data@.len(),
        {
            data.push(0u8);
        }
        proof {
            lemma_zero_bytes_are_in_progress(data@);
        }
        VecXidStatus { data }
    }

    /// The four statuses that a byte holds, slot 0 first.
    pub fn split(byteval: u8) -> (statuses: [XidStatus; 4])
        ensures
            statuses@ == byte_statuses(byteval),
    {
        let statuses = [
            get_status(byteval, 0),
            get_status(byteval, 1),
            get_status(byteval, 2),
            get_status(byteval, 3),
        ];
        assert(statuses@ =~= byte_statuses(byteval));
        statuses
    }

    /// The packed bytes of the buffer.
    pub fn data(&self) -> (bytes: &[u8])
        ensures
            bytes@ == self.bytes(),
    {
        self.data.as_slice()
    }

    /// The status at position `idx`.
    pub fn get(&self, idx: usize) -> (status: XidStatus)
        requires
            idx < self@.len(),
        ensures
            status == self@[idx as int],
    {
        get_status(self.data[idx / 4], (idx % 4) as u8)
    }

    /// Puts a status at position `idx`; every other position keeps its
    /// status.
    pub fn set(&mut self, idx: usize, status: XidStatus)
        requires
            idx < old(self)@.len(),
        ensures
            final(self)@ == old(self)@.update(idx as int, status),
    {
        let byte = set_status(self.data[idx / 4], (idx % 4) as u8, status);
        proof {
            lemma_write_changes_one_status(self.data@, idx as int, status);
        }
        self.data[idx / 4] = byte;
    }

    /// All the statuses of the buffer, unpacked.
    pub fn to_vec(&self) -> (statuses: Vec<XidStatus>)
        ensures
            statuses@ == self@,
    {
        let mut statuses: Vec<XidStatus> = Vec::new();
        let mut i: usize = 0;
        while i < self.data.len()
            invariant
                i <= self.data@.len(),
                statuses@.len() == 4 * i,
                forall|k: int| 0 <= k < 4 * i ==> statuses@[k] == statuses_of(self.data@)[k],
            decreases self.data@.len() - i,
        {
            let four = Self::split(self.data[i]);
            statuses.push(four[0]);
            statuses.push(four[1]);
            statuses.push(four[2]);
            statuses.push(four[3]);
            i += 1;
        }
        assert(statuses@ =~= self@);
        statuses
    }
}

} // verus!
