use commit_log::access::status::{get_status, set_status, VecXidStatus, XidStatus, XACTS_PER_BYTE};

const ALL: [XidStatus; 4] =
    [XidStatus::InProgress, XidStatus::Committed, XidStatus::Aborted, XidStatus::SubCommitted];

#[test]
fn a_status_takes_two_bits() {
    assert_eq!(4, XACTS_PER_BYTE);
    assert_eq!(0, XidStatus::InProgress.to_bits());
    assert_eq!(1, XidStatus::Committed.to_bits());
    assert_eq!(2, XidStatus::Aborted.to_bits());
    assert_eq!(3, XidStatus::SubCommitted.to_bits());
    for bits in 0..=255u8 {
        assert_eq!(ALL[(bits & 3) as usize], XidStatus::from_bits(bits));
    }
}

#[test]
fn the_first_slot_is_the_lowest_bit_pair() {
    assert_eq!(XidStatus::Committed, get_status(0b0000_0001, 0));
    assert_eq!(XidStatus::Aborted, get_status(0b0000_1000, 1));
    assert_eq!(XidStatus::SubCommitted, get_status(0b0011_0000, 2));
    assert_eq!(XidStatus::Committed, get_status(0b0100_0000, 3));
    assert_eq!(XidStatus::InProgress, get_status(0b1111_1100, 0));
    assert_eq!(0b0000_0001, set_status(0, 0, XidStatus::Committed));
    assert_eq!(0b0000_1000, set_status(0, 1, XidStatus::Aborted));
    assert_eq!(0b1100_0000, set_status(0, 3, XidStatus::SubCommitted));
    assert_eq!(0b1111_0011, set_status(0xff, 1, XidStatus::InProgress));
    assert_eq!(0b1001_1011, set_status(0b1011_1011, 2, XidStatus::Committed));
}

#[test]
fn a_write_changes_its_own_slot_only() {
    for byte in 0..=255u8 {
        for slot in 0..4u8 {
            for status in ALL {
                let changed = set_status(byte, slot, status);
                for other in 0..4u8 {
                    let expected = if other == slot { status } else { get_status(byte, other) };
                    assert_eq!(expected, get_status(changed, other));
                }
            }
        }
    }
}

#[test]
fn split_unpacks_a_byte() {
    assert_eq!([XidStatus::InProgress; 4], VecXidStatus::split(0));
    assert_eq!(
        [XidStatus::Committed, XidStatus::Aborted, XidStatus::SubCommitted, XidStatus::InProgress],
        VecXidStatus::split(0b00_11_10_01)
    );
    assert_eq!([XidStatus::SubCommitted; 4], VecXidStatus::split(0xff));
}

#[test]
fn a_buffer_is_made_of_whole_bytes() {
    assert_eq!(0, VecXidStatus::new(0).data().len());
    assert_eq!(1, VecXidStatus::new(1).data().len());
    assert_eq!(1, VecXidStatus::new(4).data().len());
    assert_eq!(2, VecXidStatus::new(5).data().len());
    assert_eq!(vec![0u8; 25], VecXidStatus::new(100).data().to_vec());
    assert_eq!(vec![XidStatus::InProgress; 8], VecXidStatus::new(6).to_vec());
}

#[test]
fn a_buffer_keeps_what_is_put_in_it() {
    let mut buf = VecXidStatus::new(10);
    buf.set(0, XidStatus::Committed);
    buf.set(5, XidStatus::Aborted);
    buf.set(6, XidStatus::SubCommitted);
    buf.set(11, XidStatus::Committed);
    assert_eq!(XidStatus::Committed, buf.get(0));
    assert_eq!(XidStatus::InProgress, buf.get(4));
    assert_eq!(XidStatus::Aborted, buf.get(5));
    assert_eq!(XidStatus::SubCommitted, buf.get(6));
    assert_eq!(XidStatus::Committed, buf.get(11));
    assert_eq!(&[0b0000_0001u8, 0b0011_1000, 0b0100_0000][..], buf.data());
    buf.set(5, XidStatus::InProgress);
    assert_eq!(&[0b0000_0001u8, 0b0011_0000, 0b0100_0000][..], buf.data());
    assert_eq!(12, buf.to_vec().len());
    assert_eq!(XidStatus::SubCommitted, buf.to_vec()[6]);
}
