use storage::bundled_counters::BundledCounters;

#[test]
fn one_word() {
    let counters = BundledCounters { read_at: 3, write_at: 5 };
    assert_eq!(counters.to_word(), 0x5_0000_0003);
    assert_eq!(BundledCounters::from_word(0x5_0000_0003), counters);
    let largest = BundledCounters { read_at: u32::MAX, write_at: u32::MAX };
    assert_eq!(largest.to_word(), u64::MAX);
    assert_eq!(BundledCounters::from_word(u64::MAX), largest);
    assert_eq!(BundledCounters::new().to_word(), 0);
    assert_eq!(counters.load_pair(), (3, 5));
    assert_eq!(counters.len(), 2);
}

#[test]
fn runs() {
    let counters = BundledCounters { read_at: 10, write_at: 13 };
    assert_eq!(counters.write_run(8), (5, 8));
    assert_eq!(counters.read_run(8), (2, 5));
    let wrapped = BundledCounters { read_at: 7, write_at: 10 };
    assert_eq!(wrapped.write_run(8), (2, 7));
    assert_eq!(wrapped.read_run(8), (7, 8));
}

/// A writer that has not yet seen what the reader took finds fewer slots, none of them in use.
#[test]
fn stale_counters() {
    let now = BundledCounters { read_at: 6, write_at: 10 };
    let seen_by_writer = BundledCounters { read_at: 3, write_at: 10 };
    let seen_by_reader = BundledCounters { read_at: 6, write_at: 9 };
    assert_eq!(now.write_run(8), (2, 6));
    assert_eq!(seen_by_writer.write_run(8), (2, 3));
    assert_eq!(now.read_run(8), (6, 8));
    assert_eq!(seen_by_reader.read_run(8), (6, 8));
}

#[test]
fn counting() {
    let counters = BundledCounters { read_at: u32::MAX - 1, write_at: u32::MAX };
    let after = counters.advance_write(3);
    assert_eq!(after, BundledCounters { read_at: u32::MAX - 1, write_at: 2 });
    let after = counters.advance_read(1);
    assert_eq!(after, BundledCounters { read_at: u32::MAX, write_at: u32::MAX });
}

#[test]
fn runs_at_an_offset() {
    let counters = BundledCounters { read_at: 10, write_at: 13 };
    assert_eq!(counters.unallocated_run(1, 9, 8), (6, 8));
    assert_eq!(counters.unallocated_run(4, 9, 8), (1, 2));
    assert_eq!(counters.unallocated_run(4, 0, 8), (1, 1));
    assert_eq!(counters.unallocated_run(6, 9, 8), (0, 0));
    assert_eq!(counters.allocated_run(1, 9, 8), (3, 5));
    assert_eq!(counters.allocated_run(1, 1, 8), (3, 4));
    assert_eq!(counters.allocated_run(4, 1, 8), (0, 0));
}
