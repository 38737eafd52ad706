use cw_engine::error::VmError;
use cw_engine::host::{check_region_write, check_return_count, GasTracker, Iterators, Region};

#[test]
fn gas_tracker_stops_at_limit() {
    let mut g = GasTracker::new(Some(100));
    g.consume(60, "read").unwrap();
    assert_eq!(g.remaining(), Some(40));
    match g.consume(41, "write") {
        Err(VmError::OutOfGas { limit, used, comment }) => {
            assert_eq!((limit, used), (100, 60));
            assert_eq!(comment, "write");
        },
        other => panic!("unexpected {:?}", other),
    }
    assert_eq!(g.used, 60);
    g.consume(40, "write").unwrap();
    assert_eq!(g.remaining(), Some(0));
    let mut free = GasTracker::new(None);
    free.consume(u64::MAX, "a").unwrap();
    free.consume(5, "b").unwrap();
    assert_eq!(free.used, u64::MAX);
    assert_eq!(free.remaining(), None);
}

#[test]
fn regions_are_checked() {
    let r = Region { offset: 10, capacity: 20, length: 5 };
    assert!(check_region_write(&r, 30, 20).is_ok());
    assert!(matches!(
        check_region_write(&r, 30, 21),
        Err(VmError::RegionTooSmall { offset: 10, capacity: 20, data_len: 21 })
    ));
    assert!(check_region_write(&r, 29, 1).is_err());
    let bad = Region { offset: 0, capacity: 4, length: 5 };
    assert!(check_region_write(&bad, 100, 1).is_err());
}

#[test]
fn return_counts_are_checked() {
    assert!(check_return_count("f", 1, 1).is_ok());
    assert!(matches!(
        check_return_count("f", 1, 2),
        Err(VmError::ReturnCount { expect: 1, actual: 2, .. })
    ));
}

#[test]
fn iterator_ids_increase_and_unknown_fail() {
    let mut its = Iterators::new();
    let a = its.open();
    let b = its.open();
    assert!(b > a);
    assert!(its.check(a).is_ok());
    its.close(a).unwrap();
    assert!(matches!(its.check(a), Err(VmError::IteratorNotFound { iterator_id }) if iterator_id == a));
    assert!(its.close(a).is_err());
    let c = its.open();
    assert!(c > b);
    assert!(its.check(b).is_ok());
}
