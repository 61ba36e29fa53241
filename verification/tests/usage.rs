use confluence::usage::{aggregate, checked_aggregate, UsageSummary};

fn usage(upload: Option<i64>, download: Option<i64>, total: Option<i64>, expire: Option<i64>) -> UsageSummary {
    UsageSummary { upload, download, total, expire }
}

#[test]
fn aggregate_sums_what_is_present() {
    let sources = vec![usage(Some(10), None, None, None), usage(Some(5), Some(20), None, None)];
    let sum = aggregate(&sources);
    assert_eq!(sum.upload, Some(15));
    assert_eq!(sum.download, Some(20));
    assert_eq!(sum.total, None);
    assert_eq!(sum.expire, None);
}

#[test]
fn aggregate_takes_the_earliest_expiry() {
    let sources = vec![usage(None, None, None, Some(100)), usage(None, None, None, Some(50))];
    assert_eq!(aggregate(&sources).expire, Some(50));
    let sources = vec![
        usage(None, None, None, None),
        usage(None, None, None, Some(70)),
        usage(None, None, None, None),
        usage(None, None, None, Some(90)),
    ];
    assert_eq!(aggregate(&sources).expire, Some(70));
}

#[test]
fn aggregate_of_nothing_is_absent() {
    assert_eq!(aggregate(&vec![]), usage(None, None, None, None));
    let sources = vec![usage(None, None, None, None), usage(None, None, None, None)];
    assert_eq!(aggregate(&sources), usage(None, None, None, None));
}

#[test]
fn aggregate_keeps_fields_apart() {
    let sources = vec![usage(Some(1), Some(2), Some(3), Some(4)), usage(Some(10), Some(20), Some(30), Some(40))];
    assert_eq!(aggregate(&sources), usage(Some(11), Some(22), Some(33), Some(4)));
}

#[test]
fn checked_aggregate_refuses_a_sum_out_of_range() {
    let sources = vec![usage(Some(i64::MAX), None, None, None), usage(Some(1), None, None, None)];
    assert_eq!(checked_aggregate(&sources), None);
    let sources = vec![
        usage(Some(i64::MAX), None, None, None),
        usage(Some(1), None, None, None),
        usage(Some(-1), None, None, None),
    ];
    assert_eq!(checked_aggregate(&sources), Some(usage(Some(i64::MAX), None, None, None)));
    let sources = vec![usage(None, Some(i64::MIN), None, None), usage(None, Some(-1), None, None)];
    assert_eq!(checked_aggregate(&sources), None);
}

#[test]
fn fetched_figures_replace_stored_ones() {
    let stored = usage(Some(1), Some(2), None, Some(4));
    let fetched = usage(Some(10), None, Some(30), None);
    assert_eq!(stored.updated_with(&fetched), usage(Some(10), Some(2), Some(30), Some(4)));
    assert_eq!(stored.updated_with(&usage(None, None, None, None)), stored);
}
