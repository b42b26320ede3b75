use harvest::aggregate::AggregatedColl;
use harvest::outcome::UnitOutcome;

fn success(key: &str, payload: u32) -> UnitOutcome<u32> {
    UnitOutcome::Success { key: String::from(key), payload }
}

fn failure(key: &str, reason: &str) -> UnitOutcome<u32> {
    UnitOutcome::Failure { key: String::from(key), reason: String::from(reason) }
}

#[test]
fn success_keys_only() {
    let mut coll: AggregatedColl<u32> = AggregatedColl::new();
    coll.merge_batch(vec![success("a", 1), failure("b", "HTTP error: 500"), success("c", 3)]);
    assert_eq!(coll.len(), 2);
    assert_eq!(coll.get(&String::from("a")), Some(&1));
    assert_eq!(coll.get(&String::from("b")), None);
    assert_eq!(coll.get(&String::from("c")), Some(&3));
}

#[test]
fn failures_leave_no_trace_across_batches() {
    let mut coll: AggregatedColl<u32> = AggregatedColl::new();
    coll.merge_batch(vec![failure("k", "Request error: timed out")]);
    coll.merge_batch(vec![failure("k", "HTTP error: 503")]);
    assert_eq!(coll.len(), 0);
    assert_eq!(coll.get(&String::from("k")), None);
}

#[test]
fn aggregation_overwrite_same_batch() {
    let mut coll: AggregatedColl<u32> = AggregatedColl::new();
    coll.merge_batch(vec![success("K", 10), success("K", 20)]);
    assert_eq!(coll.len(), 1);
    assert_eq!(coll.get(&String::from("K")), Some(&20));
}

#[test]
fn aggregation_overwrite_across_batches() {
    let mut coll: AggregatedColl<u32> = AggregatedColl::new();
    coll.merge_batch(vec![success("K", 10)]);
    coll.merge_batch(vec![success("K", 20)]);
    assert_eq!(coll.len(), 1);
    assert_eq!(coll.get(&String::from("K")), Some(&20));
}

#[test]
fn overwrite_by_direct_insert() {
    let mut coll: AggregatedColl<u32> = AggregatedColl::new();
    coll.insert(String::from("K"), 1);
    coll.insert(String::from("K"), 2);
    assert_eq!(coll.len(), 1);
    assert_eq!(coll.get(&String::from("K")), Some(&2));
}

#[test]
fn entries_keep_first_insertion_order_for_fresh_keys() {
    let mut coll: AggregatedColl<u32> = AggregatedColl::new();
    coll.insert(String::from("x"), 1);
    coll.insert(String::from("y"), 2);
    coll.insert(String::from("z"), 3);
    let keys: Vec<&String> = coll.entries().iter().map(|e| &e.key).collect();
    assert_eq!(keys, vec!["x", "y", "z"]);
}
