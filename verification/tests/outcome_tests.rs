use harvest::aggregate::AggregatedColl;
use harvest::batch::{batch_bounds, RunTally};
use harvest::date::{date_string, enumerate_dates, Date};
use harvest::outcome::{classify_unit, fetch_url, UnitEvent, UnitOutcome};
use harvest::discover::{discover_assets, Payload, RecordItem};

fn reason_of(outcome: &UnitOutcome<u32>) -> &str {
    match outcome {
        UnitOutcome::Failure { reason, .. } => reason.as_str(),
        UnitOutcome::Success { .. } => panic!("expected a failure"),
    }
}

#[test]
fn decoded_payload_classifies_as_success() {
    let outcome = classify_unit(String::from("k"), UnitEvent::Decoded { payload: 7u32 });
    match outcome {
        UnitOutcome::Success { key, payload } => {
            assert_eq!(key, "k");
            assert_eq!(payload, 7);
        },
        UnitOutcome::Failure { .. } => panic!("expected a success"),
    }
}

#[test]
fn transport_error_reason() {
    let outcome: UnitOutcome<u32> = classify_unit(
        String::from("k"),
        UnitEvent::TransportError { detail: String::from("connection refused") },
    );
    assert_eq!(reason_of(&outcome), "Request error: connection refused");
}

#[test]
fn protocol_error_reason() {
    let outcome: UnitOutcome<u32> =
        classify_unit(String::from("k"), UnitEvent::NonSuccessStatus { code: 500 });
    assert_eq!(reason_of(&outcome), "HTTP error: 500");
}

#[test]
fn decode_error_reason() {
    let outcome: UnitOutcome<u32> = classify_unit(
        String::from("k"),
        UnitEvent::DecodeError { detail: String::from("missing field") },
    );
    assert_eq!(reason_of(&outcome), "Error parsing JSON: missing field");
}

#[test]
fn fetch_url_carries_the_date_filter() {
    let url = fetch_url(&Date { year: 2024, month: 1, day: 1 });
    assert_eq!(
        url,
        "https://api.data.gov.sg/v1/technology/ipos/trademarks?lodgement_date=2024-01-01"
    );
}

#[test]
fn end_to_end_one_success_one_failure() {
    // Request specification: start 2024-01-01, end 2024-01-02, cap 2, against
    // a stub endpoint that decodes for the first date and answers 500 for the
    // second.
    let start = Date { year: 2024, month: 1, day: 1 };
    let end = Date { year: 2024, month: 1, day: 2 };
    let units = enumerate_dates(&start, &end, 1);
    assert_eq!(units.len(), 2);
    let bounds = batch_bounds(units.len(), 2);
    assert_eq!(bounds.len(), 1);

    let mut coll: AggregatedColl<Payload> = AggregatedColl::new();
    let mut tally = RunTally::new();
    for (bstart, bend) in bounds {
        let mut outcomes: Vec<harvest::outcome::UnitOutcome<Payload>> = Vec::new();
        for unit in &units[bstart..bend] {
            let key = date_string(unit);
            let event = if key == "2024-01-01" {
                UnitEvent::Decoded {
                    payload: Payload {
                        count: 1,
                        items: vec![RecordItem {
                            raw: serde_json::Value::Null,
                            application_num: None,
                            documents: None,
                        }],
                    },
                }
            } else {
                UnitEvent::NonSuccessStatus { code: 500 }
            };
            outcomes.push(classify_unit(key, event));
        }
        match &outcomes[1] {
            UnitOutcome::Failure { key, reason } => {
                assert_eq!(key, "2024-01-02");
                assert_eq!(reason, "HTTP error: 500");
            },
            UnitOutcome::Success { .. } => panic!("expected the stub's failure"),
        }
        tally.record_batch(&outcomes);
        coll.merge_batch(outcomes);
    }

    // The final artifact holds exactly one entry, for the decoded date.
    assert_eq!(coll.len(), 1);
    let entries = coll.entries();
    assert_eq!(entries[0].key, "2024-01-01");
    assert_eq!(entries[0].payload.count, 1);
    assert!(coll.get(&String::from("2024-01-02")).is_none());
    assert_eq!(tally.attempted, 2);
    assert_eq!(tally.succeeded, 1);

    // The derived download pass finds nothing to do in this payload.
    assert!(discover_assets(&coll).is_empty());
}
