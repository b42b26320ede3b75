use harvest::aggregate::AggregatedColl;
use harvest::discover::{discover_assets, DocRef, Payload, RecordItem};

fn item(app_num: Option<&str>, docs: Option<Vec<DocRef>>) -> RecordItem {
    RecordItem {
        raw: serde_json::Value::Null,
        application_num: app_num.map(String::from),
        documents: docs,
    }
}

fn doc(url: Option<&str>, file_name: Option<&str>) -> DocRef {
    DocRef { url: url.map(String::from), file_name: file_name.map(String::from) }
}

#[test]
fn no_matching_structures_yield_no_assets() {
    let mut coll: AggregatedColl<Payload> = AggregatedColl::new();
    let payload = Payload {
        count: 3,
        items: vec![
            item(None, None),
            item(Some("T1"), None),
            item(None, Some(vec![doc(Some("http://x/a"), Some("a.jpg"))])),
        ],
    };
    coll.insert(String::from("2024-01-01"), payload);
    let assets = discover_assets(&coll);
    assert!(assets.is_empty());
}

#[test]
fn ragged_documents_contribute_only_complete_ones() {
    let mut coll: AggregatedColl<Payload> = AggregatedColl::new();
    let payload = Payload {
        count: 1,
        items: vec![item(
            Some("T1234567A"),
            Some(vec![
                doc(Some("http://x/a"), Some("a.jpg")),
                doc(None, Some("b.jpg")),
                doc(Some("http://x/c"), None),
                doc(Some("http://x/d"), Some("d.jpg")),
            ]),
        )],
    };
    coll.insert(String::from("2024-01-01"), payload);
    let assets = discover_assets(&coll);
    assert_eq!(assets.len(), 2);
    assert_eq!(assets[0].url, "http://x/a");
    assert_eq!(assets[0].owner_key, "T1234567A");
    assert_eq!(assets[0].file_name, "a.jpg");
    assert_eq!(assets[1].url, "http://x/d");
    assert_eq!(assets[1].file_name, "d.jpg");
}

#[test]
fn assets_gathered_across_entries() {
    let mut coll: AggregatedColl<Payload> = AggregatedColl::new();
    coll.insert(
        String::from("2024-01-01"),
        Payload {
            count: 1,
            items: vec![item(Some("A"), Some(vec![doc(Some("u1"), Some("f1"))]))],
        },
    );
    coll.insert(
        String::from("2024-01-02"),
        Payload {
            count: 1,
            items: vec![item(Some("B"), Some(vec![doc(Some("u2"), Some("f2"))]))],
        },
    );
    let assets = discover_assets(&coll);
    assert_eq!(assets.len(), 2);
    assert_eq!(assets[0].owner_key, "A");
    assert_eq!(assets[1].owner_key, "B");
}
