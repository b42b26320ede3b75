use harvest::dataset::{plan_processing, select_entries, DatasetEntry};

fn entry(name: &str, label: Option<&str>, present: bool) -> DatasetEntry {
    DatasetEntry {
        image_name: String::from(name),
        label: label.map(String::from),
        image_present: present,
    }
}

fn names(entries: &[DatasetEntry]) -> Vec<String> {
    entries.iter().map(|e| e.image_name.clone()).collect()
}

#[test]
fn selection_skips_missing_label_and_missing_resource() {
    let data = vec![
        entry("a.png", Some("A"), true),
        entry("b.png", None, true),
        entry("c.png", Some("C"), false),
        entry("d.png", Some("D"), true),
    ];
    let kept = select_entries(&data);
    assert_eq!(names(&kept), vec!["a.png", "d.png"]);
}

#[test]
fn shuffle_reproducible() {
    let data: Vec<DatasetEntry> = (0..50)
        .map(|i| entry(&format!("img{i}.png"), Some("x"), true))
        .collect();
    let run1 = plan_processing(&data, 42, 50);
    let run2 = plan_processing(&data, 42, 50);
    assert_eq!(names(&run1), names(&run2));
}

#[test]
fn shuffle_is_a_permutation() {
    let data: Vec<DatasetEntry> = (0..20)
        .map(|i| entry(&format!("img{i}.png"), Some("x"), true))
        .collect();
    let planned = plan_processing(&data, 7, 20);
    let mut got = names(&planned);
    let mut expected = names(&data);
    got.sort();
    expected.sort();
    assert_eq!(got, expected);
}

#[test]
fn cap_truncates_after_the_shuffle() {
    let data: Vec<DatasetEntry> = (0..10)
        .map(|i| entry(&format!("img{i}.png"), Some("x"), true))
        .collect();
    let full = plan_processing(&data, 3, 10);
    let capped = plan_processing(&data, 3, 4);
    assert_eq!(capped.len(), 4);
    assert_eq!(names(&capped), names(&full)[..4].to_vec());
}

#[test]
fn cap_larger_than_dataset_takes_everything() {
    let data = vec![entry("only.png", Some("x"), true)];
    let planned = plan_processing(&data, 9, 10000);
    assert_eq!(planned.len(), 1);
    assert_eq!(planned[0].image_name, "only.png");
    assert_eq!(planned[0].label.as_deref(), Some("x"));
}
