use harvest::download::{target_name, DownloadLedger};

#[test]
fn download_idempotent() {
    let owner = String::from("T1234567A");
    let file = String::from("mark.jpg");
    let mut ledger = DownloadLedger::new();

    let mut transfers: u32 = 0;
    // First unit: fresh key, nothing on disk — one transfer.
    if ledger.should_transfer(&owner, &file, false) {
        transfers += 1;
        ledger.record_satisfied(owner.clone(), file.clone());
    }
    // Second unit for the same key: a no-op, whatever the disk check says.
    if ledger.should_transfer(&owner, &file, false) {
        transfers += 1;
        ledger.record_satisfied(owner.clone(), file.clone());
    }
    assert_eq!(transfers, 1);
    assert!(ledger.is_satisfied(&owner, &file));
}

#[test]
fn present_on_disk_is_skipped_without_transfer() {
    let ledger = DownloadLedger::new();
    assert!(!ledger.should_transfer(&String::from("A"), &String::from("f"), true));
}

#[test]
fn distinct_keys_transfer_independently() {
    let mut ledger = DownloadLedger::new();
    ledger.record_satisfied(String::from("A"), String::from("f1"));
    assert!(!ledger.should_transfer(&String::from("A"), &String::from("f1"), false));
    assert!(ledger.should_transfer(&String::from("A"), &String::from("f2"), false));
    assert!(ledger.should_transfer(&String::from("B"), &String::from("f1"), false));
}

#[test]
fn deterministic_target_name() {
    assert_eq!(target_name("T1234567A", "mark.jpg"), "T1234567A_mark.jpg");
}
