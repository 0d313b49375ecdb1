use nuke_desktop::extract::VehicleHint;
use nuke_desktop::scan::ScanResult;
use nuke_desktop::sync::{
    plan_sync_batches, sync_report, queue_indices, count_successes,
};

fn hinted_result(name: &str) -> ScanResult {
    ScanResult {
        path: format!("/data/{}", name),
        filename: name.to_string(),
        file_type: "jpg".to_string(),
        category: "image".to_string(),
        size: 1,
        modified: "1700000000".to_string(),
        potential_vehicle: Some(VehicleHint {
            year: Some("1969".to_string()),
            make: None,
            model: Some("CORVETTE".to_string()),
            vin: Some("1G1YY22G965109876".to_string()),
            confidence: 8,
            source: "filename".to_string(),
        }),
    }
}

fn plain_result(name: &str) -> ScanResult {
    ScanResult {
        path: format!("/data/{}", name),
        filename: name.to_string(),
        file_type: "jpg".to_string(),
        category: "image".to_string(),
        size: 1,
        modified: "1700000000".to_string(),
        potential_vehicle: None,
    }
}

#[test]
fn seven_items_batch_three() {
    let files: Vec<ScanResult> = (0..7).map(|i| hinted_result(&format!("car{}.jpg", i))).collect();
    let chunks = plan_sync_batches(&files, 3);
    assert_eq!(chunks.len(), 3);
    assert_eq!(chunks[0].len(), 3);
    assert_eq!(chunks[1].len(), 3);
    assert_eq!(chunks[2].len(), 1);

    let outcomes = vec![None, Some("Batch failed: 500".to_string()), None];
    let report = sync_report(&chunks, &outcomes);
    assert_eq!(report.synced, 4);
    assert_eq!(report.failed, 3);
    assert_eq!(report.errors.len(), 1);
    assert_eq!(report.errors[0], "Batch failed: 500".to_string());
}

#[test]
fn unhinted_items_never_in_payload() {
    let files = vec![
        plain_result("a.jpg"),
        plain_result("b.jpg"),
        plain_result("c.jpg"),
        hinted_result("d.jpg"),
    ];
    let chunks = plan_sync_batches(&files, 3);
    // The first chunk holds no hinted item, so it is dropped whole.
    assert_eq!(chunks.len(), 1);
    assert_eq!(chunks[0].len(), 1);
    assert_eq!(chunks[0][0].description, "Imported from d.jpg".to_string());
}

#[test]
fn all_unhinted_yields_no_chunks() {
    let files = vec![plain_result("a.jpg"), plain_result("b.jpg")];
    let chunks = plan_sync_batches(&files, 2);
    assert_eq!(chunks.len(), 0);
    let report = sync_report(&chunks, &vec![]);
    assert_eq!(report.synced, 0);
    assert_eq!(report.failed, 0);
    assert_eq!(report.errors.len(), 0);
}

#[test]
fn mixed_chunk_keeps_only_hinted() {
    let files = vec![
        hinted_result("a.jpg"),
        plain_result("b.jpg"),
        hinted_result("c.jpg"),
    ];
    let chunks = plan_sync_batches(&files, 3);
    assert_eq!(chunks.len(), 1);
    assert_eq!(chunks[0].len(), 2);
    assert_eq!(chunks[0][0].description, "Imported from a.jpg".to_string());
    assert_eq!(chunks[0][1].description, "Imported from c.jpg".to_string());
}

#[test]
fn record_carries_hint_fields() {
    let files = vec![hinted_result("car.jpg")];
    let chunks = plan_sync_batches(&files, 5);
    let r = &chunks[0][0];
    assert_eq!(r.year, Some("1969".to_string()));
    assert_eq!(r.make, None);
    assert_eq!(r.model, Some("CORVETTE".to_string()));
    assert_eq!(r.vin, Some("1G1YY22G965109876".to_string()));
    assert_eq!(r.description, "Imported from car.jpg".to_string());
}

#[test]
fn failures_accumulate_in_order() {
    let files: Vec<ScanResult> = (0..4).map(|i| hinted_result(&format!("car{}.jpg", i))).collect();
    let chunks = plan_sync_batches(&files, 2);
    assert_eq!(chunks.len(), 2);
    let outcomes = vec![
        Some("Request error: timed out".to_string()),
        Some("Batch failed: 503".to_string()),
    ];
    let report = sync_report(&chunks, &outcomes);
    assert_eq!(report.synced, 0);
    assert_eq!(report.failed, 4);
    assert_eq!(
        report.errors,
        vec![
            "Request error: timed out".to_string(),
            "Batch failed: 503".to_string(),
        ]
    );
}

#[test]
fn queue_keeps_vin_carriers() {
    let vins = vec![
        Some("1G1YY22G965109876".to_string()),
        None,
        Some("2G1YY22G965109876".to_string()),
        None,
    ];
    assert_eq!(queue_indices(&vins), vec![0, 2]);
}

#[test]
fn successes_are_counted() {
    assert_eq!(count_successes(&vec![true, false, true, true]), 3);
    assert_eq!(count_successes(&vec![]), 0);
}
