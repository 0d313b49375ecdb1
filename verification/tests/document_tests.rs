use nuke_desktop::documents::scan_directory;
use nuke_desktop::scan::FileEntry;
use nuke_desktop::spreadsheet::pair_columns;
use nuke_desktop::vision::extract_json_object;

fn entry(name: &str, modified: &str, is_file: bool) -> FileEntry {
    FileEntry {
        path: format!("/docs/{}", name),
        name: name.to_string(),
        components: vec![name.to_string()],
        is_file,
        size: 5,
        modified: modified.to_string(),
    }
}

#[test]
fn documents_sorted_newest_first() {
    let entries = vec![
        entry("a.jpg", "100", true),
        entry("b.pdf", "300", true),
        entry("c.png", "200", true),
    ];
    let docs = scan_directory(&entries);
    assert_eq!(docs.len(), 3);
    assert_eq!(docs[0].filename, "b.pdf".to_string());
    assert_eq!(docs[1].filename, "c.png".to_string());
    assert_eq!(docs[2].filename, "a.jpg".to_string());
    assert_eq!(docs[0].file_type, "pdf".to_string());
    assert_eq!(docs[1].file_type, "image".to_string());
}

#[test]
fn equal_stamps_keep_walk_order() {
    let entries = vec![
        entry("first.jpg", "200", true),
        entry("second.jpg", "200", true),
        entry("third.jpg", "300", true),
    ];
    let docs = scan_directory(&entries);
    assert_eq!(docs[0].filename, "third.jpg".to_string());
    assert_eq!(docs[1].filename, "first.jpg".to_string());
    assert_eq!(docs[2].filename, "second.jpg".to_string());
}

#[test]
fn document_walk_filters_extensions() {
    let entries = vec![
        entry("a.txt", "100", true),
        entry("b.HEIC", "100", true),
        entry("dir.jpg", "100", false),
        entry("c.xlsx", "100", true),
    ];
    let docs = scan_directory(&entries);
    assert_eq!(docs.len(), 1);
    assert_eq!(docs[0].filename, "b.HEIC".to_string());
    assert_eq!(docs[0].file_type, "image".to_string());
}

#[test]
fn json_object_is_cut_out() {
    assert_eq!(
        extract_json_object("The data: {\"vin\": null} as requested."),
        "{\"vin\": null}".to_string()
    );
    assert_eq!(extract_json_object("{}"), "{}".to_string());
    assert_eq!(extract_json_object("no braces at all"), "no braces at all".to_string());
    assert_eq!(extract_json_object("} then {"), "".to_string());
    assert_eq!(
        extract_json_object("{\"a\": {\"b\": 1}} tail"),
        "{\"a\": {\"b\": 1}}".to_string()
    );
}

#[test]
fn rows_pair_headers_with_fields() {
    let headers = vec!["vin".to_string(), "year".to_string(), "make".to_string()];
    let fields = vec!["1G1YY22G965109876".to_string(), "1969".to_string()];
    let pairs = pair_columns(&headers, &fields);
    assert_eq!(pairs.len(), 2);
    assert_eq!(pairs[0], ("vin".to_string(), "1G1YY22G965109876".to_string()));
    assert_eq!(pairs[1], ("year".to_string(), "1969".to_string()));
}
