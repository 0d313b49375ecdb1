use nuke_desktop::category::{Category, file_category, category_name};
use nuke_desktop::scan::{ScanConfig, FileEntry, scan_directories};

fn config_all() -> ScanConfig {
    ScanConfig {
        paths: vec!["/data".to_string()],
        include_hidden: false,
        max_depth: None,
        include_images: true,
        include_documents: true,
        include_spreadsheets: true,
    }
}

fn entry(path: &str, name: &str, components: Vec<&str>, is_file: bool) -> FileEntry {
    FileEntry {
        path: path.to_string(),
        name: name.to_string(),
        components: components.into_iter().map(|c| c.to_string()).collect(),
        is_file,
        size: 10,
        modified: "1700000000".to_string(),
    }
}

#[test]
fn extension_matching_is_case_insensitive() {
    let entries = vec![
        entry("/data/IMAGE.JPG", "IMAGE.JPG", vec!["IMAGE.JPG"], true),
        entry("/data/image.jpg", "image.jpg", vec!["image.jpg"], true),
    ];
    let results = scan_directories(&config_all(), &entries);
    assert_eq!(results.len(), 2);
    assert_eq!(results[0].category, "image".to_string());
    assert_eq!(results[1].category, "image".to_string());
    assert_eq!(results[0].file_type, "jpg".to_string());
    assert_eq!(results[1].file_type, "jpg".to_string());
}

#[test]
fn hidden_files_and_hidden_directories_excluded() {
    let entries = vec![
        entry("/data/.shot.jpg", ".shot.jpg", vec![".shot.jpg"], true),
        entry("/data/.old/shot.jpg", "shot.jpg", vec![".old", "shot.jpg"], true),
        entry("/data/open/shot.jpg", "shot.jpg", vec!["open", "shot.jpg"], true),
    ];
    let results = scan_directories(&config_all(), &entries);
    assert_eq!(results.len(), 1);
    assert_eq!(results[0].path, "/data/open/shot.jpg".to_string());

    let mut with_hidden = config_all();
    with_hidden.include_hidden = true;
    let results = scan_directories(&with_hidden, &entries);
    assert_eq!(results.len(), 3);
}

#[test]
fn depth_bound_applies() {
    let deep: Vec<&str> = vec![
        "a", "b", "c", "d", "e", "f", "g", "h", "i", "j", "shot.jpg",
    ];
    let entries = vec![
        entry("/data/shallow.jpg", "shallow.jpg", vec!["shallow.jpg"], true),
        entry("/data/a/.../shot.jpg", "shot.jpg", deep, true),
    ];
    let results = scan_directories(&config_all(), &entries);
    // The default bound is ten levels; the second entry sits at eleven.
    assert_eq!(results.len(), 1);

    let mut deeper = config_all();
    deeper.max_depth = Some(11);
    assert_eq!(scan_directories(&deeper, &entries).len(), 2);

    let mut shallow = config_all();
    shallow.max_depth = Some(0);
    assert_eq!(scan_directories(&shallow, &entries).len(), 0);
}

#[test]
fn category_flags_select() {
    let entries = vec![
        entry("/data/a.jpg", "a.jpg", vec!["a.jpg"], true),
        entry("/data/b.pdf", "b.pdf", vec!["b.pdf"], true),
        entry("/data/c.csv", "c.csv", vec!["c.csv"], true),
    ];
    let mut only_sheets = config_all();
    only_sheets.include_images = false;
    only_sheets.include_documents = false;
    let results = scan_directories(&only_sheets, &entries);
    assert_eq!(results.len(), 1);
    assert_eq!(results[0].category, "spreadsheet".to_string());
    assert_eq!(results[0].filename, "c.csv".to_string());
}

#[test]
fn unknown_extensions_always_excluded() {
    let entries = vec![
        entry("/data/a.xyz", "a.xyz", vec!["a.xyz"], true),
        entry("/data/noext", "noext", vec!["noext"], true),
        entry("/data/.bashrc", ".bashrc", vec![".bashrc"], true),
    ];
    let mut with_hidden = config_all();
    with_hidden.include_hidden = true;
    assert_eq!(scan_directories(&with_hidden, &entries).len(), 0);
}

#[test]
fn directories_are_skipped() {
    let entries = vec![entry("/data/album.jpg", "album.jpg", vec!["album.jpg"], false)];
    assert_eq!(scan_directories(&config_all(), &entries).len(), 0);
}

#[test]
fn rescan_of_unchanged_entries_is_identical() {
    let entries = vec![
        entry("/data/2015 Mustang.jpg", "2015 Mustang.jpg", vec!["2015 Mustang.jpg"], true),
        entry("/data/b.pdf", "b.pdf", vec!["b.pdf"], true),
    ];
    let first = scan_directories(&config_all(), &entries);
    let second = scan_directories(&config_all(), &entries);
    assert_eq!(first.len(), second.len());
    for (a, b) in first.iter().zip(second.iter()) {
        assert_eq!(a.path, b.path);
        assert_eq!(a.filename, b.filename);
        assert_eq!(a.file_type, b.file_type);
        assert_eq!(a.category, b.category);
        assert_eq!(a.size, b.size);
        assert_eq!(a.modified, b.modified);
        let ha = a.potential_vehicle.as_ref();
        let hb = b.potential_vehicle.as_ref();
        assert_eq!(ha.is_some(), hb.is_some());
        if let (Some(x), Some(y)) = (ha, hb) {
            assert_eq!(x.year, y.year);
            assert_eq!(x.make, y.make);
            assert_eq!(x.model, y.model);
            assert_eq!(x.vin, y.vin);
            assert_eq!(x.confidence, y.confidence);
        }
    }
}

#[test]
fn file_category_reads_the_extension() {
    let name: Vec<char> = "Receipt.PDF".chars().collect();
    let cat = file_category(&name);
    assert!(matches!(cat, Category::Document));
    assert_eq!(category_name(cat), "document".to_string());

    let plain: Vec<char> = "archive.tar.xls".chars().collect();
    assert!(matches!(file_category(&plain), Category::Spreadsheet));

    let dotfile: Vec<char> = ".jpg".chars().collect();
    assert!(matches!(file_category(&dotfile), Category::Unknown));
}

#[test]
fn scan_attaches_hints() {
    let entries = vec![entry(
        "/data/1969_Corvette_1G1YY22G965109876.jpg",
        "1969_Corvette_1G1YY22G965109876.jpg",
        vec!["1969_Corvette_1G1YY22G965109876.jpg"],
        true,
    )];
    let results = scan_directories(&config_all(), &entries);
    assert_eq!(results.len(), 1);
    let hint = results[0].potential_vehicle.as_ref().unwrap();
    assert_eq!(hint.model, Some("CORVETTE".to_string()));
    assert_eq!(hint.vin, Some("1G1YY22G965109876".to_string()));
    assert_eq!(hint.confidence, 8);
}
