use nuke_desktop::extract::{extract_vehicle_hints, normalize_make};

#[test]
fn corvette_vin_path() {
    let hint = extract_vehicle_hints("/photos/1969_Corvette_1G1YY22G965109876.jpg").unwrap();
    // "1969" is followed by an underscore, a word character, so no year token.
    assert_eq!(hint.year, None);
    // "corvette" is a model token, not a make token.
    assert_eq!(hint.make, None);
    assert_eq!(hint.model, Some("CORVETTE".to_string()));
    assert_eq!(hint.vin, Some("1G1YY22G965109876".to_string()));
    assert_eq!(hint.confidence, 8);
    assert_eq!(hint.source, "filename".to_string());
}

#[test]
fn extraction_is_deterministic() {
    let path = "/cars/2015 Ford Mustang.jpg";
    let a = extract_vehicle_hints(path).unwrap();
    let b = extract_vehicle_hints(path).unwrap();
    assert_eq!(a.year, b.year);
    assert_eq!(a.make, b.make);
    assert_eq!(a.model, b.model);
    assert_eq!(a.vin, b.vin);
    assert_eq!(a.confidence, b.confidence);
    assert_eq!(a.source, b.source);
}

#[test]
fn year_make_model_weights() {
    let hint = extract_vehicle_hints("/cars/2015 Ford Mustang.jpg").unwrap();
    assert_eq!(hint.year, Some("2015".to_string()));
    assert_eq!(hint.make, Some("Ford".to_string()));
    assert_eq!(hint.model, Some("MUSTANG".to_string()));
    assert_eq!(hint.vin, None);
    assert_eq!(hint.confidence, 9);
}

#[test]
fn vin_rejects_excluded_letters() {
    // A 17-character token holding an O is not VIN-shaped.
    let r = extract_vehicle_hints("x/1G1YY22GO65109876.bin");
    assert!(r.is_none());
}

#[test]
fn vin_needs_separators() {
    // Glued to a word character on the left, the token is not matched.
    let r = extract_vehicle_hints("x/a1G1YY22G965109876.bin");
    assert!(r.is_none());
}

#[test]
fn year_outside_range_rejected() {
    assert!(extract_vehicle_hints("shot 1899.bin").is_none());
    assert!(extract_vehicle_hints("shot 2040.bin").is_none());
    let h = extract_vehicle_hints("shot 2039.bin").unwrap();
    assert_eq!(h.year, Some("2039".to_string()));
    assert_eq!(h.confidence, 3);
}

#[test]
fn year_embedded_in_word_rejected() {
    assert!(extract_vehicle_hints("car12015x.bin").is_none());
}

#[test]
fn no_signal_yields_no_hint() {
    assert!(extract_vehicle_hints("/tmp/notes.txt").is_none());
}

#[test]
fn make_first_match_wins() {
    // "gmc" stands before "chevy" in the path, but the table order is the
    // tie-break and "chevy" precedes "gmc" there.
    let h = extract_vehicle_hints("gmc_and_chevy.jpg").unwrap();
    assert_eq!(h.make, Some("Chevrolet".to_string()));
}

#[test]
fn directory_names_contribute() {
    let h = extract_vehicle_hints("/archive/1969_camaro/photo1.jpg").unwrap();
    assert_eq!(h.model, Some("CAMARO".to_string()));
}

#[test]
fn normalize_make_special_cases() {
    assert_eq!(normalize_make("chevy"), "Chevrolet".to_string());
    assert_eq!(normalize_make("vw"), "Volkswagen".to_string());
}

#[test]
fn normalize_make_capitalizes() {
    assert_eq!(normalize_make("ford"), "Ford".to_string());
    assert_eq!(normalize_make("subaru"), "Subaru".to_string());
    assert_eq!(normalize_make(""), "".to_string());
    assert_eq!(normalize_make("Audi"), "Audi".to_string());
    assert_eq!(normalize_make("4wd"), "4wd".to_string());
}
