use just_the_exif::batch::process_file;
use just_the_exif::extract::{build_field_map, get_exif, ExtractionError};
use just_the_exif::field_map::FieldMap;
use just_the_exif::value::TypedValue;

fn raw(pairs: &[(&str, &str)]) -> Vec<(String, String)> {
    pairs.iter().map(|(k, v)| (k.to_string(), v.to_string())).collect()
}

fn key(s: &str) -> String {
    s.to_string()
}

/// A little-endian TIFF whose primary image has `Make` set to "Canon" and
/// whose Exif directory has a photographic sensitivity of 400.
fn tiff_bytes() -> Vec<u8> {
    let mut b: Vec<u8> = vec![b'I', b'I', 42, 0, 8, 0, 0, 0];
    // Primary directory at 8: two entries, then no next directory.
    b.extend_from_slice(&[2, 0]);
    b.extend_from_slice(&[0x0f, 0x01, 2, 0, 6, 0, 0, 0, 38, 0, 0, 0]);
    b.extend_from_slice(&[0x69, 0x87, 4, 0, 1, 0, 0, 0, 44, 0, 0, 0]);
    b.extend_from_slice(&[0, 0, 0, 0]);
    b.extend_from_slice(b"Canon\0");
    // Exif directory at 44: one entry.
    b.extend_from_slice(&[1, 0]);
    b.extend_from_slice(&[0x27, 0x88, 3, 0, 1, 0, 0, 0, 0x90, 0x01, 0, 0]);
    b.extend_from_slice(&[0, 0, 0, 0]);
    b
}

#[test]
fn field_map_from_rendered_fields() {
    let m = build_field_map(&raw(&[("Make", "Canon"), ("ISOSpeedRatings", "400")]));
    assert_eq!(m.entries().len(), 2);
    assert_eq!(m.get(&key("Make")), Some(&TypedValue::Text("Canon".to_string())));
    assert_eq!(m.get(&key("ISOSpeedRatings")), Some(&TypedValue::Integer(400)));
    assert_eq!(m.get(&key("Model")), None);
}

#[test]
fn duplicate_tag_last_write_wins() {
    let m = build_field_map(&raw(&[
        ("XResolution", "72"),
        ("Make", "Canon"),
        ("XResolution", "300.5"),
    ]));
    assert_eq!(m.entries().len(), 2);
    assert_eq!(m.get(&key("XResolution")), Some(&TypedValue::Float("300.5".to_string())));
    assert_eq!(m.get(&key("Make")), Some(&TypedValue::Text("Canon".to_string())));
}

#[test]
fn empty_fields_give_empty_map() {
    let m = build_field_map(&Vec::new());
    assert!(m.entries().is_empty());
}

#[test]
fn insert_overwrites_in_place() {
    let mut m = FieldMap::new();
    m.insert(key("A"), TypedValue::Integer(1));
    m.insert(key("B"), TypedValue::Integer(2));
    m.insert(key("A"), TypedValue::Text("x".to_string()));
    let e = m.entries();
    assert_eq!(e.len(), 2);
    assert_eq!(e[0], (key("A"), TypedValue::Text("x".to_string())));
    assert_eq!(e[1], (key("B"), TypedValue::Integer(2)));
}

#[test]
fn decode_tiff_fields() {
    let m = get_exif(&tiff_bytes()).unwrap();
    assert_eq!(m.get(&key("Make")), Some(&TypedValue::Text("\"Canon\"".to_string())));
    assert_eq!(m.get(&key("PhotographicSensitivity")), Some(&TypedValue::Integer(400)));
}

#[test]
fn no_container_is_decode_error() {
    assert_eq!(get_exif(&[]).unwrap_err(), ExtractionError::Decode);
    assert_eq!(get_exif(b"just some text, no image").unwrap_err(), ExtractionError::Decode);
}

#[test]
fn truncated_tiff_is_decode_error() {
    let b = tiff_bytes();
    assert_eq!(get_exif(&b[..20]).unwrap_err(), ExtractionError::Decode);
}

#[test]
fn unreadable_file_is_skipped() {
    assert_eq!(process_file(None).unwrap_err(), ExtractionError::Unreadable);
}

#[test]
fn batch_isolation_one_bad_file() {
    for bad in 0..3 {
        let mut files: Vec<Option<Vec<u8>>> = vec![Some(tiff_bytes()), Some(tiff_bytes()), Some(tiff_bytes())];
        files[bad] = Some(b"corrupt".to_vec());
        let out: Vec<FieldMap> = files.into_iter().filter_map(|f| process_file(f).ok()).collect();
        assert_eq!(out.len(), 2);
    }
}

#[test]
fn batch_order_does_not_change_outputs() {
    let files = vec![Some(tiff_bytes()), None, Some(b"x".to_vec())];
    let forward: Vec<FieldMap> = files.clone().into_iter().filter_map(|f| process_file(f).ok()).collect();
    let backward: Vec<FieldMap> = files.into_iter().rev().filter_map(|f| process_file(f).ok()).collect();
    assert_eq!(forward.len(), 1);
    assert_eq!(backward.len(), 1);
    assert_eq!(forward[0].entries(), backward[0].entries());
}

#[test]
fn end_to_end_three_files() {
    let files = vec![Some(tiff_bytes()), Some(b"no metadata here".to_vec()), None];
    let out: Vec<FieldMap> = files.into_iter().filter_map(|f| process_file(f).ok()).collect();
    assert_eq!(out.len(), 1);
    assert_eq!(out[0].get(&key("PhotographicSensitivity")), Some(&TypedValue::Integer(400)));
    let m = build_field_map(&raw(&[("Make", "Canon"), ("ISOSpeedRatings", "400")]));
    assert_eq!(m.entries().len(), 2);
    assert_eq!(m.get(&key("Make")), Some(&TypedValue::Text("Canon".to_string())));
    assert_eq!(m.get(&key("ISOSpeedRatings")), Some(&TypedValue::Integer(400)));
}
