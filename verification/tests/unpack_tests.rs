use nexe_unpacker::dict::{parse_dictionary, Offsets};
use nexe_unpacker::errors::UnpackError;
use nexe_unpacker::extract::{decode_sections, locate_sentinel, slice_entry, unpack};
use nexe_unpacker::ledouble::{double_bits_to_u64, get_float_from_buf};
use nexe_unpacker::paths::sanitize_path;

const MARKER: &[u8] = b"!(function () {process.__nexe = ";
const SENTINEL: &[u8] = b"<nexe~~sentinel>";

fn content_with(json: &str, trailing: &str) -> Vec<u8> {
    let mut c = MARKER.to_vec();
    c.extend_from_slice(json.as_bytes());
    c.extend_from_slice(trailing.as_bytes());
    c
}

fn build_image(content: &[u8], resource: &[u8]) -> Vec<u8> {
    let mut b = content.to_vec();
    b.extend_from_slice(resource);
    b.extend_from_slice(SENTINEL);
    b.extend_from_slice(&(content.len() as f64).to_le_bytes());
    b.extend_from_slice(&(resource.len() as f64).to_le_bytes());
    b
}

#[test]
fn round_trip_two_entries() {
    let json = "{\"resources\":{\"a.txt\":{\"start_offset\":0,\"end_offset\":5},\"b/c.bin\":{\"start_offset\":5,\"end_offset\":3}}}";
    let content = content_with(json, "});\nrest of the bootstrap script");
    let resource = b"hello\x01\x02\x03";
    let image = build_image(&content, resource);
    let plan = unpack(&image).unwrap();
    assert_eq!(plan.len(), 2);
    assert_eq!(plan[0].0, b"a.txt".to_vec());
    assert_eq!(plan[0].1, b"hello".to_vec());
    assert_eq!(plan[1].0, b"b/c.bin".to_vec());
    assert_eq!(plan[1].1, vec![1u8, 2, 3]);
}

#[test]
fn overlapping_entries_extract_independently() {
    let json = "{\"resources\":{\"x\":{\"start_offset\":0,\"end_offset\":6},\"y\":{\"start_offset\":2,\"end_offset\":4}}}";
    let content = content_with(json, ");");
    let resource = b"abcdef";
    let image = build_image(&content, resource);
    let plan = unpack(&image).unwrap();
    assert_eq!(plan.len(), 2);
    assert_eq!(plan[0].1, b"abcdef".to_vec());
    assert_eq!(plan[1].1, b"cdef".to_vec());
}

#[test]
fn insertion_order_is_kept() {
    let json = "{\"resources\":{\"zz\":{\"start_offset\":0,\"end_offset\":1},\"aa\":{\"start_offset\":1,\"end_offset\":1},\"mm\":{\"start_offset\":2,\"end_offset\":1}}}";
    let content = content_with(json, ");");
    let image = build_image(&content, b"xyz");
    let plan = unpack(&image).unwrap();
    let names: Vec<Vec<u8>> = plan.iter().map(|p| p.0.clone()).collect();
    assert_eq!(names, vec![b"zz".to_vec(), b"aa".to_vec(), b"mm".to_vec()]);
}

#[test]
fn path_traversal_token_is_stripped() {
    let json = "{\"resources\":{\"a/../../etc/passwd\":{\"start_offset\":0,\"end_offset\":2}}}";
    let content = content_with(json, ");");
    let image = build_image(&content, b"ok");
    let plan = unpack(&image).unwrap();
    assert_eq!(plan[0].0, b"a/etc/passwd".to_vec());
    let flat = plan[0].0.clone();
    assert!(!flat.windows(3).any(|w| w == b"../"));
}

#[test]
fn sanitize_replaces_backslashes_then_strips_tokens() {
    assert_eq!(sanitize_path(&b"dir\\file.txt".to_vec()), b"dir/file.txt".to_vec());
    assert_eq!(sanitize_path(&b"..\\up.txt".to_vec()), b"up.txt".to_vec());
    assert_eq!(sanitize_path(&b"../../x".to_vec()), b"x".to_vec());
    assert_eq!(sanitize_path(&b"plain/path".to_vec()), b"plain/path".to_vec());
    // Left-to-right single-pass removal can leave a token built from the
    // pieces around a removed one; the sandboxed writer is the real boundary.
    assert_eq!(sanitize_path(&b"....//x".to_vec()), b"../x".to_vec());
}

#[test]
fn missing_sentinel_is_rejected() {
    let image = b"just some bytes, no footer at all".to_vec();
    assert_eq!(unpack(&image), Err(UnpackError::MissingSentinel));
    assert_eq!(locate_sentinel(&image), None);
}

#[test]
fn truncated_metadata_is_rejected() {
    let mut image = b"some content".to_vec();
    image.extend_from_slice(SENTINEL);
    image.extend_from_slice(&[0u8; 10]);
    assert_eq!(unpack(&image), Err(UnpackError::TruncatedMetadata));
}

#[test]
fn oversized_sections_are_rejected() {
    // Sizes that together exceed the space before the sentinel.
    let mut image = b"tiny".to_vec();
    image.extend_from_slice(SENTINEL);
    image.extend_from_slice(&(100.0f64).to_le_bytes());
    image.extend_from_slice(&(100.0f64).to_le_bytes());
    assert_eq!(unpack(&image), Err(UnpackError::SectionBounds));
}

#[test]
fn empty_resources_extracts_nothing() {
    let json = "{\"resources\":{}}";
    let content = content_with(json, ");");
    let image = build_image(&content, b"unused payload");
    assert_eq!(unpack(&image), Ok(vec![]));
}

#[test]
fn section_arithmetic_holds_on_valid_image() {
    let json = "{\"resources\":{}}";
    let content = content_with(json, ");");
    let resource = b"0123456789";
    let image = build_image(&content, resource);
    let sec = decode_sections(&image).unwrap();
    assert_eq!(sec.content_start, 0);
    assert_eq!(sec.content_size, content.len());
    assert_eq!(sec.resource_size, resource.len());
    assert_eq!(
        sec.content_start + sec.content_size + sec.resource_size,
        sec.sentinel_offset
    );
    assert_eq!(sec.sentinel_offset, content.len() + resource.len());
}

#[test]
fn out_of_range_entry_is_rejected() {
    let json = "{\"resources\":{\"a\":{\"start_offset\":3,\"end_offset\":6}}}";
    let content = content_with(json, ");");
    let image = build_image(&content, b"only8byt");
    assert_eq!(unpack(&image), Err(UnpackError::EntryOutOfRange));
}

#[test]
fn slice_entry_checks_bounds_explicitly() {
    let resource = b"abcdef".to_vec();
    let ok = slice_entry(&resource, &Offsets { start_offset: 2, end_offset: 3 });
    assert_eq!(ok, Ok(b"cde".to_vec()));
    let off_end = slice_entry(&resource, &Offsets { start_offset: 4, end_offset: 3 });
    assert_eq!(off_end, Err(UnpackError::EntryOutOfRange));
    let off_start = slice_entry(&resource, &Offsets { start_offset: 7, end_offset: 0 });
    assert_eq!(off_start, Err(UnpackError::EntryOutOfRange));
    let huge = slice_entry(
        &resource,
        &Offsets { start_offset: u64::MAX, end_offset: u64::MAX },
    );
    assert_eq!(huge, Err(UnpackError::EntryOutOfRange));
}

#[test]
fn missing_marker_is_rejected() {
    let content = b"content without the token".to_vec();
    let image = build_image(&content, b"res");
    assert_eq!(unpack(&image), Err(UnpackError::MissingMarker));
}

#[test]
fn garbage_after_marker_is_rejected() {
    let content = content_with("@@@@ not a json value", "");
    let image = build_image(&content, b"res");
    assert_eq!(unpack(&image), Err(UnpackError::MalformedJson));
}

#[test]
fn non_object_json_is_rejected() {
    let content = content_with("[1,2,3]", ");");
    let image = build_image(&content, b"res");
    assert_eq!(unpack(&image), Err(UnpackError::InvalidDictionary));
}

#[test]
fn non_object_category_is_rejected() {
    let content = content_with("{\"resources\":5}", ");");
    let image = build_image(&content, b"res");
    assert_eq!(unpack(&image), Err(UnpackError::InvalidDictionary));
}

#[test]
fn non_object_entry_is_rejected() {
    let content = content_with("{\"resources\":{\"a\":7}}", ");");
    let image = build_image(&content, b"res");
    assert_eq!(unpack(&image), Err(UnpackError::InvalidDictionary));
}

#[test]
fn entry_without_offsets_is_rejected() {
    let content = content_with("{\"resources\":{\"a\":{}}}", ");");
    let image = build_image(&content, b"res");
    assert_eq!(unpack(&image), Err(UnpackError::InvalidDictionary));
}

#[test]
fn negative_offset_is_rejected() {
    let content = content_with(
        "{\"resources\":{\"a\":{\"start_offset\":-1,\"end_offset\":0}}}",
        ");",
    );
    let image = build_image(&content, b"res");
    assert_eq!(unpack(&image), Err(UnpackError::InvalidDictionary));
}

#[test]
fn fractional_offset_is_rejected() {
    let content = content_with(
        "{\"resources\":{\"a\":{\"start_offset\":1.5,\"end_offset\":0}}}",
        ");",
    );
    let image = build_image(&content, b"res");
    assert_eq!(unpack(&image), Err(UnpackError::InvalidDictionary));
}

#[test]
fn bad_sibling_category_is_rejected() {
    // Every category of the dictionary must fit the two-level shape, not
    // only the one that is consumed.
    let content = content_with(
        "{\"resources\":{},\"other\":\"flat\"}",
        ");",
    );
    let image = build_image(&content, b"res");
    assert_eq!(unpack(&image), Err(UnpackError::InvalidDictionary));
}

#[test]
fn missing_resources_key_is_rejected() {
    let content = content_with("{\"other\":{}}", ");");
    let image = build_image(&content, b"res");
    assert_eq!(unpack(&image), Err(UnpackError::MissingResources));
}

#[test]
fn extra_entry_fields_are_ignored() {
    let json = "{\"resources\":{\"a\":{\"start_offset\":1,\"end_offset\":2,\"note\":[null,{}]}}}";
    let content = content_with(json, ");");
    let image = build_image(&content, b"abcd");
    let plan = unpack(&image).unwrap();
    assert_eq!(plan[0].1, b"bc".to_vec());
}

#[test]
fn decoy_sentinel_in_content_is_ignored() {
    // The sentinel bytes also occur inside the content; the last occurrence
    // anchors the footer.
    let json = "{\"resources\":{\"a\":{\"start_offset\":0,\"end_offset\":3}}}";
    let mut content = b"<nexe~~sentinel> decoy ".to_vec();
    content.extend_from_slice(&content_with(json, ");"));
    let image = build_image(&content, b"abc");
    let plan = unpack(&image).unwrap();
    assert_eq!(plan[0].1, b"abc".to_vec());
}

#[test]
fn parse_dictionary_reads_first_value_only() {
    let json = b"{\"resources\":{\"p\":{\"start_offset\":4,\"end_offset\":2}}} trailing garbage {{{".to_vec();
    let d = parse_dictionary(&json).unwrap();
    assert_eq!(d.len(), 1);
    assert_eq!(d[0].0, b"p".to_vec());
    assert_eq!(d[0].1, Offsets { start_offset: 4, end_offset: 2 });
}

#[test]
fn double_decode_matches_casts() {
    let samples: [f64; 12] = [
        0.0, 1.0, 1.9, 1234.0, 4096.5, -5.0, -0.25, 1e18, 9007199254740993.0,
        f64::MAX, 5e-324, 0.000001,
    ];
    for x in samples {
        let bits = u64::from_le_bytes(x.to_le_bytes());
        assert_eq!(double_bits_to_u64(bits), x as u64, "decoding {x}");
    }
    assert_eq!(double_bits_to_u64(u64::from_le_bytes(f64::NAN.to_le_bytes())), 0);
    assert_eq!(
        double_bits_to_u64(u64::from_le_bytes(f64::INFINITY.to_le_bytes())),
        u64::MAX
    );
    assert_eq!(
        double_bits_to_u64(u64::from_le_bytes(f64::NEG_INFINITY.to_le_bytes())),
        0
    );
}

#[test]
fn get_float_from_buf_reads_le_doubles() {
    let mut buf = vec![0u8; 4];
    buf.extend_from_slice(&(1234.0f64).to_le_bytes());
    assert_eq!(get_float_from_buf(&buf, 4), Ok(1234));
    assert_eq!(
        get_float_from_buf(&buf, 5),
        Err(UnpackError::TruncatedMetadata)
    );
    assert_eq!(
        get_float_from_buf(&vec![], 0),
        Err(UnpackError::TruncatedMetadata)
    );
}
