use fontcodec::errors::{CodecError, FieldId};
use fontcodec::table::{C2PA, SchemaVersion, TAG};

/// Verifies the behavior when the activeManifestUri is None
#[test]
fn c2pa_none_uri() {
    let c2pa = C2PA::new(
        None,
        Some(vec![0x74, 0x65, 0x73, 0x74, 0x2D, 0x64, 0x61, 0x74, 0x61]),
    );
    let binary_c2pa = vec![
        0x00, 0x00, // Major version
        0x00, 0x01, // Minor version
        0x00, 0x00, 0x00, 0x00, // Active manifest URI offset
        0x00, 0x00, // Active manifest URI length
        0x00, 0x00, // Two reserved bytes - should be zero, but should also be ignored/passed-through
        0x00, 0x00, 0x00, 0x14, // C2PA manifest store offset
        0x00, 0x00, 0x00, 0x09, // C2PA manifest store length
        0x74, 0x65, 0x73, 0x74, 0x2D, 0x64, 0x61, 0x74, 0x61, // C2PA manifest store data
    ];
    let deserialized: C2PA = C2PA::from_bytes(&binary_c2pa, SchemaVersion::V2).unwrap();
    assert_eq!(deserialized, c2pa);
    let mut serialized: Vec<u8> = Vec::new();
    deserialized
        .to_bytes(&mut serialized, SchemaVersion::V2)
        .unwrap();
    assert_eq!(serialized, binary_c2pa);
}

/// Verifies the behavior when the manifestStore is None
#[test]
fn c2pa_none_manifest_store() {
    let c2pa = C2PA::new(Some("file://a".to_owned()), None);
    let binary_c2pa = vec![
        0x00, 0x00, // Major version
        0x00, 0x01, // Minor version
        0x00, 0x00, 0x00, 0x14, // Active manifest URI offset
        0x00, 0x08, // Active manifest URI length
        0x00, 0x00, // Two reserved bytes - should be zero, but should also be ignored/passed-through
        0x00, 0x00, 0x00, 0x00, // C2PA manifest store offset
        0x00, 0x00, 0x00, 0x00, // C2PA manifest store length
        0x66, 0x69, 0x6C, 0x65, 0x3A, 0x2F, 0x2F, 0x61, // active manifest uri data
    ];
    let deserialized: C2PA = C2PA::from_bytes(&binary_c2pa, SchemaVersion::V2).unwrap();
    assert_eq!(deserialized, c2pa);
    let mut serialized: Vec<u8> = Vec::new();
    deserialized
        .to_bytes(&mut serialized, SchemaVersion::V2)
        .unwrap();
    assert_eq!(serialized, binary_c2pa);
}

/// Verifies the behavior when there is both an active manifest URI and a
/// C2PA manifest store in the font.
#[test]
fn c2pa_otspec() {
    let c2pa = C2PA::new(
        Some("file://a".to_owned()),
        Some(vec![0x74, 0x65, 0x73, 0x74, 0x2D, 0x64, 0x61, 0x74, 0x61]),
    );
    let binary_c2pa = vec![
        0x00, 0x00, // Major version
        0x00, 0x01, // Minor version
        0x00, 0x00, 0x00, 0x14, // Active manifest URI offset
        0x00, 0x08, // Active manifest URI length
        0x00, 0x00, // Two reserved bytes - should be zero, but should also be ignored/passed-through
        0x00, 0x00, 0x00, 0x1C, // C2PA manifest store offset
        0x00, 0x00, 0x00, 0x09, // C2PA manifest store length
        0x66, 0x69, 0x6C, 0x65, 0x3A, 0x2F, 0x2F, 0x61, // active manifest uri data
        0x74, 0x65, 0x73, 0x74, 0x2D, 0x64, 0x61, 0x74, 0x61, // C2PA manifest store data
    ];
    let deserialized: C2PA = C2PA::from_bytes(&binary_c2pa, SchemaVersion::V2).unwrap();
    assert_eq!(deserialized, c2pa);
    let mut serialized: Vec<u8> = Vec::new();
    deserialized
        .to_bytes(&mut serialized, SchemaVersion::V2)
        .unwrap();
    assert_eq!(serialized, binary_c2pa);
}

/// Scenario: the 18-byte layout with only a store payload.
#[test]
fn v1_store_only() {
    let binary = vec![
        0x00, 0x00, // majorVersion
        0x00, 0x01, // minorVersion
        0x00, 0x00, 0x00, 0x00, // activeManifestUriOffset
        0x00, 0x00, // activeManifestUriLength
        0x00, 0x00, 0x00, 0x12, // manifestStoreOffset (18)
        0x00, 0x00, 0x00, 0x09, // manifestStoreLength
        0x74, 0x65, 0x73, 0x74, 0x2D, 0x64, 0x61, 0x74, 0x61, // "test-data"
    ];
    let t = C2PA::from_bytes(&binary, SchemaVersion::V1).unwrap();
    assert_eq!(t.majorVersion, 0);
    assert_eq!(t.minorVersion, 1);
    assert_eq!(t.activeManifestUri, None);
    assert_eq!(t.get_manifest_store(), Some(&b"test-data"[..]));
    let mut out: Vec<u8> = Vec::new();
    t.to_bytes(&mut out, SchemaVersion::V1).unwrap();
    assert_eq!(out, binary);
}

/// Scenario: the 18-byte layout with only a URI payload writes offset
/// 0x12, length 0x08, store pair zero, pool "file://a".
#[test]
fn v1_uri_only() {
    let t = C2PA::new(Some("file://a".to_owned()), None);
    let mut out: Vec<u8> = Vec::new();
    t.to_bytes(&mut out, SchemaVersion::V1).unwrap();
    let expected = vec![
        0x00, 0x00, 0x00, 0x01, // versions
        0x00, 0x00, 0x00, 0x12, // activeManifestUriOffset
        0x00, 0x08, // activeManifestUriLength
        0x00, 0x00, 0x00, 0x00, // manifestStoreOffset
        0x00, 0x00, 0x00, 0x00, // manifestStoreLength
        0x66, 0x69, 0x6C, 0x65, 0x3A, 0x2F, 0x2F, 0x61, // "file://a"
    ];
    assert_eq!(out, expected);
    let back = C2PA::from_bytes(&out, SchemaVersion::V1).unwrap();
    assert_eq!(back, t);
}

/// Scenario: both fields present under the 18-byte layout — the store
/// offset is 18 plus the URI length and the pool is URI then store.
#[test]
fn v1_both_fields() {
    let t = C2PA::new(Some("file://a".to_owned()), Some(b"test-data".to_vec()));
    let mut out: Vec<u8> = Vec::new();
    t.to_bytes(&mut out, SchemaVersion::V1).unwrap();
    // manifestStoreOffset == 18 + len("file://a") == 26 == 0x1A
    assert_eq!(&out[10..14], &[0x00, 0x00, 0x00, 0x1A]);
    assert_eq!(&out[18..26], b"file://a");
    assert_eq!(&out[26..35], b"test-data");
    let back = C2PA::from_bytes(&out, SchemaVersion::V1).unwrap();
    assert_eq!(back, t);
}

/// A present-but-empty payload keeps a nonzero offset with length 0, and
/// is distinguishable from an absent one after a round trip.
#[test]
fn empty_present_payload() {
    let t = C2PA::new(Some(String::new()), None);
    let mut out: Vec<u8> = Vec::new();
    t.to_bytes(&mut out, SchemaVersion::V2).unwrap();
    // offset is the header size, the sentinel-avoiding minimum; length 0
    assert_eq!(&out[4..8], &[0x00, 0x00, 0x00, 0x14]);
    assert_eq!(&out[8..10], &[0x00, 0x00]);
    assert_eq!(out.len(), 20);
    let back = C2PA::from_bytes(&out, SchemaVersion::V2).unwrap();
    assert_eq!(back.activeManifestUri, Some(String::new()));
    assert_ne!(back.activeManifestUri, None);
    assert_eq!(back, t);
}

/// A nonzero reserved field is tolerated on read, never surfaced, and
/// re-encoded as zero.
#[test]
fn reserved_field_tolerated() {
    let mut binary = vec![
        0x00, 0x00, 0x00, 0x01, // versions
        0x00, 0x00, 0x00, 0x14, // uri offset
        0x00, 0x08, // uri length
        0xAB, 0xCD, // reserved: nonzero on the wire
        0x00, 0x00, 0x00, 0x00, // store offset
        0x00, 0x00, 0x00, 0x00, // store length
        0x66, 0x69, 0x6C, 0x65, 0x3A, 0x2F, 0x2F, 0x61, // "file://a"
    ];
    let t = C2PA::from_bytes(&binary, SchemaVersion::V2).unwrap();
    assert_eq!(t.activeManifestUri, Some("file://a".to_owned()));
    let mut out: Vec<u8> = Vec::new();
    t.to_bytes(&mut out, SchemaVersion::V2).unwrap();
    // identical except that the reserved field is written as zero
    assert_eq!(&out[10..12], &[0x00, 0x00]);
    binary[10] = 0x00;
    binary[11] = 0x00;
    assert_eq!(out, binary);
}

/// A buffer shorter than the declared header size fails with OutOfData.
#[test]
fn short_buffer_fails() {
    let binary = vec![0x00, 0x00, 0x00, 0x01, 0x00];
    let err = C2PA::from_bytes(&binary, SchemaVersion::V2).unwrap_err();
    assert_eq!(
        err,
        CodecError::OutOfData {
            requested: 20,
            available: 5
        }
    );
    let err1 = C2PA::from_bytes(&binary, SchemaVersion::V1).unwrap_err();
    assert_eq!(
        err1,
        CodecError::OutOfData {
            requested: 18,
            available: 5
        }
    );
}

/// A declared field length that extends past the buffer end fails with
/// OutOfData instead of returning truncated data.
#[test]
fn truncated_field_fails() {
    let binary = vec![
        0x00, 0x00, 0x00, 0x01, // versions
        0x00, 0x00, 0x00, 0x14, // uri offset: 20
        0x00, 0x20, // uri length: 32, but only 8 bytes follow
        0x00, 0x00, // reserved
        0x00, 0x00, 0x00, 0x00, // store offset
        0x00, 0x00, 0x00, 0x00, // store length
        0x66, 0x69, 0x6C, 0x65, 0x3A, 0x2F, 0x2F, 0x61,
    ];
    let err = C2PA::from_bytes(&binary, SchemaVersion::V2).unwrap_err();
    assert_eq!(
        err,
        CodecError::OutOfData {
            requested: 32,
            available: 8
        }
    );
}

/// A URI payload that is not valid UTF-8 fails with InvalidEncoding.
#[test]
fn invalid_utf8_uri_fails() {
    let binary = vec![
        0x00, 0x00, 0x00, 0x01, // versions
        0x00, 0x00, 0x00, 0x14, // uri offset
        0x00, 0x02, // uri length
        0x00, 0x00, // reserved
        0x00, 0x00, 0x00, 0x00, // store offset
        0x00, 0x00, 0x00, 0x00, // store length
        0xFF, 0xFE, // not UTF-8
    ];
    let err = C2PA::from_bytes(&binary, SchemaVersion::V2).unwrap_err();
    assert_eq!(
        err,
        CodecError::InvalidEncoding {
            field: FieldId::ActiveManifestUri
        }
    );
}

/// Under the 18-byte layout the store payload is declared textual, so
/// bytes that are not UTF-8 fail with InvalidEncoding — on read and on
/// write alike.  The 20-byte layout takes the same bytes as opaque.
#[test]
fn v1_store_must_be_text() {
    let binary = vec![
        0x00, 0x00, 0x00, 0x01, // versions
        0x00, 0x00, 0x00, 0x00, // uri offset
        0x00, 0x00, // uri length
        0x00, 0x00, 0x00, 0x12, // store offset: 18
        0x00, 0x00, 0x00, 0x02, // store length
        0xFF, 0xFE, // not UTF-8
    ];
    let err = C2PA::from_bytes(&binary, SchemaVersion::V1).unwrap_err();
    assert_eq!(
        err,
        CodecError::InvalidEncoding {
            field: FieldId::ManifestStore
        }
    );
    let t = C2PA::new(None, Some(vec![0xFF, 0xFE]));
    let mut out: Vec<u8> = Vec::new();
    let werr = t.to_bytes(&mut out, SchemaVersion::V1).unwrap_err();
    assert_eq!(
        werr,
        CodecError::InvalidEncoding {
            field: FieldId::ManifestStore
        }
    );
    assert_eq!(out.len(), 0);
    // the same value encodes fine under the opaque layout
    let mut out2: Vec<u8> = Vec::new();
    t.to_bytes(&mut out2, SchemaVersion::V2).unwrap();
    let back = C2PA::from_bytes(&out2, SchemaVersion::V2).unwrap();
    assert_eq!(back, t);
}

/// A URI longer than its 2-byte length field can carry is refused.
#[test]
fn oversized_uri_fails() {
    let uri = "a".repeat(0x10000);
    let t = C2PA::new(Some(uri), None);
    let mut out: Vec<u8> = Vec::new();
    let err = t.to_bytes(&mut out, SchemaVersion::V2).unwrap_err();
    assert_eq!(
        err,
        CodecError::StructuralMismatch {
            expected: 0xFFFF,
            got: 0x10000
        }
    );
    assert_eq!(out.len(), 0);
}

/// The default record: version 0.1, both optional fields absent.
#[test]
fn default_record() {
    let t = C2PA::default();
    assert_eq!(t.majorVersion, 0);
    assert_eq!(t.minorVersion, 1);
    assert_eq!(t.activeManifestUri, None);
    assert!(t.get_manifest_store().is_none());
    assert_eq!(TAG, "C2PA");
    let mut out: Vec<u8> = Vec::new();
    t.to_bytes(&mut out, SchemaVersion::V2).unwrap();
    assert_eq!(
        out,
        vec![
            0x00, 0x00, 0x00, 0x01, 0x00, 0x00, 0x00, 0x00, 0x00, 0x00, 0x00, 0x00, 0x00, 0x00,
            0x00, 0x00, 0x00, 0x00, 0x00, 0x00
        ]
    );
}

/// Encoding appends after whatever the buffer already holds.
#[test]
fn encode_appends() {
    let t = C2PA::default();
    let mut out: Vec<u8> = vec![0x42];
    t.to_bytes(&mut out, SchemaVersion::V1).unwrap();
    assert_eq!(out.len(), 19);
    assert_eq!(out[0], 0x42);
    assert_eq!(&out[1..5], &[0x00, 0x00, 0x00, 0x01]);
}

/// A table decodes the same wherever it sits inside an enclosing buffer:
/// offsets are relative to the table's own origin.
#[test]
fn decode_mid_buffer() {
    let t = C2PA::new(Some("file://a".to_owned()), Some(b"test-data".to_vec()));
    let mut buf: Vec<u8> = vec![0xEE; 7]; // unrelated leading bytes
    t.to_bytes(&mut buf, SchemaVersion::V2).unwrap();
    let mut c = fontcodec::cursor::Cursor::new();
    c.seek(7);
    let back = C2PA::decode(&mut c, &buf, SchemaVersion::V2).unwrap();
    assert_eq!(back, t);
    assert_eq!(c.pos, 7); // the cursor is restored
    assert_eq!(c.origins.len(), 0);
}
