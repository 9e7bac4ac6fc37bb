use fontcodec::be::{be_value_of, push_be};
use fontcodec::cursor::Cursor;
use fontcodec::errors::CodecError;
use fontcodec::pool::{layout_pool, read_optional_field};
use fontcodec::record::{decode_record, encode_record, FieldDesc, FieldWidth};

#[test]
fn big_endian_primitives() {
    assert_eq!(be_value_of(&vec![0x12, 0x34]), 0x1234);
    assert_eq!(be_value_of(&vec![0x00, 0x00, 0x01, 0x00]), 256);
    assert_eq!(be_value_of(&vec![]), 0);
    let mut out: Vec<u8> = Vec::new();
    push_be(&mut out, 0x1234, 2);
    push_be(&mut out, 9, 4);
    assert_eq!(out, vec![0x12, 0x34, 0x00, 0x00, 0x00, 0x09]);
}

#[test]
fn cursor_origin_stack() {
    let data = vec![0x10, 0x20, 0x30, 0x40, 0x50];
    let mut c = Cursor::new();
    assert_eq!(c.pos, 0);
    let first = c.read_counted(&data, 2).unwrap();
    assert_eq!(first, vec![0x10, 0x20]);
    assert_eq!(c.pos, 2);
    c.push();
    assert_eq!(c.top_of_table(), 2);
    c.seek(4);
    let nested = c.read_fixed(&data, 1).unwrap();
    assert_eq!(nested, vec![0x50]);
    c.push();
    assert_eq!(c.top_of_table(), 5);
    c.pop();
    assert_eq!(c.top_of_table(), 2);
    c.pop();
    assert_eq!(c.origins.len(), 0);
}

#[test]
fn cursor_never_reads_past_end() {
    let data = vec![0x10, 0x20, 0x30];
    let mut c = Cursor::new();
    c.seek(1);
    let err = c.read_counted(&data, 5).unwrap_err();
    assert_eq!(
        err,
        CodecError::OutOfData {
            requested: 5,
            available: 2
        }
    );
    // the failed read left the cursor where it was
    assert_eq!(c.pos, 1);
    assert_eq!(c.read_counted(&data, 2).unwrap(), vec![0x20, 0x30]);
}

#[test]
fn record_codec_round_trip() {
    let fields = vec![
        FieldDesc {
            name: "alpha",
            width: FieldWidth::W2,
        },
        FieldDesc {
            name: "beta",
            width: FieldWidth::W4,
        },
        FieldDesc {
            name: "gamma",
            width: FieldWidth::W1,
        },
    ];
    let vals = vec![0x1234, 5, 0xFF];
    let mut out: Vec<u8> = Vec::new();
    encode_record(&mut out, &fields, &vals).unwrap();
    assert_eq!(out, vec![0x12, 0x34, 0x00, 0x00, 0x00, 0x05, 0xFF]);
    let mut c = Cursor::new();
    let back = decode_record(&mut c, &out, &fields).unwrap();
    assert_eq!(back, vals);
    assert_eq!(c.pos, 7);
}

#[test]
fn record_codec_mismatch_and_shortage() {
    let fields = vec![
        FieldDesc {
            name: "alpha",
            width: FieldWidth::W2,
        },
        FieldDesc {
            name: "beta",
            width: FieldWidth::W4,
        },
    ];
    let mut out: Vec<u8> = Vec::new();
    let err = encode_record(&mut out, &fields, &vec![1]).unwrap_err();
    assert_eq!(
        err,
        CodecError::StructuralMismatch {
            expected: 2,
            got: 1
        }
    );
    assert!(out.is_empty());
    let short = vec![0x00, 0x01, 0x02];
    let mut c = Cursor::new();
    let derr = decode_record(&mut c, &short, &fields).unwrap_err();
    assert_eq!(
        derr,
        CodecError::OutOfData {
            requested: 6,
            available: 3
        }
    );
    assert_eq!(c.pos, 0);
}

#[test]
fn pool_layout_contiguous() {
    let fields: Vec<Option<Vec<u8>>> = vec![Some(b"abc".to_vec()), None, Some(b"de".to_vec())];
    let (pairs, pool) = layout_pool(10, &fields);
    assert_eq!(pairs, vec![(10, 3), (0, 0), (13, 2)]);
    assert_eq!(pool, b"abcde".to_vec());
    let empties: Vec<Option<Vec<u8>>> = vec![None, None];
    let (pairs2, pool2) = layout_pool(18, &empties);
    assert_eq!(pairs2, vec![(0, 0), (0, 0)]);
    assert!(pool2.is_empty());
    // a present-but-empty payload still takes the sentinel-avoiding offset
    let with_empty: Vec<Option<Vec<u8>>> = vec![Some(Vec::new()), Some(b"x".to_vec())];
    let (pairs3, pool3) = layout_pool(18, &with_empty);
    assert_eq!(pairs3, vec![(18, 0), (18, 1)]);
    assert_eq!(pool3, b"x".to_vec());
}

#[test]
fn optional_field_resolution() {
    // table starts at byte 2; its payload sits at relative offset 4
    let data = vec![0xAA, 0xBB, 0x00, 0x00, 0x00, 0x00, 0x11, 0x22, 0x33];
    let mut c = Cursor::new();
    c.seek(2);
    c.push();
    assert_eq!(read_optional_field(&mut c, &data, 0, 7).unwrap(), None);
    assert_eq!(
        read_optional_field(&mut c, &data, 4, 3).unwrap(),
        Some(vec![0x11, 0x22, 0x33])
    );
    let err = read_optional_field(&mut c, &data, 4, 4).unwrap_err();
    assert_eq!(
        err,
        CodecError::OutOfData {
            requested: 4,
            available: 3
        }
    );
    let err2 = read_optional_field(&mut c, &data, 100, 1).unwrap_err();
    assert_eq!(
        err2,
        CodecError::OutOfData {
            requested: 1,
            available: 0
        }
    );
    assert_eq!(c.top_of_table(), 2);
}
