use std::collections::HashMap;
use std::io::{Read, Write};

use mapdat::convert::{build_record, convert_with_id, encode_record_gz};
use mapdat::record::MapRecord;
use mapdat::validate::{check, decode_record, MapError};

fn pattern_colors(n: usize) -> Vec<i8> {
    (0..n).map(|i| (i % 256) as u8 as i8).collect()
}

fn sample_record(n: usize) -> MapRecord {
    build_record(pattern_colors(n), 0x1122334455667788, -42)
}

#[test]
fn roundtrip_full_record() {
    let rec = sample_record(16384);
    let z = encode_record_gz(&rec);
    let m = decode_record(&z).expect("decode what was just encoded");
    assert_eq!(m.data_version, 3465);
    assert_eq!(m.colors, pattern_colors(16384));
    assert_eq!(m.dimension, b"minecraft:overworld".to_vec());
    assert_eq!(m.locked, 1);
    assert_eq!(m.tracking_position, 0);
    assert_eq!(m.x_center, 64000000);
    assert_eq!(m.z_center, 64000000);
}

#[test]
fn roundtrip_odd_lengths() {
    for n in [0usize, 1, 100, 16383, 16385] {
        let rec = sample_record(n);
        let z = encode_record_gz(&rec);
        let m = decode_record(&z).expect("decode succeeds whatever the length");
        assert_eq!(m.colors.len(), n);
    }
}

#[test]
fn valid_iff_colors_len_16384() {
    for n in [0usize, 100, 16383, 16385] {
        let z = encode_record_gz(&sample_record(n));
        assert_eq!(check(&z), Err(MapError::WrongSize));
    }
    let z = encode_record_gz(&sample_record(16384));
    assert_eq!(check(&z), Ok(()));
}

#[test]
fn corrupt_stream_is_decompression_error() {
    assert_eq!(check(&vec![]), Err(MapError::Decompression));
    assert_eq!(check(&vec![0x1f, 0x8b, 0x08, 0x00]), Err(MapError::Decompression));
    let mut z = encode_record_gz(&sample_record(16384));
    z.truncate(z.len() / 2);
    assert_eq!(check(&z), Err(MapError::Decompression));
}

#[test]
fn garbage_payload_is_schema_error() {
    let mut enc = flate2::write::GzEncoder::new(Vec::new(), flate2::Compression::fast());
    enc.write_all(b"not a tagged tree at all").unwrap();
    let z = enc.finish().unwrap();
    assert_eq!(check(&z), Err(MapError::Schema));
}

#[test]
fn missing_field_is_schema_error() {
    // A root that lacks the `data` compound entirely.
    let mut root = HashMap::new();
    root.insert("DataVersion".to_string(), fastnbt::Value::Int(3465));
    let raw = fastnbt::to_bytes(&fastnbt::Value::Compound(root)).unwrap();
    let mut enc = flate2::write::GzEncoder::new(Vec::new(), flate2::Compression::fast());
    enc.write_all(&raw).unwrap();
    let z = enc.finish().unwrap();
    assert_eq!(check(&z), Err(MapError::Schema));
}

#[test]
fn encoded_bytes_match_reference_reader() {
    let colors = pattern_colors(16384);
    let rec = build_record(colors.clone(), 77, -5);
    let z = encode_record_gz(&rec);
    let mut dec = flate2::read::GzDecoder::new(z.as_slice());
    let mut raw = Vec::new();
    dec.read_to_end(&mut raw).expect("our own stream decompresses");
    let v: fastnbt::Value = fastnbt::from_bytes(&raw).expect("reference reader accepts our bytes");
    let root = match v {
        fastnbt::Value::Compound(m) => m,
        other => panic!("root should be a compound, got {other:?}"),
    };
    assert_eq!(root.get("DataVersion"), Some(&fastnbt::Value::Int(3465)));
    let data = match root.get("data") {
        Some(fastnbt::Value::Compound(m)) => m,
        other => panic!("data should be a compound, got {other:?}"),
    };
    assert_eq!(data.get("UUIDMost"), Some(&fastnbt::Value::Long(77)));
    assert_eq!(data.get("UUIDLeast"), Some(&fastnbt::Value::Long(-5)));
    assert_eq!(data.get("banners"), Some(&fastnbt::Value::List(vec![])));
    assert_eq!(data.get("frames"), Some(&fastnbt::Value::List(vec![])));
    assert_eq!(
        data.get("dimension"),
        Some(&fastnbt::Value::String("minecraft:overworld".to_string()))
    );
    assert_eq!(data.get("locked"), Some(&fastnbt::Value::Byte(1)));
    assert_eq!(data.get("scale"), Some(&fastnbt::Value::Byte(0)));
    assert_eq!(data.get("trackingPosition"), Some(&fastnbt::Value::Byte(0)));
    assert_eq!(data.get("unlimitedTracking"), Some(&fastnbt::Value::Byte(0)));
    assert_eq!(data.get("xCenter"), Some(&fastnbt::Value::Int(64000000)));
    assert_eq!(data.get("zCenter"), Some(&fastnbt::Value::Int(64000000)));
    match data.get("colors") {
        Some(fastnbt::Value::ByteArray(arr)) => assert_eq!(&arr[..], &colors[..]),
        other => panic!("colors should be a byte array, got {other:?}"),
    }
}

#[test]
fn decoder_tolerates_superset_and_any_order() {
    // A superset written by the reference writer: extra fields at both levels
    // must be skipped, whatever order the map iterates in.
    let mut data = HashMap::new();
    data.insert("colors".to_string(), fastnbt::Value::ByteArray(fastnbt::ByteArray::new(vec![3i8; 16384])));
    data.insert("dimension".to_string(), fastnbt::Value::String("minecraft:the_nether".to_string()));
    data.insert("locked".to_string(), fastnbt::Value::Byte(0));
    data.insert("trackingPosition".to_string(), fastnbt::Value::Byte(1));
    data.insert("xCenter".to_string(), fastnbt::Value::Int(-7));
    data.insert("zCenter".to_string(), fastnbt::Value::Int(1234567));
    data.insert("scale".to_string(), fastnbt::Value::Byte(2));
    data.insert("somethingExtra".to_string(), fastnbt::Value::Long(99));
    data.insert("extraList".to_string(), fastnbt::Value::List(vec![
        fastnbt::Value::Int(1),
        fastnbt::Value::Int(2),
    ]));
    let mut root = HashMap::new();
    root.insert("DataVersion".to_string(), fastnbt::Value::Int(100));
    root.insert("data".to_string(), fastnbt::Value::Compound(data));
    root.insert("unknownTop".to_string(), fastnbt::Value::String("x".to_string()));
    let raw = fastnbt::to_bytes(&fastnbt::Value::Compound(root)).unwrap();
    let mut enc = flate2::write::GzEncoder::new(Vec::new(), flate2::Compression::fast());
    enc.write_all(&raw).unwrap();
    let z = enc.finish().unwrap();
    let m = decode_record(&z).expect("superset schema decodes");
    assert_eq!(m.data_version, 100);
    assert_eq!(m.colors, vec![3i8; 16384]);
    assert_eq!(m.dimension, b"minecraft:the_nether".to_vec());
    assert_eq!(m.locked, 0);
    assert_eq!(m.tracking_position, 1);
    assert_eq!(m.x_center, -7);
    assert_eq!(m.z_center, 1234567);
    assert_eq!(check(&z), Ok(()));
}

#[test]
fn converted_output_fields() {
    let raw: Vec<u8> = (0..16384).map(|i| (255 - (i % 256)) as u8).collect();
    let z = convert_with_id(&raw, 11, 22);
    let m = decode_record(&z).expect("converted output decodes");
    assert_eq!(m.data_version, 3465);
    let expected: Vec<i8> = raw.iter().map(|b| *b as i8).collect();
    assert_eq!(m.colors, expected);
    assert_eq!(m.dimension, b"minecraft:overworld".to_vec());
    assert_eq!(m.locked, 1);
    assert_eq!(m.tracking_position, 0);
    assert_eq!(m.x_center, 64000000);
    assert_eq!(m.z_center, 64000000);
    assert_eq!(check(&z), Ok(()));
}
