use mapdat::convert::{
    build_record, clientmap_to_mapdat, encode_record_gz, output_name, parse_u32_name,
};
use mapdat::ident::fresh_uuid_pair;
use mapdat::validate::{check, is_map_dat_name, run_validator, DirEntry};

fn record_file(n: usize) -> Vec<u8> {
    let colors: Vec<i8> = vec![0i8; n];
    encode_record_gz(&build_record(colors, 1, 2))
}

#[test]
fn name_filter_matches_prefix_and_suffix() {
    assert!(is_map_dat_name(&b"map_1.dat".to_vec()));
    assert!(is_map_dat_name(&b"map_.dat".to_vec()));
    assert!(is_map_dat_name(&b"map_anything.at.dat".to_vec()));
    assert!(!is_map_dat_name(&b"map_1.Dat".to_vec()));
    assert!(!is_map_dat_name(&b"Map_1.dat".to_vec()));
    assert!(!is_map_dat_name(&b"map1.dat".to_vec()));
    assert!(!is_map_dat_name(&b"map_1.dats".to_vec()));
    assert!(!is_map_dat_name(&b"x.dat".to_vec()));
    assert!(!is_map_dat_name(&b"".to_vec()));
}

#[test]
fn validator_reports_only_invalid_files() {
    // The output directory holds one valid record and one whose color array
    // has length 100: exactly the short one is reported.
    let entries = vec![
        DirEntry { name: b"map_1.dat".to_vec(), is_dir: false, data: record_file(16384) },
        DirEntry { name: b"map_2.dat".to_vec(), is_dir: false, data: record_file(100) },
    ];
    let invalid = run_validator(&entries);
    assert_eq!(invalid.len(), 1);
    assert_eq!(invalid[0], b"map_2.dat".to_vec());
}

#[test]
fn validator_skips_directories_and_other_names() {
    let entries = vec![
        // A directory whose name matches the pattern: skipped, not reported.
        DirEntry { name: b"map_3.dat".to_vec(), is_dir: true, data: vec![] },
        // A file whose name does not match: never examined.
        DirEntry { name: b"README.txt".to_vec(), is_dir: false, data: vec![1, 2, 3] },
        // A matching file holding garbage: reported.
        DirEntry { name: b"map_4.dat".to_vec(), is_dir: false, data: vec![9, 9, 9] },
    ];
    let invalid = run_validator(&entries);
    assert_eq!(invalid.len(), 1);
    assert_eq!(invalid[0], b"map_4.dat".to_vec());
}

#[test]
fn validator_order_is_enumeration_order() {
    let entries = vec![
        DirEntry { name: b"map_b.dat".to_vec(), is_dir: false, data: vec![] },
        DirEntry { name: b"map_a.dat".to_vec(), is_dir: false, data: vec![] },
    ];
    let invalid = run_validator(&entries);
    assert_eq!(invalid, vec![b"map_b.dat".to_vec(), b"map_a.dat".to_vec()]);
}

#[test]
fn converter_accepts_exactly_integer_names() {
    assert_eq!(parse_u32_name(&b"42".to_vec()), Some(42));
    assert_eq!(parse_u32_name(&b"0".to_vec()), Some(0));
    assert_eq!(parse_u32_name(&b"+7".to_vec()), Some(7));
    assert_eq!(parse_u32_name(&b"4294967295".to_vec()), Some(u32::MAX));
    assert_eq!(parse_u32_name(&b"4294967296".to_vec()), None);
    assert_eq!(parse_u32_name(&b"42x".to_vec()), None);
    assert_eq!(parse_u32_name(&b"-1".to_vec()), None);
    assert_eq!(parse_u32_name(&b"".to_vec()), None);
    assert_eq!(parse_u32_name(&b"+".to_vec()), None);
    assert_eq!(parse_u32_name(&b" 1".to_vec()), None);
}

#[test]
fn converter_end_to_end_scenario() {
    // Input directory: a file named "1" of 16384 zero bytes, and one named
    // "notanumber". Exactly one output, map_1.dat, and it is valid.
    let inputs: Vec<(Vec<u8>, Vec<u8>)> = vec![
        (b"1".to_vec(), vec![0u8; 16384]),
        (b"notanumber".to_vec(), vec![0u8; 16384]),
    ];
    let mut outputs: Vec<(Vec<u8>, Vec<u8>)> = Vec::new();
    for (name, raw) in &inputs {
        if parse_u32_name(name).is_some() {
            outputs.push((output_name(name), clientmap_to_mapdat(raw)));
        }
    }
    assert_eq!(outputs.len(), 1);
    assert_eq!(outputs[0].0, b"map_1.dat".to_vec());
    assert_eq!(check(&outputs[0].1), Ok(()));
}

#[test]
fn output_name_carries_entry_name() {
    assert_eq!(output_name(&b"1".to_vec()), b"map_1.dat".to_vec());
    assert_eq!(output_name(&b"+7".to_vec()), b"map_+7.dat".to_vec());
}

#[test]
fn fresh_identifiers_have_version_and_variant_bits() {
    let (hi, lo) = fresh_uuid_pair();
    assert_eq!((hi >> 12) & 0xf, 4);
    assert_eq!(lo >> 62, 2);
}

#[test]
fn fresh_identifiers_differ_between_draws() {
    // Collision resistance cannot be proved, only sampled: two draws of a
    // random 122-bit value virtually never coincide.
    let a = fresh_uuid_pair();
    let b = fresh_uuid_pair();
    assert_ne!(a, b);
}
