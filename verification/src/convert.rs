use vstd::prelude::*;
use crate::encode::{enc_record, encode_record};
use crate::gz::{gunzip_of, gzip_compress};
use crate::ident::fresh_uuid_pair;
use crate::record::{
    overworld_bytes, overworld_name, MapData, MapDataV, MapRecord, MapRecordV, CENTER_SENTINEL,
    TARGET_DATA_VERSION,
};
use crate::validate::{dat_suffix, map_prefix};

verus! {

// The converter turns a raw color grid (the minimal schema: bare bytes, no
// framing) into a full record with synthesized identity and defaults, and
// encodes it. Directory listing and file I/O stay outside; the logic below
// decides which names are converted and what the output holds.

pub open spec fn is_ascii_digit(c: u8) -> bool {
    48 <= c <= 57
}

pub open spec fn all_digits(s: Seq<u8>) -> bool {
    forall|i: int| 0 <= i < s.len() ==> is_ascii_digit(#[trigger] s[i])
}

/// The number the decimal digits spell, most significant first.
pub open spec fn digits_val(s: Seq<u8>) -> int
    decreases s.len(),
{
    if s.len() == 0 {
        0
    } else {
        digits_val(s.drop_last()) * 10 + (s.last() - 48)
    }
}

/// What `str::parse::<u32>` accepts of a file name: an optional leading '+',
/// then one or more decimal digits whose value fits in 32 bits.
pub open spec fn parse_u32_spec(s: Seq<u8>) -> Option<u32> {
    let t = if s.len() > 0 && s[0] == 43 {
        s.subrange(1, s.len() as int)
    } else {
        s
    };
    if t.len() > 0 && all_digits(t) && digits_val(t) <= 0xffff_ffff {
        Some(digits_val(t) as u32)
    } else {
        None
    }
}

proof fn lemma_digits_val_nonneg(s: Seq<u8>)
    requires
        all_digits(s),
    ensures
        digits_val(s) >= 0,
    decreases s.len(),
{
    if s.len() > 0 {
        assert(all_digits(s.drop_last())) by {
            assert(forall|i: int|
                0 <= i < s.len() - 1 ==> #[trigger] s.drop_last()[i] == s[i]);
        }
        lemma_digits_val_nonneg(s.drop_last());
    }
}

proof fn lemma_digits_val_mono(s: Seq<u8>, i: int)
    requires
        all_digits(s),
        0 <= i <= s.len(),
    ensures
        digits_val(s.take(i)) <= digits_val(s),
    decreases s.len() - i,
{
    if i == s.len() {
        assert(s.take(i) =~= s);
    } else {
        assert(s.take(i + 1).drop_last() =~= s.take(i));
        assert(s.take(i + 1).last() == s[i]);
        assert(all_digits(s.take(i))) by {
            assert(forall|j: int| 0 <= j < i ==> #[trigger] s.take(i)[j] == s[j]);
        }
        lemma_digits_val_nonneg(s.take(i));
        assert(digits_val(s.take(i + 1)) == digits_val(s.take(i)) * 10 + (s[i] - 48));
        assert(digits_val(s.take(i)) <= digits_val(s.take(i + 1)));
        lemma_digits_val_mono(s, i + 1);
    }
}

/// Decide whether a directory entry name is a conversion input, exactly as
/// `str::parse::<u32>` decides it, and with which numeric identifier.
pub fn parse_u32_name(name: &Vec<u8>) -> (r: Option<u32>)
    ensures
        r == parse_u32_spec(name@),
{
    let n = name.len();
    let start: usize = if n > 0 && name[0] == 43 {
        1
    } else {
        0
    };
    let ghost t = if name@.len() > 0 && name@[0] == 43 {
        name@.subrange(1, name@.len() as int)
    } else {
        name@
    };
    assert(t.len() == n - start);
    assert(forall|j: int| 0 <= j < t.len() ==> t[j] == name@[start + j]);
    if n == start {
        return None;
    }
    let mut acc: u64 = 0;
    let mut i: usize = start;
    while i < n
        invariant
            start <= i <= n,
            n == name@.len(),
            start == 0 || start == 1,
            (start == 1) <==> (name@.len() > 0 && name@[0] == 43),
            t == (if name@.len() > 0 && name@[0] == 43 {
                name@.subrange(1, name@.len() as int)
            } else {
                name@
            }),
            t.len() == n - start,
            forall|j: int| 0 <= j < t.len() ==> #[trigger] t[j] == name@[start + j],
            all_digits(t.take(i - start)),
            acc == digits_val(t.take(i - start)),
            acc <= 0xffff_ffff,
        decreases n - i,
    {
        let c = name[i];
        if c < 48 || c > 57 {
            proof {
                assert(t[i - start] == c);
                assert(!is_ascii_digit(t[i - start]));
            }
            return None;
        }
        let d = (c - 48) as u64;
        let acc2: u64 = acc * 10 + d;
        proof {
            assert(t.take(i - start + 1).drop_last() =~= t.take(i - start));
            assert(t.take(i - start + 1).last() == t[i - start]);
            assert(t[i - start] == c);
            assert(all_digits(t.take(i - start + 1))) by {
                assert(forall|j: int|
                    0 <= j < i - start + 1 ==> #[trigger] t.take(i - start + 1)[j] == t[j]);
                assert(forall|j: int|
                    0 <= j < i - start ==> #[trigger] t.take(i - start)[j] == t[j]);
            }
            assert(acc2 == digits_val(t.take(i - start + 1)));
        }
        if acc2 > 0xffff_ffff {
            proof {
                if all_digits(t) {
                    lemma_digits_val_mono(t, i - start + 1);
                    assert(digits_val(t) > 0xffff_ffff);
                }
            }
            return None;
        }
        acc = acc2;
        i = i + 1;
    }
    proof {
        assert(t.take(n - start) =~= t);
        assert(t.len() > 0);
        assert(digits_val(t) == acc);
        assert(parse_u32_spec(name@) == Some(digits_val(t) as u32));
    }
    Some(acc as u32)
}

/// Bytes of the output file name the converter writes for an accepted entry
/// name: "map_" + name + ".dat".
pub open spec fn output_name_spec(name: Seq<u8>) -> Seq<u8> {
    map_prefix() + name + dat_suffix()
}

pub fn output_name(name: &Vec<u8>) -> (out: Vec<u8>)
    ensures
        out@ == output_name_spec(name@),
{
    let mut out: Vec<u8> = Vec::new();
    out.push(109);
    out.push(97);
    out.push(112);
    out.push(95);
    assert(out@ =~= map_prefix());
    let n = name.len();
    let mut i: usize = 0;
    while i < n
        invariant
            n == name@.len(),
            0 <= i <= n,
            out@ == map_prefix() + name@.take(i as int),
        decreases n - i,
    {
        out.push(name[i]);
        proof {
            assert((map_prefix() + name@.take(i as int)).push(name@[i as int]) =~= map_prefix()
                + name@.take(i + 1));
        }
        i = i + 1;
    }
    assert(name@.take(n as int) =~= name@);
    out.push(46);
    out.push(100);
    out.push(97);
    out.push(116);
    assert(out@ =~= output_name_spec(name@));
    out
}

/// The raw input bytes reinterpreted as signed color values, order kept.
pub fn bytes_to_colors(raw: &Vec<u8>) -> (out: Vec<i8>)
    ensures
        out@ == raw@.map_values(|x: u8| x as i8),
{
    let mut out: Vec<i8> = Vec::new();
    let n = raw.len();
    let mut i: usize = 0;
    while i < n
        invariant
            n == raw@.len(),
            0 <= i <= n,
            out@ == raw@.take(i as int).map_values(|x: u8| x as i8),
        decreases n - i,
    {
        out.push(#[verifier::truncate] (raw[i] as i8));
        proof {
            assert(raw@.take(i + 1) =~= raw@.take(i as int).push(raw@[i as int]));
            assert(raw@.take(i + 1).map_values(|x: u8| x as i8) =~= raw@.take(
                i as int,
            ).map_values(|x: u8| x as i8).push(raw@[i as int] as i8));
        }
        i = i + 1;
    }
    assert(raw@.take(n as int) =~= raw@);
    out
}

/// The full record the converter synthesizes for a raw color grid and a
/// fresh identifier: fixed target revision, primary-world dimension, locked,
/// tracking off, default scale, the sentinel center, and the grid itself.
pub open spec fn converted_record(raw: Seq<u8>, uuid_most: i64, uuid_least: i64) -> MapRecordV {
    MapRecordV {
        data_version: 3465,
        data: MapDataV {
            uuid_least,
            uuid_most,
            colors: raw.map_values(|x: u8| x as i8),
            dimension: overworld_name(),
            locked: 1,
            scale: 0,
            tracking_position: 0,
            unlimited_tracking: 0,
            x_center: 64000000,
            z_center: 64000000,
        },
    }
}

/// Build the full record for a color grid and an identifier.
pub fn build_record(colors: Vec<i8>, uuid_most: i64, uuid_least: i64) -> (r: MapRecord)
    ensures
        r@ == (MapRecordV {
            data_version: TARGET_DATA_VERSION as i32,
            data: MapDataV {
                uuid_least,
                uuid_most,
                colors: colors@,
                dimension: overworld_name(),
                locked: 1,
                scale: 0,
                tracking_position: 0,
                unlimited_tracking: 0,
                x_center: CENTER_SENTINEL as i32,
                z_center: CENTER_SENTINEL as i32,
            },
        }),
{
    MapRecord {
        data_version: TARGET_DATA_VERSION,
        data: MapData {
            uuid_least,
            uuid_most,
            colors,
            dimension: overworld_bytes(),
            locked: 1,
            scale: 0,
            tracking_position: 0,
            unlimited_tracking: 0,
            x_center: CENTER_SENTINEL,
            z_center: CENTER_SENTINEL,
        },
    }
}

/// Encode a record and compress it, ready to be written to disk.
pub fn encode_record_gz(r: &MapRecord) -> (z: Vec<u8>)
    requires
        r@.wf(),
    ensures
        gunzip_of(z@) == Some(enc_record(r@)),
{
    let bytes = encode_record(r);
    gzip_compress(&bytes)
}

/// Convert one raw color grid with a given identifier: the output is a gzip
/// stream holding exactly the encoded synthesized record.
pub fn convert_with_id(raw: &Vec<u8>, uuid_most: i64, uuid_least: i64) -> (z: Vec<u8>)
    requires
        raw@.len() <= 0x7fff_ffff,
    ensures
        gunzip_of(z@) == Some(enc_record(converted_record(raw@, uuid_most, uuid_least))),
{
    let colors = bytes_to_colors(raw);
    let rec = build_record(colors, uuid_most, uuid_least);
    assert(rec@ == converted_record(raw@, uuid_most, uuid_least));
    assert(rec@.data.colors.len() == raw@.len());
    assert(rec@.data.dimension.len() == 19);
    encode_record_gz(&rec)
}

/// Convert one raw color grid, drawing a fresh random identifier, as the
/// converter pipeline does per accepted entry.
pub fn clientmap_to_mapdat(raw: &Vec<u8>) -> (z: Vec<u8>)
    requires
        raw@.len() <= 0x7fff_ffff,
    ensures
        exists|most: i64, least: i64|
            gunzip_of(z@) == Some(enc_record(#[trigger] converted_record(raw@, most, least))),
{
    let (hi, lo) = fresh_uuid_pair();
    let most: i64 = #[verifier::truncate] (hi as i64);
    let least: i64 = #[verifier::truncate] (lo as i64);
    let z = convert_with_id(raw, most, least);
    proof {
        assert(gunzip_of(z@) == Some(enc_record(converted_record(raw@, most, least))));
    }
    z
}

} // verus!
