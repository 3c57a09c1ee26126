use vstd::prelude::*;
use crate::bytes::{
    be16_at, be32_at, enc_u16, enc_u32, enc_u64, lemma_enc_u16_value, lemma_enc_u32_value,
    lemma_i32_roundtrip, lemma_i8_roundtrip,
};
use crate::encode::{
    enc_byte_field, enc_bytearray_field, enc_data_payload, enc_empty_list_field, enc_int_field,
    enc_long_field, enc_name, enc_record, enc_string_field,
};
use crate::names::{
    nm_banners, nm_colors, nm_data, nm_data_version, nm_dimension, nm_frames, nm_locked, nm_scale,
    nm_tracking_position, nm_unlimited_tracking, nm_uuid_least, nm_uuid_most, nm_x_center,
    nm_z_center,
};
use crate::parse::{
    as_i32_of, as_i8_of, data_acc_empty, data_complete, data_subset, parse_data_fields,
    parse_record, parse_root_fields, skip_payload, DataAcc, RootAcc,
};
use crate::record::{overworld_name, subset_of, MapDataV, MapRecordV, MapSubsetV};
use crate::gz::gunzip_of;
use crate::validate::valid_record_bytes;
use crate::convert::converted_record;

verus! {

// Decoding an encoded record gives back the checked subset of its fields.
// The proof walks the byte image field by field: `lemma_peel` turns a
// concatenation into indexed facts, `lemma_field_header` reads one field
// header, and one step lemma per field advances the spec parser over it.

proof fn lemma_peel(b: Seq<u8>, pos: int, first: Seq<u8>, rest: Seq<u8>)
    requires
        0 <= pos <= b.len(),
        b.subrange(pos, b.len() as int) == first + rest,
    ensures
        pos + first.len() + rest.len() == b.len(),
        forall|i: int| 0 <= i < first.len() ==> b[pos + i] == first[i],
        b.subrange(pos + first.len(), b.len() as int) == rest,
{
    let tail = b.subrange(pos, b.len() as int);
    assert(tail.len() == first.len() + rest.len());
    assert forall|i: int| 0 <= i < first.len() implies b[pos + i] == first[i] by {
        assert(tail[i] == b[pos + i]);
        assert((first + rest)[i] == first[i]);
    }
    assert forall|j: int|
        0 <= j < rest.len() implies b.subrange(pos + first.len(), b.len() as int)[j] == rest[j] by {
        assert(b.subrange(pos + first.len(), b.len() as int)[j] == b[pos + first.len() + j]);
        assert(tail[first.len() + j] == b[pos + first.len() + j]);
        assert((first + rest)[first.len() + j] == rest[j]);
    }
    assert(b.subrange(pos + first.len(), b.len() as int) =~= rest);
}

proof fn lemma_field_header(b: Seq<u8>, pos: int, tag: u8, nm: Seq<u8>, payload: Seq<u8>, rest: Seq<u8>)
    requires
        0 <= pos <= b.len(),
        nm.len() <= 0xffff,
        b.subrange(pos, b.len() as int) == (seq![tag] + enc_name(nm) + payload) + rest,
    ensures
        pos + 3 + nm.len() + payload.len() + rest.len() == b.len(),
        b[pos] == tag,
        be16_at(b, pos + 1) == nm.len(),
        b.subrange(pos + 3, pos + 3 + nm.len()) == nm,
        b.subrange(pos + 3 + nm.len(), b.len() as int) == payload + rest,
{
    let head = seq![tag] + enc_name(nm);
    assert((seq![tag] + enc_name(nm) + payload) + rest =~= head + (payload + rest));
    lemma_peel(b, pos, head, payload + rest);
    assert(head.len() == 3 + nm.len());
    assert(b[pos] == head[0]);
    assert(head[0] == tag);
    let ln = nm.len() as u16;
    assert(head[1] == enc_u16(ln)[0]);
    assert(head[2] == enc_u16(ln)[1]);
    assert(b[pos + 1] == enc_u16(ln)[0]);
    assert(b[pos + 2] == enc_u16(ln)[1]);
    lemma_enc_u16_value(ln, b, pos + 1);
    assert forall|i: int| 0 <= i < nm.len() implies b.subrange(pos + 3, pos + 3 + nm.len())[i]
        == nm[i] by {
        assert(b[pos + 3 + i] == head[3 + i]);
        assert(head[3 + i] == enc_name(nm)[2 + i]);
        assert(enc_name(nm)[2 + i] == nm[i]);
    }
    assert(b.subrange(pos + 3, pos + 3 + nm.len()) =~= nm);
}

/// Both groupings of three concatenated pieces are the same sequence.
proof fn lemma_assoc(s: Seq<u8>, t: Seq<u8>, u: Seq<u8>)
    ensures
        (s + t) + u == s + (t + u),
{
    assert((s + t) + u =~= s + (t + u));
}

/// The field names of the schema are pairwise distinct where the parser has
/// to tell them apart.
proof fn lemma_names_distinct()
    ensures
        nm_uuid_least() != nm_colors(),
        nm_uuid_least() != nm_dimension(),
        nm_uuid_least() != nm_locked(),
        nm_uuid_least() != nm_tracking_position(),
        nm_uuid_least() != nm_x_center(),
        nm_uuid_least() != nm_z_center(),
        nm_uuid_most() != nm_colors(),
        nm_uuid_most() != nm_dimension(),
        nm_uuid_most() != nm_locked(),
        nm_uuid_most() != nm_tracking_position(),
        nm_uuid_most() != nm_x_center(),
        nm_uuid_most() != nm_z_center(),
        nm_banners() != nm_colors(),
        nm_banners() != nm_dimension(),
        nm_banners() != nm_locked(),
        nm_banners() != nm_tracking_position(),
        nm_banners() != nm_x_center(),
        nm_banners() != nm_z_center(),
        nm_frames() != nm_colors(),
        nm_frames() != nm_dimension(),
        nm_frames() != nm_locked(),
        nm_frames() != nm_tracking_position(),
        nm_frames() != nm_x_center(),
        nm_frames() != nm_z_center(),
        nm_scale() != nm_colors(),
        nm_scale() != nm_dimension(),
        nm_scale() != nm_locked(),
        nm_scale() != nm_tracking_position(),
        nm_scale() != nm_x_center(),
        nm_scale() != nm_z_center(),
        nm_unlimited_tracking() != nm_colors(),
        nm_unlimited_tracking() != nm_dimension(),
        nm_unlimited_tracking() != nm_locked(),
        nm_unlimited_tracking() != nm_tracking_position(),
        nm_unlimited_tracking() != nm_x_center(),
        nm_unlimited_tracking() != nm_z_center(),
        nm_dimension() != nm_colors(),
        nm_locked() != nm_colors(),
        nm_locked() != nm_dimension(),
        nm_tracking_position() != nm_colors(),
        nm_tracking_position() != nm_dimension(),
        nm_tracking_position() != nm_locked(),
        nm_x_center() != nm_colors(),
        nm_x_center() != nm_dimension(),
        nm_x_center() != nm_locked(),
        nm_x_center() != nm_tracking_position(),
        nm_z_center() != nm_colors(),
        nm_z_center() != nm_dimension(),
        nm_z_center() != nm_locked(),
        nm_z_center() != nm_tracking_position(),
        nm_z_center() != nm_x_center(),
        nm_data() != nm_data_version(),
{
    assert(nm_uuid_least().len() == 9);
    assert(nm_uuid_most().len() == 8);
    assert(nm_banners().len() == 7);
    assert(nm_colors().len() == 6);
    assert(nm_dimension().len() == 9);
    assert(nm_frames().len() == 6);
    assert(nm_locked().len() == 6);
    assert(nm_scale().len() == 5);
    assert(nm_tracking_position().len() == 16);
    assert(nm_unlimited_tracking().len() == 17);
    assert(nm_x_center().len() == 7);
    assert(nm_z_center().len() == 7);
    assert(nm_data_version().len() == 11);
    assert(nm_data().len() == 4);
    assert(nm_uuid_least()[0] == 85u8);
    assert(nm_dimension()[0] == 100u8);
    assert(nm_banners()[0] == 98u8);
    assert(nm_x_center()[0] == 120u8);
    assert(nm_z_center()[0] == 122u8);
    assert(nm_frames()[0] == 102u8);
    assert(nm_colors()[0] == 99u8);
    assert(nm_locked()[0] == 108u8);
}

// One step of the `data` field walk per field kind that the converter's
// schema holds but the checked subset skips.

proof fn lemma_data_step_skip_long(b: Seq<u8>, pos: int, nm: Seq<u8>, v: i64, rest: Seq<u8>, acc: DataAcc, fuel: nat)
    requires
        0 <= pos <= b.len(),
        nm.len() <= 0xffff,
        nm != nm_colors(),
        nm != nm_dimension(),
        nm != nm_locked(),
        nm != nm_tracking_position(),
        nm != nm_x_center(),
        nm != nm_z_center(),
        b.subrange(pos, b.len() as int) == enc_long_field(nm, v) + rest,
        fuel >= 2,
    ensures
        parse_data_fields(b, pos, acc, fuel) == parse_data_fields(b, pos + 11 + nm.len(), acc, (fuel - 1) as nat),
        b.subrange(pos + 11 + nm.len(), b.len() as int) == rest,
{
    let payload = enc_u64(v as u64);
    assert(payload.len() == 8);
    lemma_field_header(b, pos, 4u8, nm, payload, rest);
    let vpos = pos + 3 + nm.len();
    assert(skip_payload(b, vpos, 4u8, (fuel - 1) as nat) == Some(vpos + 8));
    lemma_peel(b, vpos, payload, rest);
    assert(parse_data_fields(b, pos, acc, fuel) == parse_data_fields(b, pos + 11 + nm.len(), acc, (fuel - 1) as nat));
}

proof fn lemma_data_step_skip_byte(b: Seq<u8>, pos: int, nm: Seq<u8>, v: i8, rest: Seq<u8>, acc: DataAcc, fuel: nat)
    requires
        0 <= pos <= b.len(),
        nm.len() <= 0xffff,
        nm != nm_colors(),
        nm != nm_dimension(),
        nm != nm_locked(),
        nm != nm_tracking_position(),
        nm != nm_x_center(),
        nm != nm_z_center(),
        b.subrange(pos, b.len() as int) == enc_byte_field(nm, v) + rest,
        fuel >= 2,
    ensures
        parse_data_fields(b, pos, acc, fuel) == parse_data_fields(b, pos + 4 + nm.len(), acc, (fuel - 1) as nat),
        b.subrange(pos + 4 + nm.len(), b.len() as int) == rest,
{
    let payload = seq![v as u8];
    lemma_field_header(b, pos, 1u8, nm, payload, rest);
    let vpos = pos + 3 + nm.len();
    assert(skip_payload(b, vpos, 1u8, (fuel - 1) as nat) == Some(vpos + 1));
    lemma_peel(b, vpos, payload, rest);
    assert(parse_data_fields(b, pos, acc, fuel) == parse_data_fields(b, pos + 4 + nm.len(), acc, (fuel - 1) as nat));
}

proof fn lemma_data_step_skip_elist(b: Seq<u8>, pos: int, nm: Seq<u8>, rest: Seq<u8>, acc: DataAcc, fuel: nat)
    requires
        0 <= pos <= b.len(),
        nm.len() <= 0xffff,
        nm != nm_colors(),
        nm != nm_dimension(),
        nm != nm_locked(),
        nm != nm_tracking_position(),
        nm != nm_x_center(),
        nm != nm_z_center(),
        b.subrange(pos, b.len() as int) == enc_empty_list_field(nm) + rest,
        fuel >= 2,
    ensures
        parse_data_fields(b, pos, acc, fuel) == parse_data_fields(b, pos + 8 + nm.len(), acc, (fuel - 1) as nat),
        b.subrange(pos + 8 + nm.len(), b.len() as int) == rest,
{
    let payload = seq![0u8] + enc_u32(0);
    assert(enc_empty_list_field(nm) =~= (seq![9u8] + enc_name(nm) + payload));
    lemma_field_header(b, pos, 9u8, nm, payload, rest);
    let vpos = pos + 3 + nm.len();
    lemma_peel(b, vpos, payload, rest);
    assert(payload[0] == 0u8);
    assert(b[vpos + 0] == payload[0]);
    assert(b[vpos] == 0u8);
    assert(enc_u32(0).len() == 4);
    assert forall|i: int| 0 <= i < 4 implies b[vpos + 1 + i] == #[trigger] enc_u32(0u32)[i] by {
        assert(b[vpos + 1 + i] == payload[1 + i]);
        assert(payload[1 + i] == enc_u32(0u32)[i]);
    }
    lemma_enc_u32_value(0u32, b, vpos + 1);
    assert(skip_payload(b, vpos, 9u8, (fuel - 1) as nat) == Some(vpos + 5));
    assert(parse_data_fields(b, pos, acc, fuel) == parse_data_fields(b, pos + 8 + nm.len(), acc, (fuel - 1) as nat));
}

// One step per field of the checked subset.

proof fn lemma_data_step_colors(b: Seq<u8>, pos: int, c: Seq<i8>, rest: Seq<u8>, acc: DataAcc, fuel: nat)
    requires
        0 <= pos <= b.len(),
        c.len() <= 0x7fff_ffff,
        b.subrange(pos, b.len() as int) == enc_bytearray_field(nm_colors(), c) + rest,
        acc.colors is None,
        fuel >= 2,
    ensures
        parse_data_fields(b, pos, acc, fuel) == parse_data_fields(b, pos + 13 + c.len(), DataAcc { colors: Some(c), ..acc }, (fuel - 1) as nat),
        b.subrange(pos + 13 + c.len(), b.len() as int) == rest,
{
    lemma_names_distinct();
    let cu = c.map_values(|x: i8| x as u8);
    let payload = enc_u32(c.len() as u32) + cu;
    assert(enc_bytearray_field(nm_colors(), c) =~= (seq![7u8] + enc_name(nm_colors()) + payload));
    lemma_field_header(b, pos, 7u8, nm_colors(), payload, rest);
    let vpos = pos + 9;
    assert(nm_colors().len() == 6);
    lemma_peel(b, vpos, payload, rest);
    assert(enc_u32(c.len() as u32).len() == 4);
    assert forall|i: int| 0 <= i < 4 implies b[vpos + i] == #[trigger] enc_u32(c.len() as u32)[i] by {
        assert(b[vpos + i] == payload[i]);
        assert(payload[i] == enc_u32(c.len() as u32)[i]);
    }
    lemma_enc_u32_value(c.len() as u32, b, vpos);
    assert(be32_at(b, vpos) == c.len());
    assert forall|j: int| 0 <= j < c.len() implies #[trigger] b.subrange(vpos + 4, vpos + 4 + c.len())[j]
        == cu[j] by {
        assert(b.subrange(vpos + 4, vpos + 4 + c.len())[j] == b[vpos + 4 + j]);
        assert(b[vpos + 4 + j] == payload[4 + j]);
        assert(payload[4 + j] == cu[j]);
    }
    assert(b.subrange(vpos + 4, vpos + 4 + c.len()) =~= cu);
    let ci = cu.map_values(|y: u8| y as i8);
    assert forall|j: int| 0 <= j < c.len() implies #[trigger] ci[j] == c[j] by {
        assert(cu[j] == c[j] as u8);
        lemma_i8_roundtrip(c[j]);
    }
    assert(ci =~= c);
    assert(parse_data_fields(b, pos, acc, fuel) == parse_data_fields(b, pos + 13 + c.len(), DataAcc { colors: Some(c), ..acc }, (fuel - 1) as nat));
}

proof fn lemma_data_step_dimension(b: Seq<u8>, pos: int, s: Seq<u8>, rest: Seq<u8>, acc: DataAcc, fuel: nat)
    requires
        0 <= pos <= b.len(),
        s.len() <= 0xffff,
        b.subrange(pos, b.len() as int) == enc_string_field(nm_dimension(), s) + rest,
        acc.dimension is None,
        fuel >= 2,
    ensures
        parse_data_fields(b, pos, acc, fuel) == parse_data_fields(b, pos + 14 + s.len(), DataAcc { dimension: Some(s), ..acc }, (fuel - 1) as nat),
        b.subrange(pos + 14 + s.len(), b.len() as int) == rest,
{
    lemma_names_distinct();
    let payload = enc_u16(s.len() as u16) + s;
    assert(enc_string_field(nm_dimension(), s) =~= (seq![8u8] + enc_name(nm_dimension()) + payload));
    lemma_field_header(b, pos, 8u8, nm_dimension(), payload, rest);
    assert(nm_dimension().len() == 9);
    let vpos = pos + 12;
    lemma_peel(b, vpos, payload, rest);
    assert(payload[0] == enc_u16(s.len() as u16)[0]);
    assert(payload[1] == enc_u16(s.len() as u16)[1]);
    assert(b[vpos + 0] == payload[0]);
    assert(b[vpos + 1] == payload[1]);
    assert(b[vpos] == enc_u16(s.len() as u16)[0]);
    lemma_enc_u16_value(s.len() as u16, b, vpos);
    assert(be16_at(b, vpos) == s.len());
    assert forall|j: int| 0 <= j < s.len() implies #[trigger] b.subrange(vpos + 2, vpos + 2 + s.len())[j]
        == s[j] by {
        assert(b.subrange(vpos + 2, vpos + 2 + s.len())[j] == b[vpos + 2 + j]);
        assert(b[vpos + 2 + j] == payload[2 + j]);
        assert(payload[2 + j] == s[j]);
    }
    assert(b.subrange(vpos + 2, vpos + 2 + s.len()) =~= s);
    assert(parse_data_fields(b, pos, acc, fuel) == parse_data_fields(b, pos + 14 + s.len(), DataAcc { dimension: Some(s), ..acc }, (fuel - 1) as nat));
}

proof fn lemma_data_step_byte_known(b: Seq<u8>, pos: int, nm: Seq<u8>, v: i8, rest: Seq<u8>, acc: DataAcc, fuel: nat)
    requires
        0 <= pos <= b.len(),
        nm == nm_locked() || nm == nm_tracking_position(),
        nm == nm_locked() ==> acc.locked is None,
        nm == nm_tracking_position() ==> acc.tracking_position is None,
        b.subrange(pos, b.len() as int) == enc_byte_field(nm, v) + rest,
        fuel >= 2,
    ensures
        nm == nm_locked() ==> parse_data_fields(b, pos, acc, fuel) == parse_data_fields(b, pos + 4 + nm.len(), DataAcc { locked: Some(v), ..acc }, (fuel - 1) as nat),
        nm == nm_tracking_position() ==> parse_data_fields(b, pos, acc, fuel) == parse_data_fields(b, pos + 4 + nm.len(), DataAcc { tracking_position: Some(v), ..acc }, (fuel - 1) as nat),
        b.subrange(pos + 4 + nm.len(), b.len() as int) == rest,
{
    lemma_names_distinct();
    let payload = seq![v as u8];
    assert(nm.len() <= 16);
    lemma_field_header(b, pos, 1u8, nm, payload, rest);
    let vpos = pos + 3 + nm.len();
    lemma_peel(b, vpos, payload, rest);
    assert(payload[0] == v as u8);
    assert(b[vpos + 0] == payload[0]);
    assert(b[vpos] == v as u8);
    lemma_i8_roundtrip(v);
    assert(as_i8_of(b[vpos] as int) == v);
    if nm == nm_locked() {
        assert(parse_data_fields(b, pos, acc, fuel) == parse_data_fields(b, pos + 4 + nm.len(), DataAcc { locked: Some(v), ..acc }, (fuel - 1) as nat));
    } else {
        assert(parse_data_fields(b, pos, acc, fuel) == parse_data_fields(b, pos + 4 + nm.len(), DataAcc { tracking_position: Some(v), ..acc }, (fuel - 1) as nat));
    }
}

proof fn lemma_data_step_int_known(b: Seq<u8>, pos: int, nm: Seq<u8>, v: i32, rest: Seq<u8>, acc: DataAcc, fuel: nat)
    requires
        0 <= pos <= b.len(),
        nm == nm_x_center() || nm == nm_z_center(),
        nm == nm_x_center() ==> acc.x_center is None,
        nm == nm_z_center() ==> acc.z_center is None,
        b.subrange(pos, b.len() as int) == enc_int_field(nm, v) + rest,
        fuel >= 2,
    ensures
        nm == nm_x_center() ==> parse_data_fields(b, pos, acc, fuel) == parse_data_fields(b, pos + 7 + nm.len(), DataAcc { x_center: Some(v), ..acc }, (fuel - 1) as nat),
        nm == nm_z_center() ==> parse_data_fields(b, pos, acc, fuel) == parse_data_fields(b, pos + 7 + nm.len(), DataAcc { z_center: Some(v), ..acc }, (fuel - 1) as nat),
        b.subrange(pos + 7 + nm.len(), b.len() as int) == rest,
{
    lemma_names_distinct();
    let payload = enc_u32(v as u32);
    assert(payload.len() == 4);
    assert(nm.len() == 7);
    lemma_field_header(b, pos, 3u8, nm, payload, rest);
    let vpos = pos + 3 + nm.len();
    lemma_peel(b, vpos, payload, rest);
    assert forall|i: int| 0 <= i < 4 implies b[vpos + i] == #[trigger] enc_u32(v as u32)[i] by {
        assert(b[vpos + i] == payload[i]);
    }
    lemma_enc_u32_value(v as u32, b, vpos);
    lemma_i32_roundtrip(v);
    assert(as_i32_of(be32_at(b, vpos)) == v);
    if nm == nm_x_center() {
        assert(parse_data_fields(b, pos, acc, fuel) == parse_data_fields(b, pos + 7 + nm.len(), DataAcc { x_center: Some(v), ..acc }, (fuel - 1) as nat));
    } else {
        assert(parse_data_fields(b, pos, acc, fuel) == parse_data_fields(b, pos + 7 + nm.len(), DataAcc { z_center: Some(v), ..acc }, (fuel - 1) as nat));
    }
}

proof fn lemma_data_end(b: Seq<u8>, pos: int, rest: Seq<u8>, acc: DataAcc, fuel: nat)
    requires
        0 <= pos <= b.len(),
        b.subrange(pos, b.len() as int) == seq![0u8] + rest,
        fuel >= 1,
    ensures
        parse_data_fields(b, pos, acc, fuel) == Some((pos + 1, acc)),
        b.subrange(pos + 1, b.len() as int) == rest,
{
    lemma_peel(b, pos, seq![0u8], rest);
    assert(seq![0u8][0] == 0u8);
    assert(b[pos + 0] == seq![0u8][0]);
    assert(b[pos] == 0u8);
    assert(parse_data_fields(b, pos, acc, fuel) == Some((pos + 1, acc)));
}

/// The accumulator that reading a full body leaves behind.
pub open spec fn data_acc_of(d: MapDataV) -> DataAcc {
    DataAcc {
        colors: Some(d.colors),
        dimension: Some(d.dimension),
        locked: Some(d.locked),
        tracking_position: Some(d.tracking_position),
        x_center: Some(d.x_center),
        z_center: Some(d.z_center),
    }
}

/// Walking the whole `data` payload reads exactly the checked fields.
#[verifier::rlimit(100)]
proof fn lemma_parse_data_payload(b: Seq<u8>, pos: int, d: MapDataV, rest: Seq<u8>, fuel: nat)
    requires
        0 <= pos <= b.len(),
        d.wf(),
        b.subrange(pos, b.len() as int) == enc_data_payload(d) + rest,
        fuel >= 14,
    ensures
        parse_data_fields(b, pos, data_acc_empty(), fuel) == Some((pos + enc_data_payload(d).len(), data_acc_of(d))),
        b.subrange(pos + enc_data_payload(d).len(), b.len() as int) == rest,
        enc_data_payload(d).len() == 184 + d.colors.len() + d.dimension.len(),
{
    lemma_names_distinct();
    let f1 = enc_long_field(nm_uuid_least(), d.uuid_least);
    let f2 = enc_long_field(nm_uuid_most(), d.uuid_most);
    let f3 = enc_empty_list_field(nm_banners());
    let f4 = enc_bytearray_field(nm_colors(), d.colors);
    let f5 = enc_string_field(nm_dimension(), d.dimension);
    let f6 = enc_empty_list_field(nm_frames());
    let f7 = enc_byte_field(nm_locked(), d.locked);
    let f8 = enc_byte_field(nm_scale(), d.scale);
    let f9 = enc_byte_field(nm_tracking_position(), d.tracking_position);
    let f10 = enc_byte_field(nm_unlimited_tracking(), d.unlimited_tracking);
    let f11 = enc_int_field(nm_x_center(), d.x_center);
    let f12 = enc_int_field(nm_z_center(), d.z_center);
    let e = seq![0u8];
    let w1 = f1;
    let w2 = w1 + f2;
    let w3 = w2 + f3;
    let w4 = w3 + f4;
    let w5 = w4 + f5;
    let w6 = w5 + f6;
    let w7 = w6 + f7;
    let w8 = w7 + f8;
    let w9 = w8 + f9;
    let w10 = w9 + f10;
    let w11 = w10 + f11;
    let w12 = w11 + f12;
    assert(enc_data_payload(d) == w12 + e);
    let g13 = rest;
    let g12 = e + g13;
    let g11 = f12 + g12;
    let g10 = f11 + g11;
    let g9 = f10 + g10;
    let g8 = f9 + g9;
    let g7 = f8 + g8;
    let g6 = f7 + g7;
    let g5 = f6 + g6;
    let g4 = f5 + g5;
    let g3 = f4 + g4;
    let g2 = f3 + g3;
    let g1 = f2 + g2;
    lemma_assoc(w12, e, g13);
    lemma_assoc(w11, f12, g12);
    lemma_assoc(w10, f11, g11);
    lemma_assoc(w9, f10, g10);
    lemma_assoc(w8, f9, g9);
    lemma_assoc(w7, f8, g8);
    lemma_assoc(w6, f7, g7);
    lemma_assoc(w5, f6, g6);
    lemma_assoc(w4, f5, g5);
    lemma_assoc(w3, f4, g4);
    lemma_assoc(w2, f3, g3);
    lemma_assoc(w1, f2, g2);
    assert(b.subrange(pos, b.len() as int) == f1 + g1);
    let acc0 = data_acc_empty();
    let q1 = pos + 20;
    lemma_data_step_skip_long(b, pos, nm_uuid_least(), d.uuid_least, g1, acc0, fuel);
    let q2 = q1 + 19;
    lemma_data_step_skip_long(b, q1, nm_uuid_most(), d.uuid_most, g2, acc0, (fuel - 1) as nat);
    let q3 = q2 + 15;
    lemma_data_step_skip_elist(b, q2, nm_banners(), g3, acc0, (fuel - 2) as nat);
    let q4 = q3 + 13 + d.colors.len();
    lemma_data_step_colors(b, q3, d.colors, g4, acc0, (fuel - 3) as nat);
    let acc4 = DataAcc { colors: Some(d.colors), ..acc0 };
    let q5 = q4 + 14 + d.dimension.len();
    lemma_data_step_dimension(b, q4, d.dimension, g5, acc4, (fuel - 4) as nat);
    let acc5 = DataAcc { dimension: Some(d.dimension), ..acc4 };
    let q6 = q5 + 14;
    lemma_data_step_skip_elist(b, q5, nm_frames(), g6, acc5, (fuel - 5) as nat);
    let q7 = q6 + 10;
    lemma_data_step_byte_known(b, q6, nm_locked(), d.locked, g7, acc5, (fuel - 6) as nat);
    let acc7 = DataAcc { locked: Some(d.locked), ..acc5 };
    let q8 = q7 + 9;
    lemma_data_step_skip_byte(b, q7, nm_scale(), d.scale, g8, acc7, (fuel - 7) as nat);
    let q9 = q8 + 20;
    lemma_data_step_byte_known(b, q8, nm_tracking_position(), d.tracking_position, g9, acc7, (fuel - 8) as nat);
    let acc9 = DataAcc { tracking_position: Some(d.tracking_position), ..acc7 };
    let q10 = q9 + 21;
    lemma_data_step_skip_byte(b, q9, nm_unlimited_tracking(), d.unlimited_tracking, g10, acc9, (fuel - 9) as nat);
    let q11 = q10 + 14;
    lemma_data_step_int_known(b, q10, nm_x_center(), d.x_center, g11, acc9, (fuel - 10) as nat);
    let acc11 = DataAcc { x_center: Some(d.x_center), ..acc9 };
    let q12 = q11 + 14;
    lemma_data_step_int_known(b, q11, nm_z_center(), d.z_center, g12, acc11, (fuel - 11) as nat);
    let acc12 = DataAcc { z_center: Some(d.z_center), ..acc11 };
    lemma_data_end(b, q12, g13, acc12, (fuel - 12) as nat);
    assert(acc12 == data_acc_of(d));
    assert(parse_data_fields(b, pos, acc0, fuel) == Some((q12 + 1, acc12)));
    assert(q12 + 1 == pos + enc_data_payload(d).len());
}

// Root compound steps.

proof fn lemma_root_step_dataversion(b: Seq<u8>, pos: int, v: i32, rest: Seq<u8>, acc: RootAcc, fuel: nat)
    requires
        0 <= pos <= b.len(),
        acc.data_version is None,
        b.subrange(pos, b.len() as int) == enc_int_field(nm_data_version(), v) + rest,
        fuel >= 2,
    ensures
        parse_root_fields(b, pos, acc, fuel) == parse_root_fields(b, pos + 18, RootAcc { data_version: Some(v), ..acc }, (fuel - 1) as nat),
        b.subrange(pos + 18, b.len() as int) == rest,
{
    let payload = enc_u32(v as u32);
    assert(payload.len() == 4);
    assert(nm_data_version().len() == 11);
    lemma_field_header(b, pos, 3u8, nm_data_version(), payload, rest);
    let vpos = pos + 14;
    lemma_peel(b, vpos, payload, rest);
    assert forall|i: int| 0 <= i < 4 implies b[vpos + i] == #[trigger] enc_u32(v as u32)[i] by {
        assert(b[vpos + i] == payload[i]);
    }
    lemma_enc_u32_value(v as u32, b, vpos);
    lemma_i32_roundtrip(v);
    assert(as_i32_of(be32_at(b, vpos)) == v);
    assert(parse_root_fields(b, pos, acc, fuel) == parse_root_fields(b, pos + 18, RootAcc { data_version: Some(v), ..acc }, (fuel - 1) as nat));
}

proof fn lemma_root_step_data(b: Seq<u8>, pos: int, payload: Seq<u8>, rest: Seq<u8>, dacc: DataAcc, acc: RootAcc, fuel: nat)
    requires
        0 <= pos <= b.len(),
        acc.data is None,
        b.subrange(pos, b.len() as int) == (seq![10u8] + enc_name(nm_data()) + payload) + rest,
        fuel >= 2,
        parse_data_fields(b, pos + 7, data_acc_empty(), (fuel - 1) as nat) == Some(
            (pos + 7 + payload.len(), dacc),
        ),
        data_complete(dacc),
    ensures
        parse_root_fields(b, pos, acc, fuel) == parse_root_fields(b, pos + 7 + payload.len(), RootAcc { data: Some(dacc), ..acc }, (fuel - 1) as nat),
        b.subrange(pos + 7 + payload.len(), b.len() as int) == rest,
{
    lemma_names_distinct();
    assert(nm_data().len() == 4);
    lemma_field_header(b, pos, 10u8, nm_data(), payload, rest);
    lemma_peel(b, pos + 7, payload, rest);
    assert(parse_root_fields(b, pos, acc, fuel) == parse_root_fields(b, pos + 7 + payload.len(), RootAcc { data: Some(dacc), ..acc }, (fuel - 1) as nat));
}

proof fn lemma_root_end(b: Seq<u8>, pos: int, rest: Seq<u8>, acc: RootAcc, fuel: nat)
    requires
        0 <= pos <= b.len(),
        b.subrange(pos, b.len() as int) == seq![0u8] + rest,
        fuel >= 1,
    ensures
        parse_root_fields(b, pos, acc, fuel) == Some((pos + 1, acc)),
        b.subrange(pos + 1, b.len() as int) == rest,
{
    lemma_peel(b, pos, seq![0u8], rest);
    assert(seq![0u8][0] == 0u8);
    assert(b[pos + 0] == seq![0u8][0]);
    assert(b[pos] == 0u8);
    assert(parse_root_fields(b, pos, acc, fuel) == Some((pos + 1, acc)));
}

proof fn lemma_record_regroup(r: MapRecordV)
    ensures
        enc_record(r) == seq![10u8] + (enc_name(Seq::<u8>::empty()) + (enc_int_field(
            nm_data_version(),
            r.data_version,
        ) + (seq![10u8] + (enc_name(nm_data()) + (enc_data_payload(r.data) + seq![0u8]))))),
{
    let a0 = seq![10u8];
    let n0 = enc_name(Seq::<u8>::empty());
    let fdv = enc_int_field(nm_data_version(), r.data_version);
    let t = seq![10u8];
    let nd = enc_name(nm_data());
    let dp = enc_data_payload(r.data);
    let e = seq![0u8];
    let w1 = a0;
    let w2 = w1 + n0;
    let w3 = w2 + fdv;
    let w4 = w3 + t;
    let w5 = w4 + nd;
    let w6 = w5 + dp;
    assert(enc_record(r) == w6 + e);
    let g6 = e;
    let g5 = dp + g6;
    let g4 = nd + g5;
    let g3 = t + g4;
    let g2 = fdv + g3;
    let g1 = n0 + g2;
    lemma_assoc(w5, dp, e);
    lemma_assoc(w4, nd, g5);
    lemma_assoc(w3, t, g4);
    lemma_assoc(w2, fdv, g3);
    lemma_assoc(w1, n0, g2);
}

proof fn lemma_dp_len(d: MapDataV)
    ensures
        enc_data_payload(d).len() == 184 + d.colors.len() + d.dimension.len(),
{
    assert(enc_long_field(nm_uuid_least(), d.uuid_least).len() == 20);
    assert(enc_long_field(nm_uuid_most(), d.uuid_most).len() == 19);
    assert(enc_empty_list_field(nm_banners()).len() == 15);
    assert(enc_bytearray_field(nm_colors(), d.colors).len() == 13 + d.colors.len());
    assert(enc_string_field(nm_dimension(), d.dimension).len() == 14 + d.dimension.len());
    assert(enc_empty_list_field(nm_frames()).len() == 14);
    assert(enc_byte_field(nm_locked(), d.locked).len() == 10);
    assert(enc_byte_field(nm_scale(), d.scale).len() == 9);
    assert(enc_byte_field(nm_tracking_position(), d.tracking_position).len() == 20);
    assert(enc_byte_field(nm_unlimited_tracking(), d.unlimited_tracking).len() == 21);
    assert(enc_int_field(nm_x_center(), d.x_center).len() == 14);
    assert(enc_int_field(nm_z_center(), d.z_center).len() == 14);
}

#[verifier::rlimit(100)]
proof fn lemma_root_walk_head(b: Seq<u8>, r: MapRecordV)
    requires
        b == enc_record(r),
    ensures
        b[0] == 10u8,
        be16_at(b, 1) == 0,
        b.len() == 29 + enc_data_payload(r.data).len(),
        3 <= b.len(),
        b.subrange(3, b.len() as int) == enc_int_field(nm_data_version(), r.data_version) + (
        seq![10u8] + (enc_name(nm_data()) + (enc_data_payload(r.data) + seq![0u8]))),
{
    let a0 = seq![10u8];
    let n0 = enc_name(Seq::<u8>::empty());
    let fdv = enc_int_field(nm_data_version(), r.data_version);
    let t = seq![10u8];
    let nd = enc_name(nm_data());
    let dp = enc_data_payload(r.data);
    let e = seq![0u8];
    let g6 = e;
    let g5 = dp + g6;
    let g4 = nd + g5;
    let g3 = t + g4;
    let g2 = fdv + g3;
    let g1 = n0 + g2;
    lemma_record_regroup(r);
    assert(b == a0 + g1);
    assert(b.subrange(0, b.len() as int) =~= b);
    lemma_peel(b, 0, a0, g1);
    assert(a0[0] == 10u8);
    assert(b[0int + 0] == a0[0]);
    assert(b[0] == 10u8);
    assert(n0 == enc_u16(0u16) + Seq::<u8>::empty());
    assert(n0.len() == 2);
    lemma_peel(b, 1, n0, g2);
    assert(n0[0] == enc_u16(0u16)[0]);
    assert(n0[1] == enc_u16(0u16)[1]);
    assert(b[1int + 0] == n0[0]);
    assert(b[1int + 1] == n0[1]);
    assert(b[1] == enc_u16(0u16)[0]);
    assert(b[2] == enc_u16(0u16)[1]);
    lemma_enc_u16_value(0u16, b, 1);
    assert(be16_at(b, 1) == 0);
    assert(fdv.len() == 18);
    assert(nd.len() == 6);
    assert(b.subrange(3, b.len() as int) == g2);
}

#[verifier::rlimit(100)]
proof fn lemma_root_walk_fields(b: Seq<u8>, r: MapRecordV)
    requires
        r.wf(),
        b.len() == 29 + enc_data_payload(r.data).len(),
        b.subrange(3, b.len() as int) == enc_int_field(nm_data_version(), r.data_version) + (
        seq![10u8] + (enc_name(nm_data()) + (enc_data_payload(r.data) + seq![0u8]))),
    ensures
        parse_root_fields(
            b,
            3,
            RootAcc { data_version: None, data: None },
            (b.len() + 2) as nat,
        ) == Some(
            (
                b.len() as int,
                RootAcc {
                    data_version: Some(r.data_version),
                    data: Some(data_acc_of(r.data)),
                },
            ),
        ),
{
    let t = seq![10u8];
    let nd = enc_name(nm_data());
    let dp = enc_data_payload(r.data);
    let e = seq![0u8];
    let g6 = e;
    let g5 = dp + g6;
    let g4 = nd + g5;
    let g3 = t + g4;
    let fuel = (b.len() + 2) as nat;
    let acc0 = RootAcc { data_version: None, data: None };
    lemma_root_step_dataversion(b, 3, r.data_version, g3, acc0, fuel);
    let acc1 = RootAcc { data_version: Some(r.data_version), ..acc0 };
    lemma_assoc(t, nd, g5);
    lemma_assoc(t + nd, dp, e);
    assert(((t + nd) + dp) + e == g3);
    assert(b.subrange(21, b.len() as int) == ((t + nd) + dp) + e);
    lemma_field_header(b, 21, 10u8, nm_data(), dp, e);
    assert(b.len() == 29 + dp.len());
    lemma_parse_data_payload(b, 28, r.data, e, (fuel - 2) as nat);
    let dacc = data_acc_of(r.data);
    assert((((fuel - 1) as nat) - 1) as nat == (fuel - 2) as nat);
    lemma_root_step_data(b, 21, dp, e, dacc, acc1, (fuel - 1) as nat);
    let acc2 = RootAcc { data: Some(dacc), ..acc1 };
    assert(e =~= seq![0u8] + Seq::<u8>::empty());
    lemma_root_end(b, 28 + dp.len() as int, Seq::<u8>::empty(), acc2, (fuel - 2) as nat);
    assert(parse_root_fields(b, 3, acc0, fuel) == Some((b.len() as int, acc2)));
    assert(acc2 == (RootAcc { data_version: Some(r.data_version), data: Some(dacc) }));
}

/// Round trip: decoding an encoded record yields exactly the checked subset
/// of its fields, for every well-formed record.
#[verifier::rlimit(100)]
#[verifier::spinoff_prover]
pub proof fn lemma_decode_encode(r: MapRecordV)
    requires
        r.wf(),
    ensures
        parse_record(enc_record(r)) == Some(subset_of(r)),
        enc_record(r).len() == 213 + r.data.colors.len() + r.data.dimension.len(),
{
    let b = enc_record(r);
    lemma_root_walk_head(b, r);
    lemma_root_walk_fields(b, r);
    lemma_dp_len(r.data);
    let dacc = data_acc_of(r.data);
    assert(parse_record(b) == Some(data_subset(r.data_version, dacc)));
    assert(data_subset(r.data_version, dacc) == subset_of(r));
}

/// A compressed stream that holds an encoded record is classified valid
/// exactly when the record's color array has 16384 entries.
#[verifier::rlimit(100)]
#[verifier::spinoff_prover]
pub proof fn lemma_encoded_valid_iff(r: MapRecordV, z: Seq<u8>)
    requires
        r.wf(),
        gunzip_of(z) == Some(enc_record(r)),
    ensures
        valid_record_bytes(z) <==> r.data.colors.len() == 16384,
        parse_record(gunzip_of(z).unwrap()) == Some(subset_of(r)),
{
    lemma_decode_encode(r);
}

/// The synthesized record's checked subset is the sentinel center, locked
/// flag, tracking flag, primary world, and the raw grid reinterpreted as
/// signed bytes.
pub proof fn lemma_converted_subset(raw: Seq<u8>, most: i64, least: i64)
    ensures
        subset_of(converted_record(raw, most, least)) == (MapSubsetV {
            data_version: 3465,
            colors: raw.map_values(|x: u8| x as i8),
            dimension: overworld_name(),
            locked: 1,
            tracking_position: 0,
            x_center: 64000000,
            z_center: 64000000,
        }),
{
}

/// A synthesized record is well formed whenever its raw grid fits the byte
/// array's 32-bit length field.
pub proof fn lemma_converted_wf(raw: Seq<u8>, most: i64, least: i64)
    requires
        raw.len() <= 0x7fff_ffff,
    ensures
        converted_record(raw, most, least).wf(),
        converted_record(raw, most, least).data.colors.len() == raw.len(),
{
    assert(converted_record(raw, most, least).data.dimension.len() == 19);
}

/// What the converter writes decodes back to exactly the synthesized
/// record's checked subset.
#[verifier::rlimit(100)]
#[verifier::spinoff_prover]
pub proof fn lemma_converted_decodes(raw: Seq<u8>, most: i64, least: i64, z: Seq<u8>)
    requires
        raw.len() <= 0x7fff_ffff,
        gunzip_of(z) == Some(enc_record(converted_record(raw, most, least))),
    ensures
        parse_record(gunzip_of(z).unwrap()) == Some(subset_of(converted_record(raw, most, least))),
{
    lemma_converted_wf(raw, most, least);
    lemma_encoded_valid_iff(converted_record(raw, most, least), z);
}

/// What the converter writes is a valid record file exactly when the raw
/// input held 16384 bytes.
#[verifier::rlimit(100)]
#[verifier::spinoff_prover]
pub proof fn lemma_converted_valid_iff(raw: Seq<u8>, most: i64, least: i64, z: Seq<u8>)
    requires
        raw.len() <= 0x7fff_ffff,
        gunzip_of(z) == Some(enc_record(converted_record(raw, most, least))),
    ensures
        valid_record_bytes(z) <==> raw.len() == 16384,
{
    lemma_converted_wf(raw, most, least);
    lemma_encoded_valid_iff(converted_record(raw, most, least), z);
}

} // verus!
