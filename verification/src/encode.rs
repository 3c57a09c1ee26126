use vstd::prelude::*;
use crate::bytes::{enc_u16, enc_u32, enc_u64, push_u16, push_u32, push_u64};
use crate::names::{
    nm_banners, nm_banners_bytes, nm_colors, nm_colors_bytes, nm_data, nm_data_bytes,
    nm_data_version, nm_data_version_bytes, nm_dimension, nm_dimension_bytes, nm_frames,
    nm_frames_bytes, nm_locked, nm_locked_bytes, nm_scale, nm_scale_bytes, nm_tracking_position,
    nm_tracking_position_bytes, nm_unlimited_tracking, nm_unlimited_tracking_bytes, nm_uuid_least,
    nm_uuid_least_bytes, nm_uuid_most, nm_uuid_most_bytes, nm_x_center, nm_x_center_bytes,
    nm_z_center, nm_z_center_bytes,
};
use crate::record::{MapDataV, MapRecord, MapRecordV};

verus! {

// Byte images of single named fields of the tag tree, and of the whole
// record. Tag numbers: 1 byte, 3 int, 4 long, 7 byte array, 8 string,
// 9 list, 10 compound, 0 end.

pub open spec fn enc_name(nm: Seq<u8>) -> Seq<u8>
    recommends
        nm.len() <= 0xffff,
{
    enc_u16(nm.len() as u16) + nm
}

pub open spec fn enc_byte_field(nm: Seq<u8>, v: i8) -> Seq<u8> {
    seq![1u8] + enc_name(nm) + seq![v as u8]
}

pub open spec fn enc_int_field(nm: Seq<u8>, v: i32) -> Seq<u8> {
    seq![3u8] + enc_name(nm) + enc_u32(v as u32)
}

pub open spec fn enc_long_field(nm: Seq<u8>, v: i64) -> Seq<u8> {
    seq![4u8] + enc_name(nm) + enc_u64(v as u64)
}

pub open spec fn enc_bytearray_field(nm: Seq<u8>, v: Seq<i8>) -> Seq<u8>
    recommends
        v.len() <= 0x7fff_ffff,
{
    seq![7u8] + enc_name(nm) + enc_u32(v.len() as u32) + v.map_values(|x: i8| x as u8)
}

pub open spec fn enc_string_field(nm: Seq<u8>, v: Seq<u8>) -> Seq<u8>
    recommends
        v.len() <= 0xffff,
{
    seq![8u8] + enc_name(nm) + enc_u16(v.len() as u16) + v
}

/// An empty list field: element type `end` (0) and element count 0.
pub open spec fn enc_empty_list_field(nm: Seq<u8>) -> Seq<u8> {
    seq![9u8] + enc_name(nm) + seq![0u8] + enc_u32(0)
}

/// Payload of the `data` compound: its fields in the order the schema fixes,
/// closed by the end tag.
pub open spec fn enc_data_payload(d: MapDataV) -> Seq<u8> {
    enc_long_field(nm_uuid_least(), d.uuid_least) + enc_long_field(nm_uuid_most(), d.uuid_most)
        + enc_empty_list_field(nm_banners()) + enc_bytearray_field(nm_colors(), d.colors)
        + enc_string_field(nm_dimension(), d.dimension) + enc_empty_list_field(nm_frames())
        + enc_byte_field(nm_locked(), d.locked) + enc_byte_field(nm_scale(), d.scale)
        + enc_byte_field(nm_tracking_position(), d.tracking_position)
        + enc_byte_field(nm_unlimited_tracking(), d.unlimited_tracking)
        + enc_int_field(nm_x_center(), d.x_center) + enc_int_field(nm_z_center(), d.z_center)
        + seq![0u8]
}

/// The whole serialized record: an unnamed root compound holding the
/// `DataVersion` field and the named `data` compound.
pub open spec fn enc_record(r: MapRecordV) -> Seq<u8> {
    seq![10u8] + enc_name(Seq::<u8>::empty()) + enc_int_field(nm_data_version(), r.data_version)
        + seq![10u8] + enc_name(nm_data()) + enc_data_payload(r.data) + seq![0u8]
}

// Executable writers, each appending exactly the image above.

fn push_bytes(out: &mut Vec<u8>, src: &Vec<u8>)
    ensures
        final(out)@ == old(out)@ + src@,
{
    let n: usize = src.len();
    let mut i: usize = 0;
    while i < n
        invariant
            n == src@.len(),
            0 <= i <= n,
            out@ == old(out)@ + src@.take(i as int),
        decreases n - i,
    {
        out.push(src[i]);
        proof {
            assert(src@.take(i as int).push(src@[i as int]) =~= src@.take(i + 1));
        }
        i = i + 1;
    }
    assert(src@.take(n as int) =~= src@);
}

fn push_colors(out: &mut Vec<u8>, src: &Vec<i8>)
    ensures
        final(out)@ == old(out)@ + src@.map_values(|x: i8| x as u8),
{
    let n: usize = src.len();
    let mut i: usize = 0;
    while i < n
        invariant
            n == src@.len(),
            0 <= i <= n,
            out@ == old(out)@ + src@.take(i as int).map_values(|x: i8| x as u8),
        decreases n - i,
    {
        out.push(#[verifier::truncate] (src[i] as u8));
        proof {
            assert(src@.take(i as int).map_values(|x: i8| x as u8).push(
                (src@[i as int]) as u8,
            ) =~= src@.take(i + 1).map_values(|x: i8| x as u8));
        }
        i = i + 1;
    }
    assert(src@.take(n as int).map_values(|x: i8| x as u8) =~= src@.map_values(|x: i8| x as u8));
}

fn push_name(out: &mut Vec<u8>, nm: &Vec<u8>)
    requires
        nm@.len() <= 0xffff,
    ensures
        final(out)@ == old(out)@ + enc_name(nm@),
{
    push_u16(out, nm.len() as u16);
    push_bytes(out, nm);
}

fn push_byte_field(out: &mut Vec<u8>, nm: &Vec<u8>, v: i8)
    requires
        nm@.len() <= 0xffff,
    ensures
        final(out)@ == old(out)@ + enc_byte_field(nm@, v),
{
    out.push(1u8);
    assert(out@ =~= old(out)@ + seq![1u8]);
    push_name(out, nm);
    out.push(#[verifier::truncate] (v as u8));
    assert(out@ =~= old(out)@ + enc_byte_field(nm@, v));
}

fn push_int_field(out: &mut Vec<u8>, nm: &Vec<u8>, v: i32)
    requires
        nm@.len() <= 0xffff,
    ensures
        final(out)@ == old(out)@ + enc_int_field(nm@, v),
{
    out.push(3u8);
    assert(out@ =~= old(out)@ + seq![3u8]);
    push_name(out, nm);
    push_u32(out, #[verifier::truncate] (v as u32));
    assert(out@ =~= old(out)@ + enc_int_field(nm@, v));
}

fn push_long_field(out: &mut Vec<u8>, nm: &Vec<u8>, v: i64)
    requires
        nm@.len() <= 0xffff,
    ensures
        final(out)@ == old(out)@ + enc_long_field(nm@, v),
{
    out.push(4u8);
    assert(out@ =~= old(out)@ + seq![4u8]);
    push_name(out, nm);
    push_u64(out, #[verifier::truncate] (v as u64));
    assert(out@ =~= old(out)@ + enc_long_field(nm@, v));
}

fn push_bytearray_field(out: &mut Vec<u8>, nm: &Vec<u8>, v: &Vec<i8>)
    requires
        nm@.len() <= 0xffff,
        v@.len() <= 0x7fff_ffff,
    ensures
        final(out)@ == old(out)@ + enc_bytearray_field(nm@, v@),
{
    out.push(7u8);
    assert(out@ =~= old(out)@ + seq![7u8]);
    push_name(out, nm);
    push_u32(out, v.len() as u32);
    push_colors(out, v);
    assert(out@ =~= old(out)@ + enc_bytearray_field(nm@, v@));
}

fn push_string_field(out: &mut Vec<u8>, nm: &Vec<u8>, v: &Vec<u8>)
    requires
        nm@.len() <= 0xffff,
        v@.len() <= 0xffff,
    ensures
        final(out)@ == old(out)@ + enc_string_field(nm@, v@),
{
    out.push(8u8);
    assert(out@ =~= old(out)@ + seq![8u8]);
    push_name(out, nm);
    push_u16(out, v.len() as u16);
    push_bytes(out, v);
    assert(out@ =~= old(out)@ + enc_string_field(nm@, v@));
}

fn push_empty_list_field(out: &mut Vec<u8>, nm: &Vec<u8>)
    requires
        nm@.len() <= 0xffff,
    ensures
        final(out)@ == old(out)@ + enc_empty_list_field(nm@),
{
    out.push(9u8);
    assert(out@ =~= old(out)@ + seq![9u8]);
    push_name(out, nm);
    out.push(0u8);
    assert(out@ =~= old(out)@ + seq![9u8] + enc_name(nm@) + seq![0u8]);
    push_u32(out, 0u32);
    assert(out@ =~= old(out)@ + enc_empty_list_field(nm@));
}

/// Serialize a record to the uncompressed tag-tree byte form, field names and
/// order exactly as the target schema fixes them.
pub fn encode_record(r: &MapRecord) -> (out: Vec<u8>)
    requires
        r@.wf(),
    ensures
        out@ == enc_record(r@),
{
    let mut out: Vec<u8> = Vec::new();
    out.push(10u8);
    assert(out@ =~= Seq::<u8>::empty() + seq![10u8]);
    push_u16(&mut out, 0u16);
    proof {
        assert(enc_name(Seq::<u8>::empty()) =~= enc_u16(0u16));
        assert(Seq::<u8>::empty() + seq![10u8] =~= seq![10u8]);
    }
    let nm0 = nm_data_version_bytes();
    push_int_field(&mut out, &nm0, r.data_version);
    out.push(10u8);
    assert(out@ =~= seq![10u8] + enc_name(Seq::<u8>::empty()) + enc_int_field(
        nm_data_version(),
        r@.data_version,
    ) + seq![10u8]);
    let nm1 = nm_data_bytes();
    push_name(&mut out, &nm1);
    let ghost head = seq![10u8] + enc_name(Seq::<u8>::empty()) + enc_int_field(
        nm_data_version(),
        r@.data_version,
    ) + seq![10u8] + enc_name(nm_data());
    assert(out@ == head);
    let nm2 = nm_uuid_least_bytes();
    push_long_field(&mut out, &nm2, r.data.uuid_least);
    let nm3 = nm_uuid_most_bytes();
    push_long_field(&mut out, &nm3, r.data.uuid_most);
    let nm4 = nm_banners_bytes();
    push_empty_list_field(&mut out, &nm4);
    let nm5 = nm_colors_bytes();
    push_bytearray_field(&mut out, &nm5, &r.data.colors);
    let nm6 = nm_dimension_bytes();
    push_string_field(&mut out, &nm6, &r.data.dimension);
    let nm7 = nm_frames_bytes();
    push_empty_list_field(&mut out, &nm7);
    let nm8 = nm_locked_bytes();
    push_byte_field(&mut out, &nm8, r.data.locked);
    let nm9 = nm_scale_bytes();
    push_byte_field(&mut out, &nm9, r.data.scale);
    let nm10 = nm_tracking_position_bytes();
    push_byte_field(&mut out, &nm10, r.data.tracking_position);
    let nm11 = nm_unlimited_tracking_bytes();
    push_byte_field(&mut out, &nm11, r.data.unlimited_tracking);
    let nm12 = nm_x_center_bytes();
    push_int_field(&mut out, &nm12, r.data.x_center);
    let nm13 = nm_z_center_bytes();
    push_int_field(&mut out, &nm13, r.data.z_center);
    out.push(0u8);
    assert(out@ =~= head + enc_data_payload(r@.data));
    out.push(0u8);
    assert(out@ =~= enc_record(r@));
    out
}

} // verus!
