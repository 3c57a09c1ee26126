use vstd::prelude::*;

verus! {

// Big-endian byte images of the fixed-width integers the tag tree stores,
// written as base-256 digits so that plain integer arithmetic decides them.

pub open spec fn enc_u16(x: u16) -> Seq<u8> {
    seq![(x / 256) as u8, (x % 256) as u8]
}

pub open spec fn enc_u32(x: u32) -> Seq<u8> {
    enc_u16((x / 0x10000) as u16) + enc_u16((x % 0x10000) as u16)
}

pub open spec fn enc_u64(x: u64) -> Seq<u8> {
    enc_u32((x / 0x1_0000_0000) as u32) + enc_u32((x % 0x1_0000_0000) as u32)
}

// Reading the same integers back out of a byte sequence, as mathematical
// values (the caller interprets signedness).

pub open spec fn be16_at(b: Seq<u8>, pos: int) -> int
    recommends 0 <= pos, pos + 2 <= b.len(),
{
    b[pos] * 256 + b[pos + 1]
}

pub open spec fn be32_at(b: Seq<u8>, pos: int) -> int
    recommends 0 <= pos, pos + 4 <= b.len(),
{
    be16_at(b, pos) * 0x10000 + be16_at(b, pos + 2)
}

// Reading the big-endian digits of a value back gives the value.

pub proof fn lemma_enc_u16_value(x: u16, b: Seq<u8>, pos: int)
    requires
        0 <= pos,
        pos + 2 <= b.len(),
        b[pos] == enc_u16(x)[0],
        b[pos + 1] == enc_u16(x)[1],
    ensures
        be16_at(b, pos) == x,
{
    assert(x / 256 < 256);
    assert((x / 256) * 256 + (x % 256) == x);
}

pub proof fn lemma_enc_u32_value(x: u32, b: Seq<u8>, pos: int)
    requires
        0 <= pos,
        pos + 4 <= b.len(),
        forall|i: int| 0 <= i < 4 ==> b[pos + i] == enc_u32(x)[i],
    ensures
        be32_at(b, pos) == x,
{
    let hi = (x / 0x10000) as u16;
    let lo = (x % 0x10000) as u16;
    assert(x / 0x10000 < 0x10000);
    assert(enc_u32(x)[0] == enc_u16(hi)[0]);
    assert(enc_u32(x)[1] == enc_u16(hi)[1]);
    assert(enc_u32(x)[2] == enc_u16(lo)[0]);
    assert(enc_u32(x)[3] == enc_u16(lo)[1]);
    lemma_enc_u16_value(hi, b, pos);
    lemma_enc_u16_value(lo, b, pos + 2);
    assert((x / 0x10000) * 0x10000 + (x % 0x10000) == x);
}

// Sign round trips between the stored unsigned image and the schema's
// signed field types.

pub proof fn lemma_i32_roundtrip(v: i32)
    ensures
        (v as u32) as i32 == v,
{
    assert((v as u32) as i32 == v) by (bit_vector);
}

pub proof fn lemma_i8_roundtrip(v: i8)
    ensures
        (v as u8) as i8 == v,
{
    assert((v as u8) as i8 == v) by (bit_vector);
}

// Executable writers; each appends exactly the spec image.

pub fn push_u16(out: &mut Vec<u8>, x: u16)
    ensures
        final(out)@ == old(out)@ + enc_u16(x),
{
    proof {
        assert(x / 256 < 256);
    }
    out.push((x / 256) as u8);
    out.push((x % 256) as u8);
    assert(out@ =~= old(out)@ + enc_u16(x));
}

pub fn push_u32(out: &mut Vec<u8>, x: u32)
    ensures
        final(out)@ == old(out)@ + enc_u32(x),
{
    proof {
        assert(x / 0x10000 < 0x10000);
    }
    push_u16(out, (x / 0x10000) as u16);
    push_u16(out, (x % 0x10000) as u16);
    assert(out@ =~= old(out)@ + enc_u32(x));
}

pub fn push_u64(out: &mut Vec<u8>, x: u64)
    ensures
        final(out)@ == old(out)@ + enc_u64(x),
{
    proof {
        assert(x / 0x1_0000_0000 < 0x1_0000_0000);
    }
    push_u32(out, (x / 0x1_0000_0000) as u32);
    push_u32(out, (x % 0x1_0000_0000) as u32);
    assert(out@ =~= old(out)@ + enc_u64(x));
}

// Executable readers; each returns exactly the spec value.

pub fn read_be16(b: &Vec<u8>, pos: usize) -> (r: u16)
    requires
        pos + 2 <= b@.len(),
    ensures
        r as int == be16_at(b@, pos as int),
{
    // Binding the length tells the verifier the indices fit in usize.
    let n: usize = b.len();
    (b[pos] as u16) * 256 + (b[pos + 1] as u16)
}

pub fn read_be32(b: &Vec<u8>, pos: usize) -> (r: u32)
    requires
        pos + 4 <= b@.len(),
    ensures
        r as int == be32_at(b@, pos as int),
{
    // Binding the length tells the verifier the offsets fit in usize.
    let n: usize = b.len();
    (read_be16(b, pos) as u32) * 0x10000 + (read_be16(b, pos + 2) as u32)
}

} // verus!
