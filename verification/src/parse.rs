use vstd::prelude::*;
use crate::bytes::{be16_at, be32_at, read_be16, read_be32};
use crate::names::{
    nm_colors, nm_colors_bytes, nm_data, nm_data_bytes, nm_data_version, nm_data_version_bytes,
    nm_dimension, nm_dimension_bytes, nm_locked, nm_locked_bytes, nm_tracking_position,
    nm_tracking_position_bytes, nm_x_center, nm_x_center_bytes, nm_z_center, nm_z_center_bytes,
};
use crate::record::{MapSubset, MapSubsetV};

verus! {

// A self-describing tagged tree is decoded into the checked subset of the
// schema; fields with unknown names are skipped, known names must carry the
// expected tag exactly once. The spec parser below is the reference: the
// executable parser returns exactly its result.

/// Signed reading of a 32-bit big-endian image.
pub open spec fn as_i32_of(n: int) -> i32
    recommends
        0 <= n < 0x1_0000_0000,
{
    (n as u32) as i32
}

/// Signed reading of a single byte.
pub open spec fn as_i8_of(n: int) -> i8
    recommends
        0 <= n < 0x100,
{
    (n as u8) as i8
}

/// Skip the payload of a field with the given tag, returning the position
/// after it. Fuel bounds the recursion; the top level supplies one unit per
/// input byte and two more, and a walk that runs out is rejected.
pub open spec fn skip_payload(b: Seq<u8>, pos: int, tag: u8, fuel: nat) -> Option<int>
    decreases fuel,
{
    if fuel == 0 {
        None
    } else if tag == 1 {
        if pos + 1 <= b.len() { Some(pos + 1) } else { None }
    } else if tag == 2 {
        if pos + 2 <= b.len() { Some(pos + 2) } else { None }
    } else if tag == 3 || tag == 5 {
        if pos + 4 <= b.len() { Some(pos + 4) } else { None }
    } else if tag == 4 || tag == 6 {
        if pos + 8 <= b.len() { Some(pos + 8) } else { None }
    } else if tag == 7 {
        if pos + 4 <= b.len() {
            let n = be32_at(b, pos);
            if n < 0x8000_0000 && pos + 4 + n <= b.len() { Some(pos + 4 + n) } else { None }
        } else { None }
    } else if tag == 8 {
        if pos + 2 <= b.len() {
            let n = be16_at(b, pos);
            if pos + 2 + n <= b.len() { Some(pos + 2 + n) } else { None }
        } else { None }
    } else if tag == 9 {
        if pos + 5 <= b.len() {
            let et = b[pos];
            let n = be32_at(b, pos + 1);
            if n >= 0x8000_0000 {
                None
            } else if n == 0 {
                Some(pos + 5)
            } else if et == 0 {
                None
            } else {
                skip_list_elems(b, pos + 5, et, n, (fuel - 1) as nat)
            }
        } else { None }
    } else if tag == 10 {
        skip_unknown_fields(b, pos, (fuel - 1) as nat)
    } else if tag == 11 {
        if pos + 4 <= b.len() {
            let n = be32_at(b, pos);
            if n < 0x8000_0000 && pos + 4 + 4 * n <= b.len() { Some(pos + 4 + 4 * n) } else { None }
        } else { None }
    } else if tag == 12 {
        if pos + 4 <= b.len() {
            let n = be32_at(b, pos);
            if n < 0x8000_0000 && pos + 4 + 8 * n <= b.len() { Some(pos + 4 + 8 * n) } else { None }
        } else { None }
    } else {
        None
    }
}

/// Skip `count` list elements of element tag `et`.
pub open spec fn skip_list_elems(b: Seq<u8>, pos: int, et: u8, count: int, fuel: nat) -> Option<int>
    decreases fuel,
{
    if fuel == 0 {
        None
    } else if count <= 0 {
        Some(pos)
    } else {
        match skip_payload(b, pos, et, (fuel - 1) as nat) {
            Some(p) => skip_list_elems(b, p, et, count - 1, (fuel - 1) as nat),
            None => None,
        }
    }
}

/// Skip the fields of a compound none of whose fields are wanted, up to and
/// including its end tag.
pub open spec fn skip_unknown_fields(b: Seq<u8>, pos: int, fuel: nat) -> Option<int>
    decreases fuel,
{
    if fuel == 0 {
        None
    } else if pos + 1 <= b.len() {
        let tag = b[pos];
        if tag == 0 {
            Some(pos + 1)
        } else if pos + 3 <= b.len() {
            let n = be16_at(b, pos + 1);
            if pos + 3 + n <= b.len() {
                match skip_payload(b, pos + 3 + n, tag, (fuel - 1) as nat) {
                    Some(p) => skip_unknown_fields(b, p, (fuel - 1) as nat),
                    None => None,
                }
            } else { None }
        } else { None }
    } else { None }
}

/// What has been read of the `data` compound so far; a known field may be
/// read once only.
pub struct DataAcc {
    pub colors: Option<Seq<i8>>,
    pub dimension: Option<Seq<u8>>,
    pub locked: Option<i8>,
    pub tracking_position: Option<i8>,
    pub x_center: Option<i32>,
    pub z_center: Option<i32>,
}

pub open spec fn data_acc_empty() -> DataAcc {
    DataAcc {
        colors: None,
        dimension: None,
        locked: None,
        tracking_position: None,
        x_center: None,
        z_center: None,
    }
}

pub open spec fn data_complete(d: DataAcc) -> bool {
    &&& d.colors is Some
    &&& d.dimension is Some
    &&& d.locked is Some
    &&& d.tracking_position is Some
    &&& d.x_center is Some
    &&& d.z_center is Some
}

/// Fields of the `data` compound, from `pos` up to and including its end tag.
pub open spec fn parse_data_fields(b: Seq<u8>, pos: int, acc: DataAcc, fuel: nat) -> Option<
    (int, DataAcc),
>
    decreases fuel,
{
    if fuel == 0 {
        None
    } else if !(pos + 1 <= b.len()) {
        None
    } else {
        let tag = b[pos];
        if tag == 0 {
            Some((pos + 1, acc))
        } else if pos + 3 <= b.len() {
            let n = be16_at(b, pos + 1);
            let vpos = pos + 3 + n;
            if vpos <= b.len() {
                let nm = b.subrange(pos + 3, vpos);
                if nm == nm_colors() {
                    if tag == 7 && acc.colors is None && vpos + 4 <= b.len() {
                        let cn = be32_at(b, vpos);
                        if cn < 0x8000_0000 && vpos + 4 + cn <= b.len() {
                            parse_data_fields(
                                b,
                                vpos + 4 + cn,
                                DataAcc {
                                    colors: Some(
                                        b.subrange(vpos + 4, vpos + 4 + cn).map_values(
                                            |x: u8| x as i8,
                                        ),
                                    ),
                                    ..acc
                                },
                                (fuel - 1) as nat,
                            )
                        } else { None }
                    } else { None }
                } else if nm == nm_dimension() {
                    if tag == 8 && acc.dimension is None && vpos + 2 <= b.len() {
                        let sn = be16_at(b, vpos);
                        if vpos + 2 + sn <= b.len() {
                            parse_data_fields(
                                b,
                                vpos + 2 + sn,
                                DataAcc {
                                    dimension: Some(b.subrange(vpos + 2, vpos + 2 + sn)),
                                    ..acc
                                },
                                (fuel - 1) as nat,
                            )
                        } else { None }
                    } else { None }
                } else if nm == nm_locked() {
                    if tag == 1 && acc.locked is None && vpos + 1 <= b.len() {
                        parse_data_fields(
                            b,
                            vpos + 1,
                            DataAcc { locked: Some(as_i8_of(b[vpos] as int)), ..acc },
                            (fuel - 1) as nat,
                        )
                    } else { None }
                } else if nm == nm_tracking_position() {
                    if tag == 1 && acc.tracking_position is None && vpos + 1 <= b.len() {
                        parse_data_fields(
                            b,
                            vpos + 1,
                            DataAcc { tracking_position: Some(as_i8_of(b[vpos] as int)), ..acc },
                            (fuel - 1) as nat,
                        )
                    } else { None }
                } else if nm == nm_x_center() {
                    if tag == 3 && acc.x_center is None && vpos + 4 <= b.len() {
                        parse_data_fields(
                            b,
                            vpos + 4,
                            DataAcc { x_center: Some(as_i32_of(be32_at(b, vpos))), ..acc },
                            (fuel - 1) as nat,
                        )
                    } else { None }
                } else if nm == nm_z_center() {
                    if tag == 3 && acc.z_center is None && vpos + 4 <= b.len() {
                        parse_data_fields(
                            b,
                            vpos + 4,
                            DataAcc { z_center: Some(as_i32_of(be32_at(b, vpos))), ..acc },
                            (fuel - 1) as nat,
                        )
                    } else { None }
                } else {
                    match skip_payload(b, vpos, tag, (fuel - 1) as nat) {
                        Some(p) => parse_data_fields(b, p, acc, (fuel - 1) as nat),
                        None => None,
                    }
                }
            } else { None }
        } else { None }
    }
}

/// What has been read of the root compound so far.
pub struct RootAcc {
    pub data_version: Option<i32>,
    pub data: Option<DataAcc>,
}

/// Fields of the root compound, from `pos` up to and including its end tag.
pub open spec fn parse_root_fields(b: Seq<u8>, pos: int, acc: RootAcc, fuel: nat) -> Option<
    (int, RootAcc),
>
    decreases fuel,
{
    if fuel == 0 {
        None
    } else if !(pos + 1 <= b.len()) {
        None
    } else {
        let tag = b[pos];
        if tag == 0 {
            Some((pos + 1, acc))
        } else if pos + 3 <= b.len() {
            let n = be16_at(b, pos + 1);
            let vpos = pos + 3 + n;
            if vpos <= b.len() {
                let nm = b.subrange(pos + 3, vpos);
                if nm == nm_data_version() {
                    if tag == 3 && acc.data_version is None && vpos + 4 <= b.len() {
                        parse_root_fields(
                            b,
                            vpos + 4,
                            RootAcc { data_version: Some(as_i32_of(be32_at(b, vpos))), ..acc },
                            (fuel - 1) as nat,
                        )
                    } else { None }
                } else if nm == nm_data() {
                    if tag == 10 && acc.data is None {
                        match parse_data_fields(b, vpos, data_acc_empty(), (fuel - 1) as nat) {
                            Some((p, d)) => {
                                if data_complete(d) {
                                    parse_root_fields(
                                        b,
                                        p,
                                        RootAcc { data: Some(d), ..acc },
                                        (fuel - 1) as nat,
                                    )
                                } else { None }
                            },
                            None => None,
                        }
                    } else { None }
                } else {
                    match skip_payload(b, vpos, tag, (fuel - 1) as nat) {
                        Some(p) => parse_root_fields(b, p, acc, (fuel - 1) as nat),
                        None => None,
                    }
                }
            } else { None }
        } else { None }
    }
}

/// The checked subset assembled from completed accumulators.
pub open spec fn data_subset(dv: i32, d: DataAcc) -> MapSubsetV
    recommends
        data_complete(d),
{
    MapSubsetV {
        data_version: dv,
        colors: match d.colors { Some(c) => c, None => Seq::empty() },
        dimension: match d.dimension { Some(s) => s, None => Seq::empty() },
        locked: match d.locked { Some(v) => v, None => 0i8 },
        tracking_position: match d.tracking_position { Some(v) => v, None => 0i8 },
        x_center: match d.x_center { Some(v) => v, None => 0i32 },
        z_center: match d.z_center { Some(v) => v, None => 0i32 },
    }
}

/// Decode a whole uncompressed record: an unnamed (or arbitrarily named) root
/// compound that holds an `Int` field `DataVersion` and a compound `data`
/// carrying the checked subset; nothing may follow the root compound.
pub open spec fn parse_record(b: Seq<u8>) -> Option<MapSubsetV> {
    if b.len() >= 3 && b[0] == 10 {
        let n = be16_at(b, 1);
        if 3 + n <= b.len() {
            match parse_root_fields(
                b,
                3 + n,
                RootAcc { data_version: None, data: None },
                (b.len() + 2) as nat,
            ) {
                Some((p, acc)) => {
                    if p == b.len() {
                        match (acc.data_version, acc.data) {
                            (Some(dv), Some(d)) => {
                                if data_complete(d) { Some(data_subset(dv, d)) } else { None }
                            },
                            _ => None,
                        }
                    } else { None }
                },
                None => None,
            }
        } else { None }
    } else { None }
}

// ---------------------------------------------------------------------------
// Executable parser. Each function returns exactly what its spec counterpart
// computes; the tail-recursive spec loops become while loops here.

fn name_eq_at(b: &Vec<u8>, pos: usize, n: usize, pat: &Vec<u8>) -> (r: bool)
    requires
        pos + n <= b@.len(),
    ensures
        r == (b@.subrange(pos as int, (pos + n) as int) == pat@),
{
    let len: usize = b.len();
    if n != pat.len() {
        proof {
            assert(b@.subrange(pos as int, (pos + n) as int).len() == n as int);
        }
        return false;
    }
    let mut i: usize = 0;
    while i < n
        invariant
            0 <= i <= n,
            n == pat@.len(),
            pos + n <= b@.len(),
            len == b@.len(),
            forall|j: int| 0 <= j < i ==> b@[pos + j] == pat@[j],
        decreases n - i,
    {
        if b[pos + i] != pat[i] {
            proof {
                assert(b@.subrange(pos as int, (pos + n) as int)[i as int] == b@[pos + i]);
            }
            return false;
        }
        i = i + 1;
    }
    proof {
        assert(b@.subrange(pos as int, (pos + n) as int) =~= pat@);
    }
    true
}

fn read_slice(b: &Vec<u8>, start: usize, n: usize) -> (out: Vec<u8>)
    requires
        start + n <= b@.len(),
    ensures
        out@ == b@.subrange(start as int, (start + n) as int),
{
    let len: usize = b.len();
    let mut out: Vec<u8> = Vec::new();
    let mut i: usize = 0;
    while i < n
        invariant
            0 <= i <= n,
            start + n <= b@.len(),
            len == b@.len(),
            out@ == b@.subrange(start as int, (start + i) as int),
        decreases n - i,
    {
        out.push(b[start + i]);
        proof {
            assert(b@.subrange(start as int, (start + i) as int).push(b@[(start + i) as int])
                =~= b@.subrange(start as int, (start + i + 1) as int));
        }
        i = i + 1;
    }
    out
}

fn read_colors_at(b: &Vec<u8>, start: usize, n: usize) -> (out: Vec<i8>)
    requires
        start + n <= b@.len(),
    ensures
        out@ == b@.subrange(start as int, (start + n) as int).map_values(|x: u8| x as i8),
{
    let len: usize = b.len();
    let mut out: Vec<i8> = Vec::new();
    let mut i: usize = 0;
    while i < n
        invariant
            0 <= i <= n,
            start + n <= b@.len(),
            len == b@.len(),
            out@ == b@.subrange(start as int, (start + i) as int).map_values(|x: u8| x as i8),
        decreases n - i,
    {
        out.push(#[verifier::truncate] (b[start + i] as i8));
        proof {
            assert(b@.subrange(start as int, (start + i + 1) as int)
                =~= b@.subrange(start as int, (start + i) as int).push(b@[(start + i) as int]));
            assert(b@.subrange(start as int, (start + i + 1) as int).map_values(|x: u8| x as i8)
                =~= b@.subrange(start as int, (start + i) as int).map_values(|x: u8| x as i8).push(
                    b@[(start + i) as int] as i8,
                ));
        }
        i = i + 1;
    }
    out
}

fn skip_payload_x(b: &Vec<u8>, pos: usize, tag: u8, fuel: u128) -> (r: Option<usize>)
    requires
        pos <= b@.len(),
    ensures
        (match r {
            Some(p) => pos <= p <= b@.len() && skip_payload(b@, pos as int, tag, fuel as nat)
                == Some(p as int),
            None => skip_payload(b@, pos as int, tag, fuel as nat) is None,
        }),
    decreases fuel,
{
    let len: usize = b.len();
    if fuel == 0 {
        return None;
    }
    if tag == 1 {
        if len - pos >= 1 { Some(pos + 1) } else { None }
    } else if tag == 2 {
        if len - pos >= 2 { Some(pos + 2) } else { None }
    } else if tag == 3 || tag == 5 {
        if len - pos >= 4 { Some(pos + 4) } else { None }
    } else if tag == 4 || tag == 6 {
        if len - pos >= 8 { Some(pos + 8) } else { None }
    } else if tag == 7 {
        if len - pos >= 4 {
            let n = read_be32(b, pos);
            if n < 0x8000_0000 && (n as usize) <= len - (pos + 4) {
                Some(pos + 4 + n as usize)
            } else {
                None
            }
        } else {
            None
        }
    } else if tag == 8 {
        if len - pos >= 2 {
            let n = read_be16(b, pos) as usize;
            if n <= len - (pos + 2) { Some(pos + 2 + n) } else { None }
        } else {
            None
        }
    } else if tag == 9 {
        if len - pos >= 5 {
            let et = b[pos];
            let n = read_be32(b, pos + 1);
            if n >= 0x8000_0000 {
                None
            } else if n == 0 {
                Some(pos + 5)
            } else if et == 0 {
                None
            } else {
                skip_list_elems_x(b, pos + 5, et, n, fuel - 1)
            }
        } else {
            None
        }
    } else if tag == 10 {
        skip_unknown_fields_x(b, pos, fuel - 1)
    } else if tag == 11 {
        if len - pos >= 4 {
            let n = read_be32(b, pos);
            if n < 0x8000_0000 {
                let need: u64 = 4u64 * (n as u64);
                let avail: u64 = (len - (pos + 4)) as u64;
                if need <= avail {
                    Some(pos + 4 + (need as usize))
                } else {
                    None
                }
            } else {
                None
            }
        } else {
            None
        }
    } else if tag == 12 {
        if len - pos >= 4 {
            let n = read_be32(b, pos);
            if n < 0x8000_0000 {
                let need: u64 = 8u64 * (n as u64);
                let avail: u64 = (len - (pos + 4)) as u64;
                if need <= avail {
                    Some(pos + 4 + (need as usize))
                } else {
                    None
                }
            } else {
                None
            }
        } else {
            None
        }
    } else {
        None
    }
}

fn skip_list_elems_x(b: &Vec<u8>, pos: usize, et: u8, count: u32, fuel: u128) -> (r: Option<usize>)
    requires
        pos <= b@.len(),
    ensures
        (match r {
            Some(p) => pos <= p <= b@.len() && skip_list_elems(
                b@,
                pos as int,
                et,
                count as int,
                fuel as nat,
            ) == Some(p as int),
            None => skip_list_elems(b@, pos as int, et, count as int, fuel as nat) is None,
        }),
    decreases fuel,
{
    let mut cur_pos: usize = pos;
    let mut remaining: u32 = count;
    let mut cur_fuel: u128 = fuel;
    while remaining > 0
        invariant
            pos <= cur_pos <= b@.len(),
            cur_fuel <= fuel,
            skip_list_elems(b@, pos as int, et, count as int, fuel as nat) == skip_list_elems(
                b@,
                cur_pos as int,
                et,
                remaining as int,
                cur_fuel as nat,
            ),
        decreases remaining,
    {
        if cur_fuel == 0 {
            return None;
        }
        match skip_payload_x(b, cur_pos, et, cur_fuel - 1) {
            Some(p) => {
                proof {
                    assert(skip_list_elems(b@, cur_pos as int, et, remaining as int, cur_fuel as nat)
                        == skip_list_elems(
                        b@,
                        p as int,
                        et,
                        remaining - 1,
                        (cur_fuel - 1) as nat,
                    ));
                }
                cur_pos = p;
                remaining = remaining - 1;
                cur_fuel = cur_fuel - 1;
            },
            None => {
                return None;
            },
        }
    }
    if cur_fuel == 0 {
        return None;
    }
    Some(cur_pos)
}

fn skip_unknown_fields_x(b: &Vec<u8>, pos: usize, fuel: u128) -> (r: Option<usize>)
    requires
        pos <= b@.len(),
    ensures
        (match r {
            Some(p) => pos <= p <= b@.len() && skip_unknown_fields(b@, pos as int, fuel as nat)
                == Some(p as int),
            None => skip_unknown_fields(b@, pos as int, fuel as nat) is None,
        }),
    decreases fuel,
{
    let len: usize = b.len();
    let mut cur_pos: usize = pos;
    let mut cur_fuel: u128 = fuel;
    loop
        invariant
            pos <= cur_pos <= b@.len(),
            cur_fuel <= fuel,
            len == b@.len(),
            skip_unknown_fields(b@, pos as int, fuel as nat) == skip_unknown_fields(
                b@,
                cur_pos as int,
                cur_fuel as nat,
            ),
        decreases cur_fuel,
    {
        if cur_fuel == 0 {
            return None;
        }
        if len - cur_pos < 1 {
            return None;
        }
        let tag = b[cur_pos];
        if tag == 0 {
            return Some(cur_pos + 1);
        }
        if len - cur_pos < 3 {
            return None;
        }
        let n = read_be16(b, cur_pos + 1) as usize;
        if n > len - (cur_pos + 3) {
            return None;
        }
        match skip_payload_x(b, cur_pos + 3 + n, tag, cur_fuel - 1) {
            Some(p) => {
                proof {
                    assert(skip_unknown_fields(b@, cur_pos as int, cur_fuel as nat)
                        == skip_unknown_fields(b@, p as int, (cur_fuel - 1) as nat));
                }
                cur_pos = p;
                cur_fuel = cur_fuel - 1;
            },
            None => {
                return None;
            },
        }
    }
}

/// Executable accumulator for the `data` compound.
pub struct DataPartial {
    pub colors: Option<Vec<i8>>,
    pub dimension: Option<Vec<u8>>,
    pub locked: Option<i8>,
    pub tracking_position: Option<i8>,
    pub x_center: Option<i32>,
    pub z_center: Option<i32>,
}

impl View for DataPartial {
    type V = DataAcc;

    open spec fn view(&self) -> DataAcc {
        DataAcc {
            colors: match self.colors {
                Some(v) => Some(v@),
                None => None,
            },
            dimension: match self.dimension {
                Some(v) => Some(v@),
                None => None,
            },
            locked: self.locked,
            tracking_position: self.tracking_position,
            x_center: self.x_center,
            z_center: self.z_center,
        }
    }
}

fn parse_data_fields_x(b: &Vec<u8>, pos: usize, fuel: u128) -> (r: Option<
    (usize, DataPartial),
>)
    requires
        pos <= b@.len(),
    ensures
        r is None ==> parse_data_fields(b@, pos as int, data_acc_empty(), fuel as nat) is None,
        (r matches Some(p) ==> pos <= p.0 <= b@.len() && parse_data_fields(
            b@,
            pos as int,
            data_acc_empty(),
            fuel as nat,
        ) == Some((p.0 as int, p.1@))),
{
    let ghost acc0 = data_acc_empty();
    let len: usize = b.len();
    let mut cur_pos: usize = pos;
    let mut cur_fuel: u128 = fuel;
    let mut a = DataPartial {
        colors: None,
        dimension: None,
        locked: None,
        tracking_position: None,
        x_center: None,
        z_center: None,
    };
    let pat_colors = nm_colors_bytes();
    let pat_dimension = nm_dimension_bytes();
    let pat_locked = nm_locked_bytes();
    let pat_tracking = nm_tracking_position_bytes();
    let pat_x_center = nm_x_center_bytes();
    let pat_z_center = nm_z_center_bytes();
    loop
        invariant
            acc0 == data_acc_empty(),
            pos <= cur_pos <= b@.len(),
            cur_fuel <= fuel,
            len == b@.len(),
            pat_colors@ == nm_colors(),
            pat_dimension@ == nm_dimension(),
            pat_locked@ == nm_locked(),
            pat_tracking@ == nm_tracking_position(),
            pat_x_center@ == nm_x_center(),
            pat_z_center@ == nm_z_center(),
            parse_data_fields(b@, pos as int, acc0, fuel as nat) == parse_data_fields(
                b@,
                cur_pos as int,
                a@,
                cur_fuel as nat,
            ),
        decreases cur_fuel,
    {
        if cur_fuel == 0 {
            return None;
        }
        if len - cur_pos < 1 {
            return None;
        }
        let tag = b[cur_pos];
        if tag == 0 {
            return Some((cur_pos + 1, a));
        }
        if len - cur_pos < 3 {
            return None;
        }
        let n = read_be16(b, cur_pos + 1) as usize;
        if n > len - (cur_pos + 3) {
            return None;
        }
        let vpos = cur_pos + 3 + n;
        if name_eq_at(b, cur_pos + 3, n, &pat_colors) {
            if tag == 7 && a.colors.is_none() && len - vpos >= 4 {
                let cn = read_be32(b, vpos);
                if cn < 0x8000_0000 && (cn as usize) <= len - (vpos + 4) {
                    let cvec = read_colors_at(b, vpos + 4, cn as usize);
                    let ghost a_old = a@;
                    a.colors = Some(cvec);
                    proof {
                        assert(a@ == DataAcc { colors: a@.colors, ..a_old });
                        assert(parse_data_fields(b@, cur_pos as int, a_old, cur_fuel as nat)
                            == parse_data_fields(
                            b@,
                            vpos + 4 + cn,
                            a@,
                            (cur_fuel - 1) as nat,
                        ));
                    }
                    cur_pos = vpos + 4 + cn as usize;
                    cur_fuel = cur_fuel - 1;
                } else {
                    return None;
                }
            } else {
                return None;
            }
        } else if name_eq_at(b, cur_pos + 3, n, &pat_dimension) {
            if tag == 8 && a.dimension.is_none() && len - vpos >= 2 {
                let sn = read_be16(b, vpos) as usize;
                if sn <= len - (vpos + 2) {
                    let svec = read_slice(b, vpos + 2, sn);
                    let ghost a_old = a@;
                    a.dimension = Some(svec);
                    proof {
                        assert(parse_data_fields(b@, cur_pos as int, a_old, cur_fuel as nat)
                            == parse_data_fields(
                            b@,
                            vpos + 2 + sn,
                            a@,
                            (cur_fuel - 1) as nat,
                        ));
                    }
                    cur_pos = vpos + 2 + sn;
                    cur_fuel = cur_fuel - 1;
                } else {
                    return None;
                }
            } else {
                return None;
            }
        } else if name_eq_at(b, cur_pos + 3, n, &pat_locked) {
            if tag == 1 && a.locked.is_none() && len - vpos >= 1 {
                let ghost a_old = a@;
                a.locked = Some(#[verifier::truncate] (b[vpos] as i8));
                proof {
                    assert(parse_data_fields(b@, cur_pos as int, a_old, cur_fuel as nat)
                        == parse_data_fields(b@, vpos + 1, a@, (cur_fuel - 1) as nat));
                }
                cur_pos = vpos + 1;
                cur_fuel = cur_fuel - 1;
            } else {
                return None;
            }
        } else if name_eq_at(b, cur_pos + 3, n, &pat_tracking) {
            if tag == 1 && a.tracking_position.is_none() && len - vpos >= 1 {
                let ghost a_old = a@;
                a.tracking_position = Some(#[verifier::truncate] (b[vpos] as i8));
                proof {
                    assert(parse_data_fields(b@, cur_pos as int, a_old, cur_fuel as nat)
                        == parse_data_fields(b@, vpos + 1, a@, (cur_fuel - 1) as nat));
                }
                cur_pos = vpos + 1;
                cur_fuel = cur_fuel - 1;
            } else {
                return None;
            }
        } else if name_eq_at(b, cur_pos + 3, n, &pat_x_center) {
            if tag == 3 && a.x_center.is_none() && len - vpos >= 4 {
                let xv = read_be32(b, vpos);
                let ghost a_old = a@;
                a.x_center = Some(#[verifier::truncate] (xv as i32));
                proof {
                    assert(parse_data_fields(b@, cur_pos as int, a_old, cur_fuel as nat)
                        == parse_data_fields(b@, vpos + 4, a@, (cur_fuel - 1) as nat));
                }
                cur_pos = vpos + 4;
                cur_fuel = cur_fuel - 1;
            } else {
                return None;
            }
        } else if name_eq_at(b, cur_pos + 3, n, &pat_z_center) {
            if tag == 3 && a.z_center.is_none() && len - vpos >= 4 {
                let zv = read_be32(b, vpos);
                let ghost a_old = a@;
                a.z_center = Some(#[verifier::truncate] (zv as i32));
                proof {
                    assert(parse_data_fields(b@, cur_pos as int, a_old, cur_fuel as nat)
                        == parse_data_fields(b@, vpos + 4, a@, (cur_fuel - 1) as nat));
                }
                cur_pos = vpos + 4;
                cur_fuel = cur_fuel - 1;
            } else {
                return None;
            }
        } else {
            match skip_payload_x(b, vpos, tag, cur_fuel - 1) {
                Some(p) => {
                    proof {
                        assert(parse_data_fields(b@, cur_pos as int, a@, cur_fuel as nat)
                            == parse_data_fields(b@, p as int, a@, (cur_fuel - 1) as nat));
                    }
                    cur_pos = p;
                    cur_fuel = cur_fuel - 1;
                },
                None => {
                    return None;
                },
            }
        }
    }
}

/// Executable accumulator for the root compound.
pub struct RootPartial {
    pub data_version: Option<i32>,
    pub data: Option<DataPartial>,
}

impl View for RootPartial {
    type V = RootAcc;

    open spec fn view(&self) -> RootAcc {
        RootAcc {
            data_version: self.data_version,
            data: match self.data {
                Some(d) => Some(d@),
                None => None,
            },
        }
    }
}

fn data_partial_complete(d: &DataPartial) -> (r: bool)
    ensures
        r == data_complete(d@),
{
    d.colors.is_some() && d.dimension.is_some() && d.locked.is_some()
        && d.tracking_position.is_some() && d.x_center.is_some() && d.z_center.is_some()
}

fn parse_root_fields_x(b: &Vec<u8>, pos: usize, fuel: u128) -> (r: Option<
    (usize, RootPartial),
>)
    requires
        pos <= b@.len(),
    ensures
        r is None ==> parse_root_fields(
            b@,
            pos as int,
            RootAcc { data_version: None, data: None },
            fuel as nat,
        ) is None,
        (r matches Some(p) ==> pos <= p.0 <= b@.len() && parse_root_fields(
            b@,
            pos as int,
            RootAcc { data_version: None, data: None },
            fuel as nat,
        ) == Some((p.0 as int, p.1@))),
{
    let ghost acc0 = RootAcc { data_version: None, data: None };
    let len: usize = b.len();
    let mut cur_pos: usize = pos;
    let mut cur_fuel: u128 = fuel;
    let mut a = RootPartial { data_version: None, data: None };
    let pat_data_version = nm_data_version_bytes();
    let pat_data = nm_data_bytes();
    loop
        invariant
            acc0 == (RootAcc { data_version: None, data: None }),
            pos <= cur_pos <= b@.len(),
            cur_fuel <= fuel,
            len == b@.len(),
            pat_data_version@ == nm_data_version(),
            pat_data@ == nm_data(),
            parse_root_fields(b@, pos as int, acc0, fuel as nat) == parse_root_fields(
                b@,
                cur_pos as int,
                a@,
                cur_fuel as nat,
            ),
        decreases cur_fuel,
    {
        if cur_fuel == 0 {
            return None;
        }
        if len - cur_pos < 1 {
            return None;
        }
        let tag = b[cur_pos];
        if tag == 0 {
            return Some((cur_pos + 1, a));
        }
        if len - cur_pos < 3 {
            return None;
        }
        let n = read_be16(b, cur_pos + 1) as usize;
        if n > len - (cur_pos + 3) {
            return None;
        }
        let vpos = cur_pos + 3 + n;
        if name_eq_at(b, cur_pos + 3, n, &pat_data_version) {
            if tag == 3 && a.data_version.is_none() && len - vpos >= 4 {
                let dv = read_be32(b, vpos);
                let ghost a_old = a@;
                a.data_version = Some(#[verifier::truncate] (dv as i32));
                proof {
                    assert(parse_root_fields(b@, cur_pos as int, a_old, cur_fuel as nat)
                        == parse_root_fields(b@, vpos + 4, a@, (cur_fuel - 1) as nat));
                }
                cur_pos = vpos + 4;
                cur_fuel = cur_fuel - 1;
            } else {
                return None;
            }
        } else if name_eq_at(b, cur_pos + 3, n, &pat_data) {
            if tag == 10 && a.data.is_none() {
                match parse_data_fields_x(b, vpos, cur_fuel - 1) {
                    Some((p, d)) => {
                        if data_partial_complete(&d) {
                            let ghost a_old = a@;
                            a.data = Some(d);
                            proof {
                                assert(parse_root_fields(b@, cur_pos as int, a_old, cur_fuel as nat)
                                    == parse_root_fields(b@, p as int, a@, (cur_fuel - 1) as nat));
                            }
                            cur_pos = p;
                            cur_fuel = cur_fuel - 1;
                        } else {
                            return None;
                        }
                    },
                    None => {
                        return None;
                    },
                }
            } else {
                return None;
            }
        } else {
            match skip_payload_x(b, vpos, tag, cur_fuel - 1) {
                Some(p) => {
                    proof {
                        assert(parse_root_fields(b@, cur_pos as int, a@, cur_fuel as nat)
                            == parse_root_fields(b@, p as int, a@, (cur_fuel - 1) as nat));
                    }
                    cur_pos = p;
                    cur_fuel = cur_fuel - 1;
                },
                None => {
                    return None;
                },
            }
        }
    }
}

/// Decode an uncompressed record into the checked subset; `None` exactly when
/// the bytes do not parse as the expected schema.
pub fn decode_subset(b: &Vec<u8>) -> (r: Option<MapSubset>)
    ensures
        (match r {
            Some(m) => parse_record(b@) == Some(m@),
            None => parse_record(b@) is None,
        }),
{
    let len: usize = b.len();
    if len < 3 {
        return None;
    }
    if b[0] != 10 {
        return None;
    }
    let n = read_be16(b, 1) as usize;
    if n > len - 3 {
        return None;
    }
    let fuel: u128 = (len as u128) + 2;
    match parse_root_fields_x(b, 3 + n, fuel) {
        Some((p, acc)) => {
            if p != len {
                return None;
            }
            match (acc.data_version, acc.data) {
                (Some(dv), Some(d)) => {
                    if data_partial_complete(&d) {
                        match (
                            d.colors,
                            d.dimension,
                            d.locked,
                            d.tracking_position,
                            d.x_center,
                            d.z_center,
                        ) {
                            (Some(colors), Some(dimension), Some(locked), Some(tp), Some(xc), Some(
                                zc,
                            )) => Some(
                                MapSubset {
                                    data_version: dv,
                                    colors,
                                    dimension,
                                    locked,
                                    tracking_position: tp,
                                    x_center: xc,
                                    z_center: zc,
                                },
                            ),
                            _ => None,
                        }
                    } else {
                        None
                    }
                },
                _ => None,
            }
        },
        None => None,
    }
}


} // verus!
