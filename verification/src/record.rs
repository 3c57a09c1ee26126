use vstd::prelude::*;

verus! {

/// Number of color bytes a structurally valid record carries: a 128 by 128
/// pixel grid, row-major.
pub const COLORS_LEN: usize = 16384;

/// Format revision the converter stamps on every record it synthesizes.
pub const TARGET_DATA_VERSION: i32 = 3465;

/// Out-of-world sentinel used for the center coordinates of converted records.
pub const CENTER_SENTINEL: i32 = 64000000;

/// UTF-8 bytes of the primary-world dimension identifier, "minecraft:overworld".
pub open spec fn overworld_name() -> Seq<u8> {
    seq![
        109u8, 105u8, 110u8, 101u8, 99u8, 114u8, 97u8, 102u8, 116u8, 58u8,
        111u8, 118u8, 101u8, 114u8, 119u8, 111u8, 114u8, 108u8, 100u8,
    ]
}

pub fn overworld_bytes() -> (v: Vec<u8>)
    ensures
        v@ == overworld_name(),
{
    let v: Vec<u8> = vec![
        109u8, 105u8, 110u8, 101u8, 99u8, 114u8, 97u8, 102u8, 116u8, 58u8,
        111u8, 118u8, 101u8, 114u8, 119u8, 111u8, 114u8, 108u8, 100u8,
    ];
    assert(v@ =~= overworld_name());
    v
}

/// Body of the full record schema. The `banners` and `frames` fields of the
/// on-disk form are always-empty list placeholders, so the in-memory form
/// carries no data for them; the codec writes them as empty lists.
pub struct MapData {
    pub uuid_least: i64,
    pub uuid_most: i64,
    /// Palette-indexed pixel values, row-major.
    pub colors: Vec<i8>,
    /// UTF-8 bytes of the dimension identifier.
    pub dimension: Vec<u8>,
    pub locked: i8,
    pub scale: i8,
    pub tracking_position: i8,
    pub unlimited_tracking: i8,
    pub x_center: i32,
    pub z_center: i32,
}

pub struct MapDataV {
    pub uuid_least: i64,
    pub uuid_most: i64,
    pub colors: Seq<i8>,
    pub dimension: Seq<u8>,
    pub locked: i8,
    pub scale: i8,
    pub tracking_position: i8,
    pub unlimited_tracking: i8,
    pub x_center: i32,
    pub z_center: i32,
}

impl View for MapData {
    type V = MapDataV;

    open spec fn view(&self) -> MapDataV {
        MapDataV {
            uuid_least: self.uuid_least,
            uuid_most: self.uuid_most,
            colors: self.colors@,
            dimension: self.dimension@,
            locked: self.locked,
            scale: self.scale,
            tracking_position: self.tracking_position,
            unlimited_tracking: self.unlimited_tracking,
            x_center: self.x_center,
            z_center: self.z_center,
        }
    }
}

/// The top-level persisted entity: a format revision plus the body.
pub struct MapRecord {
    pub data_version: i32,
    pub data: MapData,
}

pub struct MapRecordV {
    pub data_version: i32,
    pub data: MapDataV,
}

impl View for MapRecord {
    type V = MapRecordV;

    open spec fn view(&self) -> MapRecordV {
        MapRecordV { data_version: self.data_version, data: self.data@ }
    }
}

impl MapDataV {
    /// Machine limits the encoder needs: the byte array length is stored as a
    /// signed 32-bit value and the string length as an unsigned 16-bit value.
    pub open spec fn wf(self) -> bool {
        &&& self.colors.len() <= 0x7fff_ffff
        &&& self.dimension.len() <= 0xffff
    }
}

impl MapRecordV {
    pub open spec fn wf(self) -> bool {
        self.data.wf()
    }
}

/// The minimal common subset of fields the validator decodes and checks;
/// identity, list and scale fields of a superset schema are ignored on read.
pub struct MapSubset {
    pub data_version: i32,
    pub colors: Vec<i8>,
    pub dimension: Vec<u8>,
    pub locked: i8,
    pub tracking_position: i8,
    pub x_center: i32,
    pub z_center: i32,
}

pub struct MapSubsetV {
    pub data_version: i32,
    pub colors: Seq<i8>,
    pub dimension: Seq<u8>,
    pub locked: i8,
    pub tracking_position: i8,
    pub x_center: i32,
    pub z_center: i32,
}

impl View for MapSubset {
    type V = MapSubsetV;

    open spec fn view(&self) -> MapSubsetV {
        MapSubsetV {
            data_version: self.data_version,
            colors: self.colors@,
            dimension: self.dimension@,
            locked: self.locked,
            tracking_position: self.tracking_position,
            x_center: self.x_center,
            z_center: self.z_center,
        }
    }
}

/// The checked subset a full record projects to.
pub open spec fn subset_of(r: MapRecordV) -> MapSubsetV {
    MapSubsetV {
        data_version: r.data_version,
        colors: r.data.colors,
        dimension: r.data.dimension,
        locked: r.data.locked,
        tracking_position: r.data.tracking_position,
        x_center: r.data.x_center,
        z_center: r.data.z_center,
    }
}

} // verus!
