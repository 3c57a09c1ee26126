use vstd::prelude::*;

verus! {

// The exact, case-sensitive field names of the on-disk schema, as UTF-8
// bytes, each with its executable counterpart.

/// "DataVersion"
pub open spec fn nm_data_version() -> Seq<u8> {
    seq![68u8, 97u8, 116u8, 97u8, 86u8, 101u8, 114u8, 115u8, 105u8, 111u8, 110u8]
}

pub fn nm_data_version_bytes() -> (v: Vec<u8>)
    ensures
        v@ == nm_data_version(),
{
    let v: Vec<u8> = vec![68u8, 97u8, 116u8, 97u8, 86u8, 101u8, 114u8, 115u8, 105u8, 111u8, 110u8];
    assert(v@ =~= nm_data_version());
    v
}

/// "data"
pub open spec fn nm_data() -> Seq<u8> {
    seq![100u8, 97u8, 116u8, 97u8]
}

pub fn nm_data_bytes() -> (v: Vec<u8>)
    ensures
        v@ == nm_data(),
{
    let v: Vec<u8> = vec![100u8, 97u8, 116u8, 97u8];
    assert(v@ =~= nm_data());
    v
}

/// "UUIDLeast"
pub open spec fn nm_uuid_least() -> Seq<u8> {
    seq![85u8, 85u8, 73u8, 68u8, 76u8, 101u8, 97u8, 115u8, 116u8]
}

pub fn nm_uuid_least_bytes() -> (v: Vec<u8>)
    ensures
        v@ == nm_uuid_least(),
{
    let v: Vec<u8> = vec![85u8, 85u8, 73u8, 68u8, 76u8, 101u8, 97u8, 115u8, 116u8];
    assert(v@ =~= nm_uuid_least());
    v
}

/// "UUIDMost"
pub open spec fn nm_uuid_most() -> Seq<u8> {
    seq![85u8, 85u8, 73u8, 68u8, 77u8, 111u8, 115u8, 116u8]
}

pub fn nm_uuid_most_bytes() -> (v: Vec<u8>)
    ensures
        v@ == nm_uuid_most(),
{
    let v: Vec<u8> = vec![85u8, 85u8, 73u8, 68u8, 77u8, 111u8, 115u8, 116u8];
    assert(v@ =~= nm_uuid_most());
    v
}

/// "banners"
pub open spec fn nm_banners() -> Seq<u8> {
    seq![98u8, 97u8, 110u8, 110u8, 101u8, 114u8, 115u8]
}

pub fn nm_banners_bytes() -> (v: Vec<u8>)
    ensures
        v@ == nm_banners(),
{
    let v: Vec<u8> = vec![98u8, 97u8, 110u8, 110u8, 101u8, 114u8, 115u8];
    assert(v@ =~= nm_banners());
    v
}

/// "colors"
pub open spec fn nm_colors() -> Seq<u8> {
    seq![99u8, 111u8, 108u8, 111u8, 114u8, 115u8]
}

pub fn nm_colors_bytes() -> (v: Vec<u8>)
    ensures
        v@ == nm_colors(),
{
    let v: Vec<u8> = vec![99u8, 111u8, 108u8, 111u8, 114u8, 115u8];
    assert(v@ =~= nm_colors());
    v
}

/// "dimension"
pub open spec fn nm_dimension() -> Seq<u8> {
    seq![100u8, 105u8, 109u8, 101u8, 110u8, 115u8, 105u8, 111u8, 110u8]
}

pub fn nm_dimension_bytes() -> (v: Vec<u8>)
    ensures
        v@ == nm_dimension(),
{
    let v: Vec<u8> = vec![100u8, 105u8, 109u8, 101u8, 110u8, 115u8, 105u8, 111u8, 110u8];
    assert(v@ =~= nm_dimension());
    v
}

/// "frames"
pub open spec fn nm_frames() -> Seq<u8> {
    seq![102u8, 114u8, 97u8, 109u8, 101u8, 115u8]
}

pub fn nm_frames_bytes() -> (v: Vec<u8>)
    ensures
        v@ == nm_frames(),
{
    let v: Vec<u8> = vec![102u8, 114u8, 97u8, 109u8, 101u8, 115u8];
    assert(v@ =~= nm_frames());
    v
}

/// "locked"
pub open spec fn nm_locked() -> Seq<u8> {
    seq![108u8, 111u8, 99u8, 107u8, 101u8, 100u8]
}

pub fn nm_locked_bytes() -> (v: Vec<u8>)
    ensures
        v@ == nm_locked(),
{
    let v: Vec<u8> = vec![108u8, 111u8, 99u8, 107u8, 101u8, 100u8];
    assert(v@ =~= nm_locked());
    v
}

/// "scale"
pub open spec fn nm_scale() -> Seq<u8> {
    seq![115u8, 99u8, 97u8, 108u8, 101u8]
}

pub fn nm_scale_bytes() -> (v: Vec<u8>)
    ensures
        v@ == nm_scale(),
{
    let v: Vec<u8> = vec![115u8, 99u8, 97u8, 108u8, 101u8];
    assert(v@ =~= nm_scale());
    v
}

/// "trackingPosition"
pub open spec fn nm_tracking_position() -> Seq<u8> {
    seq![116u8, 114u8, 97u8, 99u8, 107u8, 105u8, 110u8, 103u8, 80u8, 111u8, 115u8, 105u8, 116u8, 105u8, 111u8, 110u8]
}

pub fn nm_tracking_position_bytes() -> (v: Vec<u8>)
    ensures
        v@ == nm_tracking_position(),
{
    let v: Vec<u8> = vec![116u8, 114u8, 97u8, 99u8, 107u8, 105u8, 110u8, 103u8, 80u8, 111u8, 115u8, 105u8, 116u8, 105u8, 111u8, 110u8];
    assert(v@ =~= nm_tracking_position());
    v
}

/// "unlimitedTracking"
pub open spec fn nm_unlimited_tracking() -> Seq<u8> {
    seq![117u8, 110u8, 108u8, 105u8, 109u8, 105u8, 116u8, 101u8, 100u8, 84u8, 114u8, 97u8, 99u8, 107u8, 105u8, 110u8, 103u8]
}

pub fn nm_unlimited_tracking_bytes() -> (v: Vec<u8>)
    ensures
        v@ == nm_unlimited_tracking(),
{
    let v: Vec<u8> = vec![117u8, 110u8, 108u8, 105u8, 109u8, 105u8, 116u8, 101u8, 100u8, 84u8, 114u8, 97u8, 99u8, 107u8, 105u8, 110u8, 103u8];
    assert(v@ =~= nm_unlimited_tracking());
    v
}

/// "xCenter"
pub open spec fn nm_x_center() -> Seq<u8> {
    seq![120u8, 67u8, 101u8, 110u8, 116u8, 101u8, 114u8]
}

pub fn nm_x_center_bytes() -> (v: Vec<u8>)
    ensures
        v@ == nm_x_center(),
{
    let v: Vec<u8> = vec![120u8, 67u8, 101u8, 110u8, 116u8, 101u8, 114u8];
    assert(v@ =~= nm_x_center());
    v
}

/// "zCenter"
pub open spec fn nm_z_center() -> Seq<u8> {
    seq![122u8, 67u8, 101u8, 110u8, 116u8, 101u8, 114u8]
}

pub fn nm_z_center_bytes() -> (v: Vec<u8>)
    ensures
        v@ == nm_z_center(),
{
    let v: Vec<u8> = vec![122u8, 67u8, 101u8, 110u8, 116u8, 101u8, 114u8];
    assert(v@ =~= nm_z_center());
    v
}

} // verus!
