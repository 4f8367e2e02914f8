//! The fixed leading record of the shared-memory image.
//!
//! The header carries three opaque identification numbers, the provider's
//! poll timestamp, and the offset, element size and element count of the
//! two variable-length sections that follow.  All multi-byte fields are
//! little-endian, as the provider publishes them.

use vstd::prelude::*;

use crate::bytes::le_i64_at;
use crate::bytes::le_u32_at;
use crate::bytes::read_i64_le;
use crate::bytes::read_u32_le;
use crate::error::HwinfoError;
use crate::records::READING_ELEMENT_BYTES;
use crate::records::SENSOR_ELEMENT_BYTES;

verus! {

/// Size of the header record in bytes.
pub const HEADER_BYTES: usize = 44;

/// The decoded header.  The signature, version and revision are decoded but
/// deliberately not validated: the provider does not document their expected
/// values, and the section descriptors are bounds-checked against the buffer
/// instead.
#[derive(Clone, Copy, Debug, PartialEq, Eq, Structural)]
pub struct HwinfoSensorsSharedMem2 {
    pub dw_signature: u32,
    pub dw_version: u32,
    pub dw_revision: u32,
    /// Provider poll timestamp; opaque to this crate.
    pub poll_time: i64,
    pub dw_offset_of_sensor_section: u32,
    pub dw_size_of_sensor_element: u32,
    pub dw_num_sensor_elements: u32,
    pub dw_offset_of_reading_section: u32,
    pub dw_size_of_reading_element: u32,
    pub dw_num_reading_elements: u32,
}

/// The header the buffer starts with; `None` when the buffer cannot hold
/// one.
pub open spec fn spec_decode_header(b: Seq<u8>) -> Option<HwinfoSensorsSharedMem2> {
    if b.len() < HEADER_BYTES {
        None
    } else {
        Some(
            HwinfoSensorsSharedMem2 {
                dw_signature: le_u32_at(b, 0),
                dw_version: le_u32_at(b, 4),
                dw_revision: le_u32_at(b, 8),
                poll_time: le_i64_at(b, 12),
                dw_offset_of_sensor_section: le_u32_at(b, 20),
                dw_size_of_sensor_element: le_u32_at(b, 24),
                dw_num_sensor_elements: le_u32_at(b, 28),
                dw_offset_of_reading_section: le_u32_at(b, 32),
                dw_size_of_reading_element: le_u32_at(b, 36),
                dw_num_reading_elements: le_u32_at(b, 40),
            },
        )
    }
}

/// The sensor section lies inside the buffer and each element is at least
/// as large as the fixed sensor record layout.
pub open spec fn sensor_section_ok(h: HwinfoSensorsSharedMem2, buf_len: int) -> bool {
    &&& h.dw_size_of_sensor_element >= SENSOR_ELEMENT_BYTES
    &&& h.dw_offset_of_sensor_section + h.dw_num_sensor_elements * h.dw_size_of_sensor_element
        <= buf_len
}

/// The reading section lies inside the buffer and each element is at least
/// as large as the fixed reading record layout.
pub open spec fn reading_section_ok(h: HwinfoSensorsSharedMem2, buf_len: int) -> bool {
    &&& h.dw_size_of_reading_element >= READING_ELEMENT_BYTES
    &&& h.dw_offset_of_reading_section + h.dw_num_reading_elements * h.dw_size_of_reading_element
        <= buf_len
}

/// Decodes the header at the start of the buffer.
pub fn decode_header(b: &[u8]) -> (r: Result<HwinfoSensorsSharedMem2, HwinfoError>)
    ensures
        r matches Ok(h) ==> spec_decode_header(b@) == Some(h),
        r is Err <==> b@.len() < HEADER_BYTES,
        r matches Err(e) ==> e == HwinfoError::DecodeError,
{
    if b.len() < HEADER_BYTES {
        return Err(HwinfoError::DecodeError);
    }
    Ok(
        HwinfoSensorsSharedMem2 {
            dw_signature: read_u32_le(b, 0),
            dw_version: read_u32_le(b, 4),
            dw_revision: read_u32_le(b, 8),
            poll_time: read_i64_le(b, 12),
            dw_offset_of_sensor_section: read_u32_le(b, 20),
            dw_size_of_sensor_element: read_u32_le(b, 24),
            dw_num_sensor_elements: read_u32_le(b, 28),
            dw_offset_of_reading_section: read_u32_le(b, 32),
            dw_size_of_reading_element: read_u32_le(b, 36),
            dw_num_reading_elements: read_u32_le(b, 40),
        },
    )
}

/// The product of two values below `2^32` stays well inside `u64`.
proof fn lemma_u32_product_fits(a: u64, b: u64)
    requires
        a < 0x1_0000_0000,
        b < 0x1_0000_0000,
    ensures
        a * b <= 0xFFFF_FFFE_0000_0001,
{
    assert(a * b <= 0xFFFF_FFFE_0000_0001) by (nonlinear_arith)
        requires
            a < 0x1_0000_0000,
            b < 0x1_0000_0000,
    ;
}

/// Checks `sensor_section_ok` on the live buffer.
pub fn check_sensor_section(h: &HwinfoSensorsSharedMem2, b: &[u8]) -> (r: bool)
    ensures
        r == sensor_section_ok(*h, b@.len() as int),
{
    proof {
        lemma_u32_product_fits(
            h.dw_num_sensor_elements as u64,
            h.dw_size_of_sensor_element as u64,
        );
    }
    h.dw_size_of_sensor_element >= SENSOR_ELEMENT_BYTES as u32
        && (h.dw_offset_of_sensor_section as u64) + (h.dw_num_sensor_elements as u64) * (
    h.dw_size_of_sensor_element as u64) <= b.len() as u64
}

/// Checks `reading_section_ok` on the live buffer.
pub fn check_reading_section(h: &HwinfoSensorsSharedMem2, b: &[u8]) -> (r: bool)
    ensures
        r == reading_section_ok(*h, b@.len() as int),
{
    proof {
        lemma_u32_product_fits(
            h.dw_num_reading_elements as u64,
            h.dw_size_of_reading_element as u64,
        );
    }
    h.dw_size_of_reading_element >= READING_ELEMENT_BYTES as u32
        && (h.dw_offset_of_reading_section as u64) + (h.dw_num_reading_elements as u64) * (
    h.dw_size_of_reading_element as u64) <= b.len() as u64
}

} // verus!
