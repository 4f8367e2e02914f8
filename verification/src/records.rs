//! The two fixed-width record layouts of the shared-memory image: sensor
//! descriptors and reading descriptors.
//!
//! Field offsets follow the provider's published element layouts.  Each
//! element carries its user-facing name twice, once in the provider's
//! native (ANSI) encoding and once as UTF-8; the UTF-8 copy is the one
//! decoded to text, the native-encoded original is kept as raw bytes.
//! The four per-reading values are IEEE 754 doubles; the decoder stores
//! their raw bit patterns, and the embedding program reinterprets them.

use vstd::prelude::*;

use crate::bytes::le_u32_at;
use crate::bytes::le_u64_at;
use crate::bytes::read_trimmed_field;
use crate::bytes::read_u32_le;
use crate::bytes::read_u64_le;
use crate::bytes::trim_trailing_nuls;
use crate::error::HwinfoError;
use crate::text::decoded_field;
use crate::text::read_text_field;

verus! {

/// Width of every fixed name/label field.
pub const NAME_FIELD_LEN: usize = 128;

/// Width of every fixed unit field.
pub const UNIT_FIELD_LEN: usize = 16;

/// Bytes a sensor element occupies: id, instance, three name fields.
pub const SENSOR_ELEMENT_BYTES: usize = 392;

/// Bytes a reading element occupies: tag, sensor index, reading id, two
/// labels and a unit in the native encoding, four doubles, then the UTF-8
/// label and unit copies.
pub const READING_ELEMENT_BYTES: usize = 460;

/// Offset of the sensor id within a sensor element.
pub const SENSOR_ID_OFF: usize = 0;

/// Offset of the sensor instance number.
pub const SENSOR_INST_OFF: usize = 4;

/// Offset of the original (native-encoded) sensor name.
pub const SENSOR_NAME_ORIG_OFF: usize = 8;

/// Offset of the UTF-8 user-facing sensor name.  The native-encoded copy of
/// the user name at offset 136 is not read.
pub const SENSOR_NAME_USER_OFF: usize = 264;

/// Offset of the reading-type tag within a reading element.
pub const READING_TAG_OFF: usize = 0;

/// Offset of the owning sensor's position in the catalog build order.
pub const READING_SENSOR_INDEX_OFF: usize = 4;

/// Offset of the numeric reading id.
pub const READING_ID_OFF: usize = 8;

/// Offset of the original (native-encoded) reading label.
pub const READING_LABEL_ORIG_OFF: usize = 12;

/// Offset of the current value (an IEEE 754 double, stored as bits).
pub const READING_VALUE_OFF: usize = 284;

/// Offset of the minimum value.
pub const READING_VALUE_MIN_OFF: usize = 292;

/// Offset of the maximum value.
pub const READING_VALUE_MAX_OFF: usize = 300;

/// Offset of the average value.
pub const READING_VALUE_AVG_OFF: usize = 308;

/// Offset of the UTF-8 user-facing reading label.  The native-encoded
/// copies of the user label (offset 140) and unit (offset 268) are not read.
pub const READING_LABEL_USER_OFF: usize = 316;

/// Offset of the UTF-8 unit text.
pub const READING_UNIT_OFF: usize = 444;

/// The kind of quantity a reading reports, from the element's type tag.
#[derive(Clone, Copy, Debug, PartialEq, Eq, Structural)]
pub enum SensorReadingType {
    SensorTypeNone,
    SensorTypeTemp,
    SensorTypeVolt,
    SensorTypeFan,
    SensorTypeCurrent,
    SensorTypePower,
    SensorTypeClock,
    SensorTypeUsage,
    SensorTypeOther,
}

/// The reading type a tag value denotes; `None` for a tag the layout does
/// not define.
pub open spec fn spec_reading_type(tag: u32) -> Option<SensorReadingType> {
    if tag == 0 {
        Some(SensorReadingType::SensorTypeNone)
    } else if tag == 1 {
        Some(SensorReadingType::SensorTypeTemp)
    } else if tag == 2 {
        Some(SensorReadingType::SensorTypeVolt)
    } else if tag == 3 {
        Some(SensorReadingType::SensorTypeFan)
    } else if tag == 4 {
        Some(SensorReadingType::SensorTypeCurrent)
    } else if tag == 5 {
        Some(SensorReadingType::SensorTypePower)
    } else if tag == 6 {
        Some(SensorReadingType::SensorTypeClock)
    } else if tag == 7 {
        Some(SensorReadingType::SensorTypeUsage)
    } else if tag == 8 {
        Some(SensorReadingType::SensorTypeOther)
    } else {
        None
    }
}

/// Maps a decoded tag value to the reading type it denotes.
pub fn reading_type_from_tag(tag: u32) -> (r: Option<SensorReadingType>)
    ensures
        r == spec_reading_type(tag),
{
    match tag {
        0 => Some(SensorReadingType::SensorTypeNone),
        1 => Some(SensorReadingType::SensorTypeTemp),
        2 => Some(SensorReadingType::SensorTypeVolt),
        3 => Some(SensorReadingType::SensorTypeFan),
        4 => Some(SensorReadingType::SensorTypeCurrent),
        5 => Some(SensorReadingType::SensorTypePower),
        6 => Some(SensorReadingType::SensorTypeClock),
        7 => Some(SensorReadingType::SensorTypeUsage),
        8 => Some(SensorReadingType::SensorTypeOther),
        _ => None,
    }
}

/// Mathematical image of a decoded sensor element.
#[verifier::ext_equal]
pub struct SensorModel {
    pub dw_sensor_id: u32,
    pub dw_sensor_inst: u32,
    pub name_orig: Seq<u8>,
    pub name_user: Seq<char>,
}

/// Mathematical image of a decoded reading element.
#[verifier::ext_equal]
pub struct ReadingModel {
    pub t_reading: SensorReadingType,
    pub dw_sensor_index: u32,
    pub dw_reading_id: u32,
    pub label_orig: Seq<u8>,
    pub label_user: Seq<char>,
    pub unit: Seq<char>,
    pub value_bits: u64,
    pub value_min_bits: u64,
    pub value_max_bits: u64,
    pub value_avg_bits: u64,
}

/// A decoded sensor element: the identity of one monitored device.
#[derive(Debug)]
pub struct HwinfoSensorsSensorElement {
    pub dw_sensor_id: u32,
    pub dw_sensor_inst: u32,
    /// The original name, in the provider's native encoding, padding
    /// stripped.
    pub name_orig: Vec<u8>,
    /// The user-facing name; the catalog key.
    pub name_user: String,
}

impl View for HwinfoSensorsSensorElement {
    type V = SensorModel;

    open spec fn view(&self) -> SensorModel {
        SensorModel {
            dw_sensor_id: self.dw_sensor_id,
            dw_sensor_inst: self.dw_sensor_inst,
            name_orig: self.name_orig@,
            name_user: self.name_user@,
        }
    }
}

impl Clone for HwinfoSensorsSensorElement {
    fn clone(&self) -> (r: Self)
        ensures
            r@ == self@,
    {
        HwinfoSensorsSensorElement {
            dw_sensor_id: self.dw_sensor_id,
            dw_sensor_inst: self.dw_sensor_inst,
            name_orig: clone_bytes(&self.name_orig),
            name_user: self.name_user.clone(),
        }
    }
}

impl PartialEq for HwinfoSensorsSensorElement {
    fn eq(&self, other: &Self) -> (r: bool) {
        let r = self.dw_sensor_id == other.dw_sensor_id && self.dw_sensor_inst
            == other.dw_sensor_inst && self.name_orig == other.name_orig && self.name_user
            == other.name_user;
        proof {
            if r {
                assert(self@ =~= other@);
            }
        }
        r
    }
}

impl vstd::std_specs::cmp::PartialEqSpecImpl for HwinfoSensorsSensorElement {
    open spec fn obeys_eq_spec() -> bool {
        true
    }

    open spec fn eq_spec(&self, other: &Self) -> bool {
        self@ == other@
    }
}

impl Eq for HwinfoSensorsSensorElement {}

/// A decoded reading element: one metric reported under a sensor.
#[derive(Debug)]
pub struct HwinfoSensorsReadingElement {
    pub t_reading: SensorReadingType,
    /// Position of the owning sensor in the catalog build order.
    pub dw_sensor_index: u32,
    pub dw_reading_id: u32,
    /// The original label, in the provider's native encoding, padding
    /// stripped.
    pub label_orig: Vec<u8>,
    /// The user-facing label; the key within the owning sensor.
    pub label_user: String,
    pub unit: String,
    /// Current value, as the bit pattern of an IEEE 754 double.
    pub value_bits: u64,
    pub value_min_bits: u64,
    pub value_max_bits: u64,
    pub value_avg_bits: u64,
}

impl View for HwinfoSensorsReadingElement {
    type V = ReadingModel;

    open spec fn view(&self) -> ReadingModel {
        ReadingModel {
            t_reading: self.t_reading,
            dw_sensor_index: self.dw_sensor_index,
            dw_reading_id: self.dw_reading_id,
            label_orig: self.label_orig@,
            label_user: self.label_user@,
            unit: self.unit@,
            value_bits: self.value_bits,
            value_min_bits: self.value_min_bits,
            value_max_bits: self.value_max_bits,
            value_avg_bits: self.value_avg_bits,
        }
    }
}

impl Clone for HwinfoSensorsReadingElement {
    fn clone(&self) -> (r: Self)
        ensures
            r@ == self@,
    {
        HwinfoSensorsReadingElement {
            t_reading: self.t_reading,
            dw_sensor_index: self.dw_sensor_index,
            dw_reading_id: self.dw_reading_id,
            label_orig: clone_bytes(&self.label_orig),
            label_user: self.label_user.clone(),
            unit: self.unit.clone(),
            value_bits: self.value_bits,
            value_min_bits: self.value_min_bits,
            value_max_bits: self.value_max_bits,
            value_avg_bits: self.value_avg_bits,
        }
    }
}

impl PartialEq for HwinfoSensorsReadingElement {
    fn eq(&self, other: &Self) -> (r: bool) {
        let r = self.t_reading == other.t_reading && self.dw_sensor_index == other.dw_sensor_index
            && self.dw_reading_id == other.dw_reading_id && self.label_orig == other.label_orig
            && self.label_user == other.label_user && self.unit == other.unit && self.value_bits
            == other.value_bits && self.value_min_bits == other.value_min_bits
            && self.value_max_bits == other.value_max_bits && self.value_avg_bits
            == other.value_avg_bits;
        proof {
            if r {
                assert(self@ =~= other@);
            }
        }
        r
    }
}

impl vstd::std_specs::cmp::PartialEqSpecImpl for HwinfoSensorsReadingElement {
    open spec fn obeys_eq_spec() -> bool {
        true
    }

    open spec fn eq_spec(&self, other: &Self) -> bool {
        self@ == other@
    }
}

impl Eq for HwinfoSensorsReadingElement {}

/// Copies a byte vector.
fn clone_bytes(v: &Vec<u8>) -> (r: Vec<u8>)
    ensures
        r@ == v@,
{
    let mut r: Vec<u8> = Vec::new();
    let mut i: usize = 0;
    while i < v.len()
        invariant
            0 <= i <= v@.len(),
            r@ == v@.subrange(0, i as int),
        decreases v@.len() - i,
    {
        r.push(v[i]);
        assert(r@ =~= v@.subrange(0, i + 1));
        i = i + 1;
    }
    assert(r@ =~= v@);
    r
}

/// The sensor element at `off` as its mathematical image; `None` when its
/// user-facing name is not valid UTF-8.
pub open spec fn spec_decode_sensor(b: Seq<u8>, off: int) -> Option<SensorModel>
    recommends
        0 <= off,
        off + SENSOR_ELEMENT_BYTES <= b.len(),
{
    match decoded_field(b, off + SENSOR_NAME_USER_OFF, NAME_FIELD_LEN as int) {
        Some(name) => Some(
            SensorModel {
                dw_sensor_id: le_u32_at(b, off + SENSOR_ID_OFF),
                dw_sensor_inst: le_u32_at(b, off + SENSOR_INST_OFF),
                name_orig: trim_trailing_nuls(
                    b.subrange(
                        off + SENSOR_NAME_ORIG_OFF,
                        off + SENSOR_NAME_ORIG_OFF + NAME_FIELD_LEN,
                    ),
                ),
                name_user: name,
            },
        ),
        None => None,
    }
}

/// Decodes the sensor element at `off`.
pub fn decode_sensor_element(b: &[u8], off: usize) -> (r: Result<
    HwinfoSensorsSensorElement,
    HwinfoError,
>)
    requires
        off + SENSOR_ELEMENT_BYTES <= b@.len(),
    ensures
        r matches Ok(s) ==> spec_decode_sensor(b@, off as int) == Some(s@),
        r is Err <==> spec_decode_sensor(b@, off as int) is None,
        r matches Err(e) ==> e == HwinfoError::DecodeError,
{
    // The executable length pins the buffer below `usize::MAX`, so the
    // offset arithmetic cannot overflow.
    let _buf_len = b.len();
    let name_user = match read_text_field(b, off + SENSOR_NAME_USER_OFF, NAME_FIELD_LEN) {
        Ok(s) => s,
        Err(e) => {
            return Err(e);
        },
    };
    let name_orig = read_trimmed_field(b, off + SENSOR_NAME_ORIG_OFF, NAME_FIELD_LEN);
    Ok(
        HwinfoSensorsSensorElement {
            dw_sensor_id: read_u32_le(b, off + SENSOR_ID_OFF),
            dw_sensor_inst: read_u32_le(b, off + SENSOR_INST_OFF),
            name_orig,
            name_user,
        },
    )
}

/// The reading element at `off` as its mathematical image; `None` when its
/// type tag is undefined or its user-facing label or unit is not valid
/// UTF-8.
pub open spec fn spec_decode_reading(b: Seq<u8>, off: int) -> Option<ReadingModel>
    recommends
        0 <= off,
        off + READING_ELEMENT_BYTES <= b.len(),
{
    let tag = spec_reading_type(le_u32_at(b, off + READING_TAG_OFF));
    let label_user = decoded_field(b, off + READING_LABEL_USER_OFF, NAME_FIELD_LEN as int);
    let unit = decoded_field(b, off + READING_UNIT_OFF, UNIT_FIELD_LEN as int);
    if tag is Some && label_user is Some && unit is Some {
        Some(
            ReadingModel {
                t_reading: tag->Some_0,
                dw_sensor_index: le_u32_at(b, off + READING_SENSOR_INDEX_OFF),
                dw_reading_id: le_u32_at(b, off + READING_ID_OFF),
                label_orig: trim_trailing_nuls(
                    b.subrange(
                        off + READING_LABEL_ORIG_OFF,
                        off + READING_LABEL_ORIG_OFF + NAME_FIELD_LEN,
                    ),
                ),
                label_user: label_user->Some_0,
                unit: unit->Some_0,
                value_bits: le_u64_at(b, off + READING_VALUE_OFF),
                value_min_bits: le_u64_at(b, off + READING_VALUE_MIN_OFF),
                value_max_bits: le_u64_at(b, off + READING_VALUE_MAX_OFF),
                value_avg_bits: le_u64_at(b, off + READING_VALUE_AVG_OFF),
            },
        )
    } else {
        None
    }
}

/// Decodes the reading element at `off`.
pub fn decode_reading_element(b: &[u8], off: usize) -> (r: Result<
    HwinfoSensorsReadingElement,
    HwinfoError,
>)
    requires
        off + READING_ELEMENT_BYTES <= b@.len(),
    ensures
        r matches Ok(s) ==> spec_decode_reading(b@, off as int) == Some(s@),
        r is Err <==> spec_decode_reading(b@, off as int) is None,
        r matches Err(e) ==> e == HwinfoError::DecodeError,
{
    // The executable length pins the buffer below `usize::MAX`, so the
    // offset arithmetic cannot overflow.
    let _buf_len = b.len();
    let t_reading = match reading_type_from_tag(read_u32_le(b, off + READING_TAG_OFF)) {
        Some(t) => t,
        None => {
            return Err(HwinfoError::DecodeError);
        },
    };
    let label_user = match read_text_field(b, off + READING_LABEL_USER_OFF, NAME_FIELD_LEN) {
        Ok(s) => s,
        Err(e) => {
            return Err(e);
        },
    };
    let unit = match read_text_field(b, off + READING_UNIT_OFF, UNIT_FIELD_LEN) {
        Ok(s) => s,
        Err(e) => {
            return Err(e);
        },
    };
    let label_orig = read_trimmed_field(b, off + READING_LABEL_ORIG_OFF, NAME_FIELD_LEN);
    Ok(
        HwinfoSensorsReadingElement {
            t_reading,
            dw_sensor_index: read_u32_le(b, off + READING_SENSOR_INDEX_OFF),
            dw_reading_id: read_u32_le(b, off + READING_ID_OFF),
            label_orig,
            label_user,
            unit,
            value_bits: read_u64_le(b, off + READING_VALUE_OFF),
            value_min_bits: read_u64_le(b, off + READING_VALUE_MIN_OFF),
            value_max_bits: read_u64_le(b, off + READING_VALUE_MAX_OFF),
            value_avg_bits: read_u64_le(b, off + READING_VALUE_AVG_OFF),
        },
    )
}

} // verus!
