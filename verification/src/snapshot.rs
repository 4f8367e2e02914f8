//! The decoded snapshot: an ordered sensor catalog with per-sensor reading
//! maps, built once from the shared-memory image and refreshed in place on
//! every poll.
//!
//! The catalog keeps sensors in two forms, as the provider's layout
//! requires: `master_sensor_names` lists the user-facing name of every
//! sensor element in build order — a reading element names its owner by a
//! position in this list — and `master_readings` holds one entry per
//! distinct name.  Two sensor elements that decode to the same trimmed name
//! are treated as one entry, the later overwriting the earlier.  Within an
//! entry, readings are keyed by their user-facing label, kept in first-
//! insertion order; a second reading with the same label replaces the
//! first in place.

use vstd::arithmetic::mul::lemma_mul_inequality;
use vstd::prelude::*;

use crate::error::HwinfoError;
use crate::header::check_reading_section;
use crate::header::check_sensor_section;
use crate::header::decode_header;
use crate::header::reading_section_ok;
use crate::header::sensor_section_ok;
use crate::header::spec_decode_header;
use crate::header::HwinfoSensorsSharedMem2;
use crate::records::decode_reading_element;
use crate::records::decode_sensor_element;
use crate::records::spec_decode_reading;
use crate::records::spec_decode_sensor;
use crate::records::HwinfoSensorsSensorElement;
use crate::records::HwinfoSensorsReadingElement;
use crate::records::ReadingModel;
use crate::records::SensorModel;
use crate::records::SENSOR_ELEMENT_BYTES;

verus! {

/// Mathematical image of one catalog entry: a sensor identity and its
/// readings in insertion order.
#[verifier::ext_equal]
pub struct SensorEntryModel {
    pub sensor: SensorModel,
    pub reading: Seq<ReadingModel>,
}

/// Mathematical image of the whole snapshot.
#[verifier::ext_equal]
pub struct HwinfoModel {
    /// User-facing name of every sensor element, in build order; the list
    /// a reading's positional sensor index points into.
    pub master_sensor_names: Seq<Seq<char>>,
    /// One entry per distinct sensor name.
    pub sensors: Seq<SensorEntryModel>,
}

/// Some catalog entry carries this sensor name.
pub open spec fn has_sensor(ss: Seq<SensorEntryModel>, name: Seq<char>) -> bool {
    exists|k: int| 0 <= k < ss.len() && ss[k].sensor.name_user == name
}

/// The index of the catalog entry carrying this name; meaningful when the
/// name is present and entry names are unique.
pub open spec fn sensor_index_of(ss: Seq<SensorEntryModel>, name: Seq<char>) -> int {
    choose|k: int| 0 <= k < ss.len() && ss[k].sensor.name_user == name
}

/// Some reading in the list carries this label.
pub open spec fn has_label(rs: Seq<ReadingModel>, label: Seq<char>) -> bool {
    exists|j: int| 0 <= j < rs.len() && rs[j].label_user == label
}

/// The index of the reading carrying this label; meaningful when the label
/// is present and labels are unique.
pub open spec fn label_index_of(rs: Seq<ReadingModel>, label: Seq<char>) -> int {
    choose|j: int| 0 <= j < rs.len() && rs[j].label_user == label
}

/// No two readings in the list share a label.
pub open spec fn labels_unique(rs: Seq<ReadingModel>) -> bool {
    forall|i: int, j: int| 0 <= i < j < rs.len() ==> rs[i].label_user != rs[j].label_user
}

/// No two catalog entries share a sensor name.
pub open spec fn names_unique(ss: Seq<SensorEntryModel>) -> bool {
    forall|i: int, j: int| 0 <= i < j < ss.len() ==> ss[i].sensor.name_user != ss[j].sensor.name_user
}

impl HwinfoModel {
    /// Structural soundness of a snapshot: entry names are unique, every
    /// build-order name resolves to an entry, and labels are unique within
    /// each entry.
    pub open spec fn wf(self) -> bool {
        &&& names_unique(self.sensors)
        &&& forall|i: int|
            0 <= i < self.master_sensor_names.len() ==> has_sensor(
                self.sensors,
                #[trigger] self.master_sensor_names[i],
            )
        &&& forall|k: int|
            0 <= k < self.sensors.len() ==> labels_unique(#[trigger] self.sensors[k].reading)
    }

    /// The empty snapshot the catalog build starts from.
    pub open spec fn empty() -> HwinfoModel {
        HwinfoModel { master_sensor_names: Seq::empty(), sensors: Seq::empty() }
    }
}

/// One catalog entry: a sensor and the readings last pulled for it.
#[derive(Debug)]
pub struct Sensor {
    pub sensor: HwinfoSensorsSensorElement,
    /// Readings keyed by user-facing label, in first-insertion order.
    pub reading: Vec<HwinfoSensorsReadingElement>,
}

impl View for Sensor {
    type V = SensorEntryModel;

    open spec fn view(&self) -> SensorEntryModel {
        SensorEntryModel {
            sensor: self.sensor@,
            reading: self.reading@.map_values(|e: HwinfoSensorsReadingElement| e@),
        }
    }
}

/// The name-keyed half of the snapshot: one entry per distinct sensor name.
#[derive(Debug)]
pub struct MasterReadings {
    pub sensors: Vec<Sensor>,
}

impl View for MasterReadings {
    type V = Seq<SensorEntryModel>;

    open spec fn view(&self) -> Seq<SensorEntryModel> {
        self.sensors@.map_values(|s: Sensor| s@)
    }
}

/// The snapshot: built once at connect time, refreshed by `pull`.
#[derive(Debug)]
pub struct Hwinfo {
    /// User-facing name of every sensor element, in build order.
    pub master_sensor_names: Vec<String>,
    /// One entry per distinct sensor name, carrying that sensor's readings.
    pub master_readings: MasterReadings,
}

impl View for Hwinfo {
    type V = HwinfoModel;

    open spec fn view(&self) -> HwinfoModel {
        HwinfoModel {
            master_sensor_names: self.master_sensor_names@.map_values(|s: String| s@),
            sensors: self.master_readings@,
        }
    }
}

/// Copies a string vector; `String::clone` preserves the value exactly.
fn clone_strings(v: &Vec<String>) -> (r: Vec<String>)
    ensures
        r@ == v@,
{
    let mut r: Vec<String> = Vec::new();
    let mut i: usize = 0;
    while i < v.len()
        invariant
            0 <= i <= v@.len(),
            r@ == v@.subrange(0, i as int),
        decreases v@.len() - i,
    {
        r.push(v[i].clone());
        assert(r@ =~= v@.subrange(0, i + 1));
        i = i + 1;
    }
    assert(r@ =~= v@);
    r
}

/// Copies a reading list, preserving every reading's image.
fn clone_readings(v: &Vec<HwinfoSensorsReadingElement>) -> (r: Vec<HwinfoSensorsReadingElement>)
    ensures
        r@.map_values(|e: HwinfoSensorsReadingElement| e@) == v@.map_values(
            |e: HwinfoSensorsReadingElement| e@,
        ),
{
    let mut r: Vec<HwinfoSensorsReadingElement> = Vec::new();
    let mut i: usize = 0;
    while i < v.len()
        invariant
            0 <= i <= v@.len(),
            r@.len() == i,
            forall|j: int| 0 <= j < i ==> (#[trigger] r@[j])@ == v@[j]@,
        decreases v@.len() - i,
    {
        r.push(v[i].clone());
        i = i + 1;
    }
    assert(r@.map_values(|e: HwinfoSensorsReadingElement| e@) =~~= v@.map_values(
        |e: HwinfoSensorsReadingElement| e@,
    ));
    r
}

/// Whether two string vectors spell the same sequence of strings.
fn string_vecs_eq(a: &Vec<String>, b: &Vec<String>) -> (r: bool)
    ensures
        r == (a@.map_values(|s: String| s@) == b@.map_values(|s: String| s@)),
{
    let ghost am = a@.map_values(|s: String| s@);
    let ghost bm = b@.map_values(|s: String| s@);
    if a.len() != b.len() {
        proof {
            assert(am.len() != bm.len());
        }
        return false;
    }
    let n = a.len();
    let mut i: usize = 0;
    while i < n
        invariant
            0 <= i <= n,
            n == a@.len(),
            n == b@.len(),
            am == a@.map_values(|s: String| s@),
            bm == b@.map_values(|s: String| s@),
            forall|j: int| 0 <= j < i ==> am[j] == bm[j],
        decreases n - i,
    {
        if !a[i].eq(&b[i]) {
            proof {
                assert(am[i as int] != bm[i as int]);
            }
            return false;
        }
        i = i + 1;
    }
    proof {
        assert(am =~= bm);
    }
    true
}

impl Clone for Sensor {
    fn clone(&self) -> (r: Self)
        ensures
            r@ == self@,
    {
        let r = Sensor { sensor: self.sensor.clone(), reading: clone_readings(&self.reading) };
        proof {
            assert(r@ =~~= self@);
        }
        r
    }
}

impl PartialEq for Sensor {
    fn eq(&self, other: &Self) -> (r: bool) {
        let r = self.sensor == other.sensor && readings_eq(&self.reading, &other.reading);
        proof {
            if r {
                assert(self@ =~~= other@);
            }
        }
        r
    }
}

impl vstd::std_specs::cmp::PartialEqSpecImpl for Sensor {
    open spec fn obeys_eq_spec() -> bool {
        true
    }

    open spec fn eq_spec(&self, other: &Self) -> bool {
        self@ == other@
    }
}

impl Eq for Sensor {}

/// Whether two reading lists carry the same readings in the same order.
fn readings_eq(a: &Vec<HwinfoSensorsReadingElement>, b: &Vec<HwinfoSensorsReadingElement>) -> (r:
    bool)
    ensures
        r == (a@.map_values(|e: HwinfoSensorsReadingElement| e@) == b@.map_values(
            |e: HwinfoSensorsReadingElement| e@,
        )),
{
    let ghost am = a@.map_values(|e: HwinfoSensorsReadingElement| e@);
    let ghost bm = b@.map_values(|e: HwinfoSensorsReadingElement| e@);
    if a.len() != b.len() {
        proof {
            assert(am.len() != bm.len());
        }
        return false;
    }
    let n = a.len();
    let mut i: usize = 0;
    while i < n
        invariant
            0 <= i <= n,
            n == a@.len(),
            n == b@.len(),
            am == a@.map_values(|e: HwinfoSensorsReadingElement| e@),
            bm == b@.map_values(|e: HwinfoSensorsReadingElement| e@),
            forall|j: int| 0 <= j < i ==> am[j] == bm[j],
        decreases n - i,
    {
        if !(a[i] == b[i]) {
            proof {
                assert(am[i as int] != bm[i as int]);
            }
            return false;
        }
        i = i + 1;
    }
    proof {
        assert(am =~~= bm);
    }
    true
}

impl Clone for MasterReadings {
    fn clone(&self) -> (r: Self)
        ensures
            r@ == self@,
    {
        let mut sensors: Vec<Sensor> = Vec::new();
        let mut i: usize = 0;
        while i < self.sensors.len()
            invariant
                0 <= i <= self.sensors@.len(),
                sensors@.len() == i,
                forall|j: int| 0 <= j < i ==> (#[trigger] sensors@[j])@ == self.sensors@[j]@,
            decreases self.sensors@.len() - i,
        {
            sensors.push(self.sensors[i].clone());
            i = i + 1;
        }
        let r = MasterReadings { sensors };
        proof {
            assert(r@ =~~= self@);
        }
        r
    }
}

impl PartialEq for MasterReadings {
    fn eq(&self, other: &Self) -> (r: bool) {
        let r = sensors_eq(&self.sensors, &other.sensors);
        r
    }
}

impl vstd::std_specs::cmp::PartialEqSpecImpl for MasterReadings {
    open spec fn obeys_eq_spec() -> bool {
        true
    }

    open spec fn eq_spec(&self, other: &Self) -> bool {
        self@ == other@
    }
}

impl Eq for MasterReadings {}

/// Whether two catalogs carry the same entries in the same order.
fn sensors_eq(a: &Vec<Sensor>, b: &Vec<Sensor>) -> (r: bool)
    ensures
        r == (a@.map_values(|s: Sensor| s@) == b@.map_values(|s: Sensor| s@)),
{
    let ghost am = a@.map_values(|s: Sensor| s@);
    let ghost bm = b@.map_values(|s: Sensor| s@);
    if a.len() != b.len() {
        proof {
            assert(am.len() != bm.len());
        }
        return false;
    }
    let n = a.len();
    let mut i: usize = 0;
    while i < n
        invariant
            0 <= i <= n,
            n == a@.len(),
            n == b@.len(),
            am == a@.map_values(|s: Sensor| s@),
            bm == b@.map_values(|s: Sensor| s@),
            forall|j: int| 0 <= j < i ==> am[j] == bm[j],
        decreases n - i,
    {
        if !(a[i] == b[i]) {
            proof {
                assert(am[i as int] != bm[i as int]);
            }
            return false;
        }
        i = i + 1;
    }
    proof {
        assert(am =~~= bm);
    }
    true
}

impl Clone for Hwinfo {
    fn clone(&self) -> (r: Self)
        ensures
            r@ == self@,
    {
        let r = Hwinfo {
            master_sensor_names: clone_strings(&self.master_sensor_names),
            master_readings: self.master_readings.clone(),
        };
        proof {
            assert(r@ =~~= self@);
        }
        r
    }
}

impl PartialEq for Hwinfo {
    fn eq(&self, other: &Self) -> (r: bool) {
        let r = string_vecs_eq(&self.master_sensor_names, &other.master_sensor_names)
            && self.master_readings == other.master_readings;
        proof {
            if r {
                assert(self@ =~~= other@);
            }
        }
        r
    }
}

impl vstd::std_specs::cmp::PartialEqSpecImpl for Hwinfo {
    open spec fn obeys_eq_spec() -> bool {
        true
    }

    open spec fn eq_spec(&self, other: &Self) -> bool {
        self@ == other@
    }
}

impl Eq for Hwinfo {}

/// Inserts a freshly decoded sensor into the catalog: a new name becomes a
/// new entry with no readings, a repeated name overwrites that name's
/// entry in place.
pub open spec fn spec_sensor_insert(ss: Seq<SensorEntryModel>, s: SensorModel) -> Seq<
    SensorEntryModel,
> {
    let entry = SensorEntryModel { sensor: s, reading: Seq::empty() };
    if has_sensor(ss, s.name_user) {
        ss.update(sensor_index_of(ss, s.name_user), entry)
    } else {
        ss.push(entry)
    }
}

/// The snapshot after decoding the first `n` sensor elements; `None` when
/// one of them fails to decode.
pub open spec fn spec_build_catalog_prefix(
    b: Seq<u8>,
    h: HwinfoSensorsSharedMem2,
    n: int,
) -> Option<HwinfoModel>
    decreases n,
{
    if n <= 0 {
        Some(HwinfoModel::empty())
    } else {
        match spec_build_catalog_prefix(b, h, n - 1) {
            Some(m) => match spec_decode_sensor(
                b,
                h.dw_offset_of_sensor_section + (n - 1) * h.dw_size_of_sensor_element,
            ) {
                Some(s) => Some(
                    HwinfoModel {
                        master_sensor_names: m.master_sensor_names.push(s.name_user),
                        sensors: spec_sensor_insert(m.sensors, s),
                    },
                ),
                None => None,
            },
            None => None,
        }
    }
}

/// The catalog the whole buffer describes: header, bounds check, then every
/// sensor element in order.
pub open spec fn spec_build_catalog(b: Seq<u8>) -> Result<HwinfoModel, HwinfoError> {
    match spec_decode_header(b) {
        None => Err(HwinfoError::DecodeError),
        Some(h) => if !sensor_section_ok(h, b.len() as int) {
            Err(HwinfoError::DecodeError)
        } else {
            match spec_build_catalog_prefix(b, h, h.dw_num_sensor_elements as int) {
                Some(m) => Ok(m),
                None => Err(HwinfoError::DecodeError),
            }
        },
    }
}

/// A catalog prefix lists one name per element decoded, its entries all
/// empty, and is well formed.
proof fn lemma_build_catalog_prefix_wf(b: Seq<u8>, h: HwinfoSensorsSharedMem2, n: int)
    requires
        spec_build_catalog_prefix(b, h, n) is Some,
    ensures
        ({
            let m = spec_build_catalog_prefix(b, h, n)->Some_0;
            &&& m.wf()
            &&& m.master_sensor_names.len() == if n <= 0 { 0int } else { n }
            &&& m.sensors.len() <= m.master_sensor_names.len()
            &&& forall|k: int| 0 <= k < m.sensors.len() ==> m.sensors[k].reading.len() == 0
        }),
    decreases n,
{
    if n > 0 {
        lemma_build_catalog_prefix_wf(b, h, n - 1);
        let prev = spec_build_catalog_prefix(b, h, n - 1)->Some_0;
        let s = spec_decode_sensor(
            b,
            h.dw_offset_of_sensor_section + (n - 1) * h.dw_size_of_sensor_element,
        )->Some_0;
        let m = spec_build_catalog_prefix(b, h, n)->Some_0;
        if has_sensor(prev.sensors, s.name_user) {
            let k = sensor_index_of(prev.sensors, s.name_user);
            assert(m.sensors =~= prev.sensors.update(k, SensorEntryModel { sensor: s, reading: Seq::empty() }));
            assert forall|i: int|
                0 <= i < m.master_sensor_names.len() implies has_sensor(
                m.sensors,
                #[trigger] m.master_sensor_names[i],
            ) by {
                if i < n - 1 {
                    let name = prev.master_sensor_names[i];
                    let j = sensor_index_of(prev.sensors, name);
                    assert(0 <= j < prev.sensors.len() && prev.sensors[j].sensor.name_user == name);
                    if j == k {
                        assert(prev.sensors[k].sensor.name_user == s.name_user);
                        assert(m.sensors[k].sensor.name_user == name);
                    } else {
                        assert(m.sensors[j].sensor.name_user == name);
                    }
                } else {
                    assert(m.sensors[k].sensor.name_user == s.name_user);
                }
            }
        } else {
            assert forall|i: int|
                0 <= i < m.master_sensor_names.len() implies has_sensor(
                m.sensors,
                #[trigger] m.master_sensor_names[i],
            ) by {
                if i < n - 1 {
                    let name = prev.master_sensor_names[i];
                    let j = sensor_index_of(prev.sensors, name);
                    assert(m.sensors[j].sensor.name_user == name);
                } else {
                    assert(m.sensors[m.sensors.len() - 1].sensor.name_user == s.name_user);
                }
            }
        }
    }
}

/// Once a catalog prefix fails to decode, every longer prefix fails too.
proof fn lemma_catalog_prefix_none_propagates(
    b: Seq<u8>,
    h: HwinfoSensorsSharedMem2,
    n: int,
    n2: int,
)
    requires
        n <= n2,
        spec_build_catalog_prefix(b, h, n) is None,
    ensures
        spec_build_catalog_prefix(b, h, n2) is None,
    decreases n2 - n,
{
    if n < n2 {
        lemma_catalog_prefix_none_propagates(b, h, n, n2 - 1);
    }
}

/// Bounds the byte offset of element `i` of a section whose `count`
/// elements of `elem` bytes each fit below `bound`.
proof fn lemma_element_offset(base: int, elem: int, count: int, i: int, bound: int)
    requires
        0 <= base,
        0 <= elem,
        0 <= i < count,
        base + count * elem <= bound,
    ensures
        base + i * elem + elem <= bound,
        0 <= i * elem,
{
    lemma_mul_inequality(i + 1, count, elem);
    assert((i + 1) * elem == i * elem + elem) by (nonlinear_arith);
    assert(i * elem >= 0) by (nonlinear_arith)
        requires
            0 <= i,
            0 <= elem,
    ;
}

/// Finds the first catalog entry carrying this name.
pub(crate) fn find_sensor_index(sensors: &Vec<Sensor>, name: &String) -> (r: Option<usize>)
    ensures
        r matches Some(k) ==> 0 <= k < sensors@.len() && sensors@[k as int].sensor.name_user@
            == name@ && forall|j: int| 0 <= j < k ==> sensors@[j].sensor.name_user@ != name@,
        r is None ==> forall|j: int|
            0 <= j < sensors@.len() ==> sensors@[j].sensor.name_user@ != name@,
{
    let n = sensors.len();
    let mut k: usize = 0;
    while k < n
        invariant
            0 <= k <= n,
            n == sensors@.len(),
            forall|j: int| 0 <= j < k ==> sensors@[j].sensor.name_user@ != name@,
        decreases n - k,
    {
        if sensors[k].sensor.name_user.eq(name) {
            return Some(k);
        }
        k = k + 1;
    }
    None
}

/// Inserts a decoded sensor into the catalog as `spec_sensor_insert` says.
fn insert_sensor(sensors: &mut Vec<Sensor>, s: HwinfoSensorsSensorElement)
    requires
        names_unique(old(sensors)@.map_values(|x: Sensor| x@)),
    ensures
        final(sensors)@.map_values(|x: Sensor| x@) == spec_sensor_insert(
            old(sensors)@.map_values(|x: Sensor| x@),
            s@,
        ),
{
    let ghost ss = sensors@.map_values(|x: Sensor| x@);
    let ghost model = s@;
    let found = find_sensor_index(sensors, &s.name_user);
    let entry = Sensor { sensor: s, reading: Vec::new() };
    match found {
        Some(k) => {
            proof {
                assert(ss[k as int].sensor.name_user == model.name_user);
                assert(has_sensor(ss, model.name_user));
                let c = sensor_index_of(ss, model.name_user);
                assert(0 <= c < ss.len() && ss[c].sensor.name_user == model.name_user);
                assert(c == k as int);
            }
            sensors[k] = entry;
            proof {
                assert(sensors@.map_values(|x: Sensor| x@) =~~= spec_sensor_insert(ss, model));
            }
        },
        None => {
            proof {
                assert(!has_sensor(ss, model.name_user));
            }
            sensors.push(entry);
            proof {
                assert(sensors@.map_values(|x: Sensor| x@) =~~= spec_sensor_insert(ss, model));
            }
        },
    }
}

impl Hwinfo {
    /// Decodes the header and builds the sensor catalog, every entry with
    /// an empty reading map; readings arrive with the first `pull`.
    ///
    /// Fails with `DecodeError` when the buffer cannot hold a header, the
    /// declared sensor section would read past the buffer end or declares
    /// undersized elements, or a sensor name is not valid UTF-8.
    pub fn new(view: &[u8]) -> (r: Result<Hwinfo, HwinfoError>)
        ensures
            r matches Ok(hw) ==> spec_build_catalog(view@) == Ok::<HwinfoModel, HwinfoError>(hw@),
            r matches Ok(hw) ==> hw@.wf() && hw@.master_sensor_names.len() == spec_decode_header(
                view@,
            )->Some_0.dw_num_sensor_elements && forall|k: int|
                0 <= k < hw@.sensors.len() ==> hw@.sensors[k].reading.len() == 0,
            r is Err <==> spec_build_catalog(view@) is Err,
            r matches Err(e) ==> spec_build_catalog(view@) == Err::<HwinfoModel, HwinfoError>(e),
    {
        let h = match decode_header(view) {
            Ok(h) => h,
            Err(e) => {
                return Err(e);
            },
        };
        if !check_sensor_section(&h, view) {
            return Err(HwinfoError::DecodeError);
        }
        let buf_len = view.len();
        let base = h.dw_offset_of_sensor_section as usize;
        let elem = h.dw_size_of_sensor_element as usize;
        let count = h.dw_num_sensor_elements as usize;
        let mut names: Vec<String> = Vec::new();
        let mut sensors: Vec<Sensor> = Vec::new();
        let mut i: usize = 0;
        while i < count
            invariant
                0 <= i <= count,
                spec_decode_header(view@) == Some(h),
                sensor_section_ok(h, view@.len() as int),
                buf_len == view@.len(),
                base == h.dw_offset_of_sensor_section,
                elem == h.dw_size_of_sensor_element,
                count == h.dw_num_sensor_elements,
                spec_build_catalog_prefix(view@, h, i as int) == Some(
                    HwinfoModel {
                        master_sensor_names: names@.map_values(|s: String| s@),
                        sensors: sensors@.map_values(|x: Sensor| x@),
                    },
                ),
            decreases count - i,
        {
            proof {
                lemma_element_offset(
                    base as int,
                    elem as int,
                    count as int,
                    i as int,
                    buf_len as int,
                );
            }
            let off = base + i * elem;
            let s = match decode_sensor_element(view, off) {
                Ok(s) => s,
                Err(e) => {
                    proof {
                        assert(spec_build_catalog_prefix(view@, h, i + 1) is None);
                        lemma_catalog_prefix_none_propagates(view@, h, i + 1, count as int);
                    }
                    return Err(e);
                },
            };
            let ghost prev = HwinfoModel {
                master_sensor_names: names@.map_values(|s: String| s@),
                sensors: sensors@.map_values(|x: Sensor| x@),
            };
            proof {
                lemma_build_catalog_prefix_wf(view@, h, i as int);
            }
            let name = s.name_user.clone();
            insert_sensor(&mut sensors, s);
            names.push(name);
            proof {
                let cur = HwinfoModel {
                    master_sensor_names: names@.map_values(|s: String| s@),
                    sensors: sensors@.map_values(|x: Sensor| x@),
                };
                assert(cur.master_sensor_names =~= prev.master_sensor_names.push(
                    spec_decode_sensor(view@, off as int)->Some_0.name_user,
                ));
                assert(spec_build_catalog_prefix(view@, h, i + 1) == Some(cur));
            }
            i = i + 1;
        }
        let hw = Hwinfo { master_sensor_names: names, master_readings: MasterReadings { sensors } };
        proof {
            lemma_build_catalog_prefix_wf(view@, h, count as int);
        }
        Ok(hw)
    }
}

/// Inserts a decoded reading into an entry's reading list: a new label is
/// appended, a repeated label has its reading replaced in place, so the
/// later record wins.
pub open spec fn spec_reading_upsert(rs: Seq<ReadingModel>, r: ReadingModel) -> Seq<ReadingModel> {
    if has_label(rs, r.label_user) {
        rs.update(label_index_of(rs, r.label_user), r)
    } else {
        rs.push(r)
    }
}

/// Applies one decoded reading to the snapshot.  The reading names its
/// owner by position in the build-order name list; a position at or past
/// that list's end is an error.  The position resolves to a name, the name
/// to the entry carrying it, and the reading is upserted there by label.
/// A name with no entry leaves the snapshot unchanged; a well-formed
/// snapshot has an entry for every name.
pub open spec fn spec_apply_reading(m: HwinfoModel, r: ReadingModel) -> Result<
    HwinfoModel,
    HwinfoError,
> {
    if r.dw_sensor_index >= m.master_sensor_names.len() {
        Err(HwinfoError::IndexOutOfRange)
    } else {
        let name = m.master_sensor_names[r.dw_sensor_index as int];
        if has_sensor(m.sensors, name) {
            let k = sensor_index_of(m.sensors, name);
            let entry = m.sensors[k];
            Ok(
                HwinfoModel {
                    master_sensor_names: m.master_sensor_names,
                    sensors: m.sensors.update(
                        k,
                        SensorEntryModel {
                            sensor: entry.sensor,
                            reading: spec_reading_upsert(entry.reading, r),
                        },
                    ),
                },
            )
        } else {
            Ok(m)
        }
    }
}

/// Applies a list of decoded readings in order, stopping at the first
/// failure.
pub open spec fn spec_apply_readings(m: HwinfoModel, rs: Seq<ReadingModel>) -> Result<
    HwinfoModel,
    HwinfoError,
>
    decreases rs.len(),
{
    if rs.len() == 0 {
        Ok(m)
    } else {
        match spec_apply_readings(m, rs.drop_last()) {
            Ok(m2) => spec_apply_reading(m2, rs.last()),
            Err(e) => Err(e),
        }
    }
}

/// The snapshot after decoding and applying the first `n` reading
/// elements; the first failing record's error wins.
pub open spec fn spec_pull_prefix(
    b: Seq<u8>,
    h: HwinfoSensorsSharedMem2,
    m: HwinfoModel,
    n: int,
) -> Result<HwinfoModel, HwinfoError>
    decreases n,
{
    if n <= 0 {
        Ok(m)
    } else {
        match spec_pull_prefix(b, h, m, n - 1) {
            Ok(m2) => match spec_decode_reading(
                b,
                h.dw_offset_of_reading_section + (n - 1) * h.dw_size_of_reading_element,
            ) {
                Some(r) => spec_apply_reading(m2, r),
                None => Err(HwinfoError::DecodeError),
            },
            Err(e) => Err(e),
        }
    }
}

/// One poll against the buffer: header, bounds check, then every reading
/// element decoded and applied in order.  Any failure leaves the starting
/// snapshot in force.
pub open spec fn spec_pull(b: Seq<u8>, m: HwinfoModel) -> Result<HwinfoModel, HwinfoError> {
    match spec_decode_header(b) {
        None => Err(HwinfoError::DecodeError),
        Some(h) => if !reading_section_ok(h, b.len() as int) {
            Err(HwinfoError::DecodeError)
        } else {
            spec_pull_prefix(b, h, m, h.dw_num_reading_elements as int)
        },
    }
}

/// Upserting keeps labels unique.
pub(crate) proof fn lemma_upsert_labels_unique(rs: Seq<ReadingModel>, r: ReadingModel)
    requires
        labels_unique(rs),
    ensures
        labels_unique(spec_reading_upsert(rs, r)),
{
    if has_label(rs, r.label_user) {
        let j0 = label_index_of(rs, r.label_user);
        let rs2 = rs.update(j0, r);
        assert(0 <= j0 < rs.len() && rs[j0].label_user == r.label_user);
        assert forall|i: int, j: int| 0 <= i < j < rs2.len() implies rs2[i].label_user
            != rs2[j].label_user by {
            assert(rs[i].label_user != rs[j].label_user);
        }
    } else {
        let rs2 = rs.push(r);
        assert forall|i: int, j: int| 0 <= i < j < rs2.len() implies rs2[i].label_user
            != rs2[j].label_user by {
            if j == rs.len() {
                assert(!(0 <= i < rs.len() && rs[i].label_user == r.label_user));
            } else {
                assert(rs[i].label_user != rs[j].label_user);
            }
        }
    }
}

/// Applying a reading fails exactly on an out-of-range sensor position,
/// and otherwise preserves well-formedness, the name list, and every
/// entry's identity.
pub(crate) proof fn lemma_apply_reading_facts(m: HwinfoModel, r: ReadingModel)
    requires
        m.wf(),
    ensures
        r.dw_sensor_index >= m.master_sensor_names.len() ==> spec_apply_reading(m, r) == Err::<
            HwinfoModel,
            HwinfoError,
        >(HwinfoError::IndexOutOfRange),
        r.dw_sensor_index < m.master_sensor_names.len() ==> spec_apply_reading(m, r) is Ok,
        spec_apply_reading(m, r) matches Ok(m2) ==> m2.wf() && m2.master_sensor_names
            == m.master_sensor_names && m2.sensors.len() == m.sensors.len() && (forall|k: int|
            0 <= k < m2.sensors.len() ==> m2.sensors[k].sensor == m.sensors[k].sensor),
        spec_apply_reading(m, r) matches Ok(m2) ==> forall|k: int, l: Seq<char>|
            0 <= k < m.sensors.len() && #[trigger] has_label(m.sensors[k].reading, l)
                ==> #[trigger] has_label(m2.sensors[k].reading, l),
{
    if r.dw_sensor_index < m.master_sensor_names.len() {
        let name = m.master_sensor_names[r.dw_sensor_index as int];
        if has_sensor(m.sensors, name) {
            let k = sensor_index_of(m.sensors, name);
            assert(0 <= k < m.sensors.len() && m.sensors[k].sensor.name_user == name);
            lemma_upsert_labels_unique(m.sensors[k].reading, r);
            let m2 = spec_apply_reading(m, r)->Ok_0;
            assert forall|i: int| 0 <= i < m2.sensors.len() implies m2.sensors[i].sensor
                == m.sensors[i].sensor by {}
            assert forall|i: int|
                0 <= i < m2.master_sensor_names.len() implies has_sensor(
                m2.sensors,
                #[trigger] m2.master_sensor_names[i],
            ) by {
                let w = sensor_index_of(m.sensors, m.master_sensor_names[i]);
                assert(m2.sensors[w].sensor.name_user == m.master_sensor_names[i]);
            }
            assert forall|i: int, l: Seq<char>|
                0 <= i < m.sensors.len() && #[trigger] has_label(
                    m.sensors[i].reading,
                    l,
                ) implies #[trigger] has_label(m2.sensors[i].reading, l) by {
                let j = choose|j: int|
                    0 <= j < m.sensors[i].reading.len() && m.sensors[i].reading[j].label_user == l;
                if i == k && has_label(m.sensors[k].reading, r.label_user) {
                    let j0 = label_index_of(m.sensors[k].reading, r.label_user);
                    if j == j0 {
                        assert(m2.sensors[i].reading[j0].label_user == l);
                    } else {
                        assert(m2.sensors[i].reading[j].label_user == l);
                    }
                } else {
                    assert(m2.sensors[i].reading[j].label_user == l);
                }
            }
        }
    }
}

/// Once a poll prefix fails, every longer prefix fails with the same
/// error.
pub(crate) proof fn lemma_pull_prefix_err_propagates(
    b: Seq<u8>,
    h: HwinfoSensorsSharedMem2,
    m: HwinfoModel,
    n: int,
    n2: int,
)
    requires
        n <= n2,
        spec_pull_prefix(b, h, m, n) is Err,
    ensures
        spec_pull_prefix(b, h, m, n2) == spec_pull_prefix(b, h, m, n),
    decreases n2 - n,
{
    if n < n2 {
        lemma_pull_prefix_err_propagates(b, h, m, n, n2 - 1);
    }
}

/// When the first `n` reading elements decode to the given records, the
/// poll prefix equals applying those records.
pub(crate) proof fn lemma_pull_prefix_is_apply(
    b: Seq<u8>,
    h: HwinfoSensorsSharedMem2,
    m: HwinfoModel,
    models: Seq<ReadingModel>,
    n: int,
)
    requires
        0 <= n <= models.len(),
        forall|j: int|
            0 <= j < n ==> spec_decode_reading(
                b,
                h.dw_offset_of_reading_section + j * h.dw_size_of_reading_element,
            ) == Some(#[trigger] models[j]),
    ensures
        spec_pull_prefix(b, h, m, n) == spec_apply_readings(m, models.take(n)),
    decreases n,
{
    if n > 0 {
        lemma_pull_prefix_is_apply(b, h, m, models, n - 1);
        assert(models.take(n).drop_last() =~= models.take(n - 1));
        assert(models.take(n).last() == models[n - 1]);
    }
}

/// Upserts a decoded reading into an entry's list as `spec_reading_upsert`
/// says.
fn upsert_reading(rs: &mut Vec<HwinfoSensorsReadingElement>, rec: HwinfoSensorsReadingElement)
    requires
        labels_unique(old(rs)@.map_values(|e: HwinfoSensorsReadingElement| e@)),
    ensures
        final(rs)@.map_values(|e: HwinfoSensorsReadingElement| e@) == spec_reading_upsert(
            old(rs)@.map_values(|e: HwinfoSensorsReadingElement| e@),
            rec@,
        ),
{
    let ghost models = rs@.map_values(|e: HwinfoSensorsReadingElement| e@);
    let ghost rm = rec@;
    let n = rs.len();
    let mut j: usize = 0;
    while j < n
        invariant
            0 <= j <= n,
            n == rs@.len(),
            rm == rec@,
            rs@ == old(rs)@,
            labels_unique(models),
            models == rs@.map_values(|e: HwinfoSensorsReadingElement| e@),
            forall|i: int| 0 <= i < j ==> models[i].label_user != rm.label_user,
        decreases n - j,
    {
        if rs[j].label_user.eq(&rec.label_user) {
            proof {
                assert(models[j as int].label_user == rm.label_user);
                assert(has_label(models, rm.label_user));
                let c = label_index_of(models, rm.label_user);
                assert(0 <= c < models.len() && models[c].label_user == rm.label_user);
                assert(c == j as int);
            }
            rs[j] = rec;
            proof {
                assert(rs@.map_values(|e: HwinfoSensorsReadingElement| e@) =~~= spec_reading_upsert(
                    models,
                    rm,
                ));
            }
            return ;
        }
        j = j + 1;
    }
    proof {
        assert(!has_label(models, rm.label_user));
    }
    rs.push(rec);
    proof {
        assert(rs@.map_values(|e: HwinfoSensorsReadingElement| e@) =~~= spec_reading_upsert(
            models,
            rm,
        ));
    }
}

/// Applies one validated reading record to the snapshot as
/// `spec_apply_reading` says.
fn apply_record(hw: &mut Hwinfo, rec: HwinfoSensorsReadingElement)
    requires
        old(hw)@.wf(),
        rec@.dw_sensor_index < old(hw)@.master_sensor_names.len(),
    ensures
        spec_apply_reading(old(hw)@, rec@) == Ok::<HwinfoModel, HwinfoError>(final(hw)@),
        final(hw)@.wf(),
        final(hw)@.master_sensor_names == old(hw)@.master_sensor_names,
{
    proof {
        lemma_apply_reading_facts(old(hw)@, rec@);
    }
    let ghost m = hw@;
    let ghost rm = rec@;
    let idx = rec.dw_sensor_index as usize;
    let found = find_sensor_index(&hw.master_readings.sensors, &hw.master_sensor_names[idx]);
    proof {
        assert(hw.master_sensor_names@.map_values(|s: String| s@)[idx as int]
            == hw.master_sensor_names@[idx as int]@);
    }
    match found {
        None => {
            proof {
                let name = m.master_sensor_names[rm.dw_sensor_index as int];
                assert forall|k: int|
                    0 <= k < m.sensors.len() implies m.sensors[k].sensor.name_user != name by {
                    assert(hw.master_readings.sensors@[k].sensor.name_user@ != name);
                }
                assert(!has_sensor(m.sensors, name));
            }
        },
        Some(k) => {
            let ghost old_sensors = hw.master_readings.sensors@;
            let mut entry = hw.master_readings.sensors.remove(k);
            let ghost old_entry = entry;
            proof {
                assert(entry == old_sensors[k as int]);
                assert(m.sensors[k as int].reading == entry.reading@.map_values(
                    |e: HwinfoSensorsReadingElement| e@,
                ));
                assert(labels_unique(m.sensors[k as int].reading));
            }
            upsert_reading(&mut entry.reading, rec);
            proof {
                assert(entry.sensor == old_entry.sensor);
            }
            hw.master_readings.sensors.insert(k, entry);
            proof {
                let name = m.master_sensor_names[rm.dw_sensor_index as int];
                assert(old_sensors[k as int]@.sensor.name_user == name);
                assert(has_sensor(m.sensors, name));
                let c = sensor_index_of(m.sensors, name);
                assert(0 <= c < m.sensors.len() && m.sensors[c].sensor.name_user == name);
                assert(c == k as int) by {
                    if c != k as int {
                        assert(m.sensors[c].sensor.name_user != m.sensors[k as int].sensor.name_user);
                    }
                }
                assert(hw.master_readings.sensors@ =~= old_sensors.update(k as int, entry));
                assert(hw@.sensors =~~= spec_apply_reading(m, rm)->Ok_0.sensors);
                assert(hw@ =~~= spec_apply_reading(m, rm)->Ok_0);
            }
        },
    }
}

impl Hwinfo {
    /// Refreshes the snapshot from the buffer: decodes the header and every
    /// reading element, resolves each reading's owning sensor by its
    /// position in the build-order name list, and upserts it into that
    /// sensor's reading map keyed by trimmed label, the later record
    /// winning.  A failure on any record leaves the whole snapshot exactly
    /// as it was: there is no partial application.
    ///
    /// Fails with `DecodeError` when the buffer cannot hold a header, the
    /// declared reading section would read past the buffer end or declares
    /// undersized elements, a type tag is undefined, or a label or unit is
    /// not valid UTF-8; and with `IndexOutOfRange` when a reading's sensor
    /// position is at or past the catalog's sensor count.
    pub fn pull(&mut self, view: &[u8]) -> (r: Result<(), HwinfoError>)
        requires
            old(self)@.wf(),
        ensures
            final(self)@.wf(),
            final(self)@.master_sensor_names == old(self)@.master_sensor_names,
            r is Ok ==> spec_pull(view@, old(self)@) == Ok::<HwinfoModel, HwinfoError>(
                final(self)@,
            ),
            r matches Err(e) ==> spec_pull(view@, old(self)@) == Err::<HwinfoModel, HwinfoError>(e)
                && final(self)@ == old(self)@,
            r is Err <==> spec_pull(view@, old(self)@) is Err,
    {
        let ghost m0 = self@;
        let h = match decode_header(view) {
            Ok(h) => h,
            Err(e) => {
                return Err(e);
            },
        };
        if !check_reading_section(&h, view) {
            return Err(HwinfoError::DecodeError);
        }
        let buf_len = view.len();
        let base = h.dw_offset_of_reading_section as usize;
        let elem = h.dw_size_of_reading_element as usize;
        let count = h.dw_num_reading_elements as usize;
        let names_len = self.master_sensor_names.len();
        let mut recs: Vec<HwinfoSensorsReadingElement> = Vec::new();
        let mut i: usize = 0;
        while i < count
            invariant
                0 <= i <= count,
                spec_decode_header(view@) == Some(h),
                reading_section_ok(h, view@.len() as int),
                buf_len == view@.len(),
                base == h.dw_offset_of_reading_section,
                elem == h.dw_size_of_reading_element,
                count == h.dw_num_reading_elements,
                m0 == old(self)@,
                self@ == m0,
                m0.wf(),
                names_len == m0.master_sensor_names.len(),
                recs@.len() == i,
                forall|j: int|
                    0 <= j < i ==> spec_decode_reading(
                        view@,
                        h.dw_offset_of_reading_section + j * h.dw_size_of_reading_element,
                    ) == Some(#[trigger] recs@[j]@),
                forall|j: int|
                    0 <= j < i ==> (#[trigger] recs@[j]@).dw_sensor_index
                        < m0.master_sensor_names.len(),
                spec_pull_prefix(view@, h, m0, i as int) is Ok,
                spec_pull_prefix(view@, h, m0, i as int)->Ok_0.wf(),
                spec_pull_prefix(view@, h, m0, i as int)->Ok_0.master_sensor_names
                    == m0.master_sensor_names,
            decreases count - i,
        {
            proof {
                lemma_element_offset(
                    base as int,
                    elem as int,
                    count as int,
                    i as int,
                    buf_len as int,
                );
            }
            let off = base + i * elem;
            let ghost mi = spec_pull_prefix(view@, h, m0, i as int)->Ok_0;
            let rec = match decode_reading_element(view, off) {
                Ok(rec) => rec,
                Err(e) => {
                    proof {
                        assert(spec_pull_prefix(view@, h, m0, i + 1) == Err::<
                            HwinfoModel,
                            HwinfoError,
                        >(HwinfoError::DecodeError));
                        lemma_pull_prefix_err_propagates(view@, h, m0, i + 1, count as int);
                    }
                    return Err(e);
                },
            };
            proof {
                lemma_apply_reading_facts(mi, rec@);
            }
            if rec.dw_sensor_index as usize >= names_len {
                proof {
                    assert(spec_pull_prefix(view@, h, m0, i + 1) == Err::<
                        HwinfoModel,
                        HwinfoError,
                    >(HwinfoError::IndexOutOfRange));
                    lemma_pull_prefix_err_propagates(view@, h, m0, i + 1, count as int);
                }
                return Err(HwinfoError::IndexOutOfRange);
            }
            recs.push(rec);
            i = i + 1;
        }
        let ghost models = recs@.map_values(|e: HwinfoSensorsReadingElement| e@);
        proof {
            lemma_pull_prefix_is_apply(view@, h, m0, models, count as int);
            assert(models.take(count as int) =~= models);
        }
        let total = recs.len();
        let mut j: usize = 0;
        while j < total
            invariant
                0 <= j <= total,
                total == recs@.len(),
                models == recs@.map_values(|e: HwinfoSensorsReadingElement| e@),
                forall|jj: int|
                    0 <= jj < total ==> (#[trigger] models[jj]).dw_sensor_index
                        < m0.master_sensor_names.len(),
                spec_apply_readings(m0, models.take(j as int)) == Ok::<HwinfoModel, HwinfoError>(
                    self@,
                ),
                self@.wf(),
                self@.master_sensor_names == m0.master_sensor_names,
            decreases total - j,
        {
            let rec = recs[j].clone();
            let ghost before = self@;
            apply_record(self, rec);
            proof {
                assert(models.take(j + 1).drop_last() =~= models.take(j as int));
                assert(models.take(j + 1).last() == models[j as int]);
                assert(spec_apply_readings(m0, models.take(j + 1)) == Ok::<
                    HwinfoModel,
                    HwinfoError,
                >(self@));
            }
            j = j + 1;
        }
        proof {
            assert(models.take(total as int) =~= models);
        }
        Ok(())
    }
}

} // verus!
