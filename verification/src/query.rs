//! The query engine over a snapshot: exact two-level lookup and substring
//! search across all readings.
//!
//! Iteration order is deliberately deterministic: sensors in catalog build
//! order, readings in first-insertion order.  `find` collects every
//! reading whose user-facing label contains the query as a contiguous run
//! of characters; `find_first` returns the first of them in that order.

use vstd::prelude::*;

use crate::error::HwinfoError;
use crate::records::HwinfoSensorsReadingElement;
use crate::records::ReadingModel;
use crate::snapshot::has_label;
use crate::snapshot::has_sensor;
use crate::snapshot::label_index_of;
use crate::snapshot::sensor_index_of;
use crate::snapshot::Hwinfo;
use crate::snapshot::HwinfoModel;
use crate::snapshot::SensorEntryModel;
use crate::text::chars_of;
use crate::text::contains_chars;
use crate::text::contains_seq;

verus! {

/// Exact two-level lookup: the reading stored under this sensor name and
/// reading label, if both exist.
pub open spec fn spec_get(
    m: HwinfoModel,
    sensor_key: Seq<char>,
    reading_key: Seq<char>,
) -> Option<ReadingModel> {
    if has_sensor(m.sensors, sensor_key) {
        let entry = m.sensors[sensor_index_of(m.sensors, sensor_key)];
        if has_label(entry.reading, reading_key) {
            Some(entry.reading[label_index_of(entry.reading, reading_key)])
        } else {
            None
        }
    } else {
        None
    }
}

/// The readings of one entry whose label contains `key`, in list order.
pub open spec fn spec_entry_matches(rs: Seq<ReadingModel>, key: Seq<char>) -> Seq<ReadingModel>
    decreases rs.len(),
{
    if rs.len() == 0 {
        Seq::empty()
    } else {
        let rest = spec_entry_matches(rs.drop_last(), key);
        if contains_seq(rs.last().label_user, key) {
            rest.push(rs.last())
        } else {
            rest
        }
    }
}

/// Every reading in the snapshot whose label contains `key`: sensors in
/// catalog order, readings in insertion order.
pub open spec fn spec_find_all(ss: Seq<SensorEntryModel>, key: Seq<char>) -> Seq<ReadingModel>
    decreases ss.len(),
{
    if ss.len() == 0 {
        Seq::empty()
    } else {
        spec_find_all(ss.drop_last(), key) + spec_entry_matches(ss.last().reading, key)
    }
}

/// The first match in the order `spec_find_all` fixes.
pub open spec fn spec_find_first(ss: Seq<SensorEntryModel>, key: Seq<char>) -> Option<
    ReadingModel,
> {
    let all = spec_find_all(ss, key);
    if all.len() > 0 {
        Some(all[0])
    } else {
        None
    }
}

/// Matching distributes over concatenation of reading lists.
proof fn lemma_entry_matches_concat(a: Seq<ReadingModel>, b: Seq<ReadingModel>, key: Seq<char>)
    ensures
        spec_entry_matches(a + b, key) == spec_entry_matches(a, key) + spec_entry_matches(b, key),
    decreases b.len(),
{
    if b.len() == 0 {
        assert(a + b =~= a);
        assert(spec_entry_matches(a, key) + spec_entry_matches(b, key) =~= spec_entry_matches(
            a,
            key,
        ));
    } else {
        lemma_entry_matches_concat(a, b.drop_last(), key);
        assert((a + b).drop_last() =~= a + b.drop_last());
        assert((a + b).last() == b.last());
        if contains_seq(b.last().label_user, key) {
            assert(spec_entry_matches(a, key) + spec_entry_matches(b.drop_last(), key).push(
                b.last(),
            ) =~= (spec_entry_matches(a, key) + spec_entry_matches(b.drop_last(), key)).push(
                b.last(),
            ));
        }
    }
}

/// Matching distributes over concatenation of entry lists.
proof fn lemma_find_all_concat(a: Seq<SensorEntryModel>, b: Seq<SensorEntryModel>, key: Seq<char>)
    ensures
        spec_find_all(a + b, key) == spec_find_all(a, key) + spec_find_all(b, key),
    decreases b.len(),
{
    if b.len() == 0 {
        assert(a + b =~= a);
        assert(spec_find_all(a, key) + spec_find_all(b, key) =~= spec_find_all(a, key));
    } else {
        lemma_find_all_concat(a, b.drop_last(), key);
        assert((a + b).drop_last() =~= a + b.drop_last());
        assert((a + b).last() == b.last());
        assert(spec_find_all(a, key) + (spec_find_all(b.drop_last(), key) + spec_entry_matches(
            b.last().reading,
            key,
        )) =~= (spec_find_all(a, key) + spec_find_all(b.drop_last(), key)) + spec_entry_matches(
            b.last().reading,
            key,
        ));
    }
}

/// Finds the first reading in the list carrying this label.
fn find_reading_index(rs: &Vec<HwinfoSensorsReadingElement>, label: &String) -> (r: Option<usize>)
    ensures
        r matches Some(j) ==> 0 <= j < rs@.len() && rs@[j as int].label_user@ == label@,
        r is None ==> forall|j: int| 0 <= j < rs@.len() ==> rs@[j].label_user@ != label@,
{
    let n = rs.len();
    let mut j: usize = 0;
    while j < n
        invariant
            0 <= j <= n,
            n == rs@.len(),
            forall|i: int| 0 <= i < j ==> rs@[i].label_user@ != label@,
        decreases n - j,
    {
        if rs[j].label_user.eq(label) {
            return Some(j);
        }
        j = j + 1;
    }
    None
}

impl Hwinfo {
    /// Exact lookup of the reading stored under `sensor_key` and
    /// `reading_key`; no fuzzy matching.
    pub fn get(&self, sensor_key: &str, reading_key: &str) -> (r: Option<
        &HwinfoSensorsReadingElement,
    >)
        requires
            self@.wf(),
        ensures
            r matches Some(x) ==> spec_get(self@, sensor_key@, reading_key@) == Some(x@),
            r is None <==> spec_get(self@, sensor_key@, reading_key@) is None,
    {
        let skey = sensor_key.to_owned();
        let found = crate::snapshot::find_sensor_index(&self.master_readings.sensors, &skey);
        match found {
            None => {
                proof {
                    assert forall|k: int|
                        0 <= k < self@.sensors.len() implies self@.sensors[k].sensor.name_user
                        != sensor_key@ by {
                        assert(self.master_readings.sensors@[k].sensor.name_user@ != skey@);
                    }
                    assert(!has_sensor(self@.sensors, sensor_key@));
                }
                None
            },
            Some(k) => {
                proof {
                    assert(self@.sensors[k as int].sensor.name_user == sensor_key@);
                    assert(has_sensor(self@.sensors, sensor_key@));
                    let c = sensor_index_of(self@.sensors, sensor_key@);
                    assert(0 <= c < self@.sensors.len() && self@.sensors[c].sensor.name_user
                        == sensor_key@);
                    assert(c == k as int) by {
                        if c != k as int {
                            assert(self@.sensors[c].sensor.name_user
                                != self@.sensors[k as int].sensor.name_user);
                        }
                    }
                }
                let entry = &self.master_readings.sensors[k];
                let rkey = reading_key.to_owned();
                match find_reading_index(&entry.reading, &rkey) {
                    None => {
                        proof {
                            let rsm = self@.sensors[k as int].reading;
                            assert forall|j: int|
                                0 <= j < rsm.len() implies rsm[j].label_user != reading_key@ by {
                                assert(entry.reading@[j].label_user@ != rkey@);
                            }
                            assert(!has_label(rsm, reading_key@));
                        }
                        None
                    },
                    Some(j) => {
                        proof {
                            let rsm = self@.sensors[k as int].reading;
                            assert(rsm[j as int].label_user == reading_key@);
                            assert(has_label(rsm, reading_key@));
                            let c = label_index_of(rsm, reading_key@);
                            assert(0 <= c < rsm.len() && rsm[c].label_user == reading_key@);
                            assert(crate::snapshot::labels_unique(rsm));
                            assert(c == j as int) by {
                                if c != j as int {
                                    assert(rsm[c].label_user != rsm[j as int].label_user);
                                }
                            }
                        }
                        Some(&entry.reading[j])
                    },
                }
            },
        }
    }

    /// The first reading, in catalog then insertion order, whose
    /// user-facing label contains `key` as a contiguous run of characters.
    pub fn find_first(&self, key: &str) -> (r: Result<&HwinfoSensorsReadingElement, HwinfoError>)
        ensures
            r matches Ok(x) ==> spec_find_first(self@.sensors, key@) == Some(x@),
            r is Err <==> spec_find_first(self@.sensors, key@) is None,
            r matches Err(e) ==> e == HwinfoError::LookupNotFound,
    {
        let needle = chars_of(key);
        let ghost ss = self@.sensors;
        let n = self.master_readings.sensors.len();
        let mut k: usize = 0;
        while k < n
            invariant
                0 <= k <= n,
                needle@ == key@,
                ss == self@.sensors,
                n == ss.len(),
                spec_find_all(ss.take(k as int), key@) == Seq::<ReadingModel>::empty(),
            decreases n - k,
        {
            let entry = &self.master_readings.sensors[k];
            let ghost rsm = ss[k as int].reading;
            let rn = entry.reading.len();
            let mut j: usize = 0;
            while j < rn
                invariant
                    0 <= j <= rn,
                    0 <= k < n,
                    needle@ == key@,
                    ss == self@.sensors,
                    n == ss.len(),
                    entry == &self.master_readings.sensors@[k as int],
                    rsm == ss[k as int].reading,
                    rn == rsm.len(),
                    spec_find_all(ss.take(k as int), key@) == Seq::<ReadingModel>::empty(),
                    spec_entry_matches(rsm.take(j as int), key@) == Seq::<ReadingModel>::empty(),
                decreases rn - j,
            {
                let label = chars_of(entry.reading[j].label_user.as_str());
                if contains_chars(&label, &needle) {
                    proof {
                        lemma_found_is_first(ss, key@, k as int, j as int);
                    }
                    return Ok(&entry.reading[j]);
                }
                proof {
                    assert(rsm.take(j + 1).drop_last() =~= rsm.take(j as int));
                    assert(rsm.take(j + 1).last() == rsm[j as int]);
                }
                j = j + 1;
            }
            proof {
                assert(rsm.take(rn as int) =~= rsm);
                assert(ss.take(k + 1).drop_last() =~= ss.take(k as int));
                assert(ss.take(k + 1).last() == ss[k as int]);
                assert(spec_find_all(ss.take(k + 1), key@) =~= Seq::<ReadingModel>::empty());
            }
            k = k + 1;
        }
        proof {
            assert(ss.take(n as int) =~= ss);
        }
        Err(HwinfoError::LookupNotFound)
    }

    /// Every reading whose user-facing label contains `key`, in catalog
    /// then insertion order; `LookupNotFound` when there is none.
    pub fn find<'a>(&'a self, key: &str) -> (r: Result<
        Vec<&'a HwinfoSensorsReadingElement>,
        HwinfoError,
    >)
        ensures
            r matches Ok(v) ==> v@.map_values(|x: &HwinfoSensorsReadingElement| x@)
                == spec_find_all(self@.sensors, key@) && v@.len() > 0,
            r is Err <==> spec_find_all(self@.sensors, key@).len() == 0,
            r matches Err(e) ==> e == HwinfoError::LookupNotFound,
    {
        let needle = chars_of(key);
        let ghost ss = self@.sensors;
        let mut results: Vec<&'a HwinfoSensorsReadingElement> = Vec::new();
        let n = self.master_readings.sensors.len();
        let mut k: usize = 0;
        while k < n
            invariant
                0 <= k <= n,
                needle@ == key@,
                ss == self@.sensors,
                n == ss.len(),
                results@.map_values(|x: &HwinfoSensorsReadingElement| x@) == spec_find_all(
                    ss.take(k as int),
                    key@,
                ),
            decreases n - k,
        {
            let entry = &self.master_readings.sensors[k];
            let ghost rsm = ss[k as int].reading;
            let ghost before = results@.map_values(|x: &HwinfoSensorsReadingElement| x@);
            let rn = entry.reading.len();
            let mut j: usize = 0;
            while j < rn
                invariant
                    0 <= j <= rn,
                    0 <= k < n,
                    needle@ == key@,
                    ss == self@.sensors,
                    n == ss.len(),
                    entry == &self.master_readings.sensors@[k as int],
                    rsm == ss[k as int].reading,
                    rn == rsm.len(),
                    before == spec_find_all(ss.take(k as int), key@),
                    results@.map_values(|x: &HwinfoSensorsReadingElement| x@) == before
                        + spec_entry_matches(rsm.take(j as int), key@),
                decreases rn - j,
            {
                let label = chars_of(entry.reading[j].label_user.as_str());
                proof {
                    assert(rsm.take(j + 1).drop_last() =~= rsm.take(j as int));
                    assert(rsm.take(j + 1).last() == rsm[j as int]);
                }
                if contains_chars(&label, &needle) {
                    proof {
                        assert(entry.reading@[j as int]@ == rsm[j as int]);
                        assert(contains_seq(rsm[j as int].label_user, key@));
                        assert(spec_entry_matches(rsm.take(j + 1), key@) == spec_entry_matches(
                            rsm.take(j as int),
                            key@,
                        ).push(rsm[j as int]));
                    }
                    let ghost prepush = results@.map_values(|x: &HwinfoSensorsReadingElement| x@);
                    results.push(&entry.reading[j]);
                    proof {
                        assert(results@.map_values(|x: &HwinfoSensorsReadingElement| x@) =~~= prepush.push(
                            rsm[j as int],
                        ));
                        assert((before + spec_entry_matches(rsm.take(j as int), key@)).push(
                            rsm[j as int],
                        ) =~~= before + spec_entry_matches(rsm.take(j + 1), key@));
                        assert(results@.map_values(|x: &HwinfoSensorsReadingElement| x@) =~~= before
                            + spec_entry_matches(rsm.take(j + 1), key@));
                    }
                }
                j = j + 1;
            }
            proof {
                assert(rsm.take(rn as int) =~= rsm);
                assert(ss.take(k + 1).drop_last() =~= ss.take(k as int));
                assert(ss.take(k + 1).last() == ss[k as int]);
            }
            k = k + 1;
        }
        proof {
            assert(ss.take(n as int) =~= ss);
        }
        if results.len() == 0 {
            proof {
                assert(spec_find_all(ss, key@).len() == 0);
            }
            Err(HwinfoError::LookupNotFound)
        } else {
            Ok(results)
        }
    }
}

/// A match at `(k, j)` with nothing matching before it is the head of the
/// full match list.
proof fn lemma_found_is_first(ss: Seq<SensorEntryModel>, key: Seq<char>, k: int, j: int)
    requires
        0 <= k < ss.len(),
        0 <= j < ss[k].reading.len(),
        spec_find_all(ss.take(k), key) == Seq::<ReadingModel>::empty(),
        spec_entry_matches(ss[k].reading.take(j), key) == Seq::<ReadingModel>::empty(),
        contains_seq(ss[k].reading[j].label_user, key),
    ensures
        spec_find_first(ss, key) == Some(ss[k].reading[j]),
{
    let rsm = ss[k].reading;
    assert(ss =~= ss.take(k + 1) + ss.skip(k + 1));
    lemma_find_all_concat(ss.take(k + 1), ss.skip(k + 1), key);
    assert(ss.take(k + 1).drop_last() =~= ss.take(k));
    assert(ss.take(k + 1).last() == ss[k]);
    assert(spec_find_all(ss.take(k + 1), key) =~= spec_entry_matches(rsm, key));
    assert(rsm =~= rsm.take(j + 1) + rsm.skip(j + 1));
    lemma_entry_matches_concat(rsm.take(j + 1), rsm.skip(j + 1), key);
    assert(rsm.take(j + 1).drop_last() =~= rsm.take(j));
    assert(rsm.take(j + 1).last() == rsm[j]);
    assert(spec_entry_matches(rsm.take(j + 1), key) =~= Seq::<ReadingModel>::empty().push(rsm[j]));
    let all = spec_find_all(ss, key);
    assert(all =~= spec_entry_matches(rsm, key) + spec_find_all(ss.skip(k + 1), key));
    assert(all[0] == rsm[j]);
}

} // verus!
