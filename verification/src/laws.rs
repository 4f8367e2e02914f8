//! Laws of the snapshot updater, stated over the same spec functions the
//! executable contracts use: where each pulled reading ends up, that the
//! later of two same-key records wins, and that polling an unchanged
//! buffer twice changes nothing.

use vstd::prelude::*;

use crate::error::HwinfoError;
use crate::header::reading_section_ok;
use crate::header::spec_decode_header;
use crate::header::HwinfoSensorsSharedMem2;
use crate::query::spec_get;
use crate::records::spec_decode_reading;
use crate::records::ReadingModel;
use crate::snapshot::has_label;
use crate::snapshot::has_sensor;
use crate::snapshot::label_index_of;
use crate::snapshot::labels_unique;
use crate::snapshot::lemma_apply_reading_facts;
use crate::snapshot::lemma_pull_prefix_is_apply;
use crate::snapshot::sensor_index_of;
use crate::snapshot::spec_apply_reading;
use crate::snapshot::spec_apply_readings;
use crate::snapshot::spec_pull;
use crate::snapshot::spec_pull_prefix;
use crate::snapshot::spec_reading_upsert;
use crate::snapshot::HwinfoModel;

verus! {

/// The sensor name a reading record resolves to: the entry of the
/// build-order name list at the record's declared position.
pub open spec fn resolved_name(names: Seq<Seq<char>>, r: ReadingModel) -> Seq<char>
    recommends
        r.dw_sensor_index < names.len(),
{
    names[r.dw_sensor_index as int]
}

/// Some record in the list resolves to this sensor name and carries this
/// label.
pub open spec fn writes_key(
    names: Seq<Seq<char>>,
    rs: Seq<ReadingModel>,
    name: Seq<char>,
    label: Seq<char>,
) -> bool {
    exists|l: int|
        0 <= l < rs.len() && resolved_name(names, #[trigger] rs[l]) == name && rs[l].label_user
            == label
}

/// Applying a concatenation is applying the halves in turn.
proof fn lemma_apply_readings_concat(m: HwinfoModel, a: Seq<ReadingModel>, b: Seq<ReadingModel>)
    ensures
        spec_apply_readings(m, a + b) == (match spec_apply_readings(m, a) {
            Ok(mm) => spec_apply_readings(mm, b),
            Err(e) => Err(e),
        }),
    decreases b.len(),
{
    if b.len() == 0 {
        assert(a + b =~= a);
    } else {
        lemma_apply_readings_concat(m, a, b.drop_last());
        assert((a + b).drop_last() =~= a + b.drop_last());
        assert((a + b).last() == b.last());
    }
}

/// Applying a non-empty list is applying its head, then the rest.
proof fn lemma_apply_readings_cons(m: HwinfoModel, rs: Seq<ReadingModel>)
    requires
        rs.len() > 0,
    ensures
        spec_apply_readings(m, rs) == (match spec_apply_reading(m, rs[0]) {
            Ok(m1) => spec_apply_readings(m1, rs.drop_first()),
            Err(e) => Err(e),
        }),
{
    let a = seq![rs[0]];
    let b = rs.drop_first();
    assert(rs =~= a + b);
    lemma_apply_readings_concat(m, a, b);
    assert(a.drop_last() =~= Seq::<ReadingModel>::empty());
    assert(spec_apply_readings(m, Seq::<ReadingModel>::empty()) == Ok::<HwinfoModel, HwinfoError>(
        m,
    ));
    assert(a.last() == rs[0]);
    assert(spec_apply_readings(m, a) == spec_apply_reading(m, rs[0]));
}

/// Applying a list preserves well-formedness, the name list, and every
/// entry's identity, and keeps every label already present.
proof fn lemma_apply_readings_facts(m: HwinfoModel, rs: Seq<ReadingModel>)
    requires
        m.wf(),
        spec_apply_readings(m, rs) is Ok,
    ensures
        ({
            let m2 = spec_apply_readings(m, rs)->Ok_0;
            &&& m2.wf()
            &&& m2.master_sensor_names == m.master_sensor_names
            &&& m2.sensors.len() == m.sensors.len()
            &&& forall|k: int| 0 <= k < m2.sensors.len() ==> m2.sensors[k].sensor == m.sensors[k].sensor
            &&& forall|k: int, l: Seq<char>|
                0 <= k < m.sensors.len() && #[trigger] has_label(m.sensors[k].reading, l)
                    ==> #[trigger] has_label(m2.sensors[k].reading, l)
        }),
    decreases rs.len(),
{
    if rs.len() > 0 {
        lemma_apply_readings_facts(m, rs.drop_last());
        let mp = spec_apply_readings(m, rs.drop_last())->Ok_0;
        lemma_apply_reading_facts(mp, rs.last());
        let m2 = spec_apply_readings(m, rs)->Ok_0;
        assert forall|k: int, l: Seq<char>|
            0 <= k < m.sensors.len() && #[trigger] has_label(
                m.sensors[k].reading,
                l,
            ) implies #[trigger] has_label(m2.sensors[k].reading, l) by {
            assert(has_label(mp.sensors[k].reading, l));
        }
    }
}

/// What upserting leaves under each label: the new record under its own
/// label, and every other label untouched.
proof fn lemma_upsert_lookup(rs: Seq<ReadingModel>, r: ReadingModel)
    requires
        labels_unique(rs),
    ensures
        ({
            let u = spec_reading_upsert(rs, r);
            &&& has_label(u, r.label_user)
            &&& u[label_index_of(u, r.label_user)] == r
            &&& forall|l: Seq<char>|
                l != r.label_user ==> (#[trigger] has_label(u, l) <==> has_label(rs, l))
            &&& forall|l: Seq<char>|
                l != r.label_user && has_label(rs, l) ==> #[trigger] u[label_index_of(u, l)]
                    == rs[label_index_of(rs, l)]
        }),
{
    crate::snapshot::lemma_upsert_labels_unique(rs, r);
    let u = spec_reading_upsert(rs, r);
    if has_label(rs, r.label_user) {
        let j0 = label_index_of(rs, r.label_user);
        assert(0 <= j0 < rs.len() && rs[j0].label_user == r.label_user);
        assert(u[j0] == r);
        assert(has_label(u, r.label_user));
        let c = label_index_of(u, r.label_user);
        assert(0 <= c < u.len() && u[c].label_user == r.label_user);
        assert(c == j0) by {
            if c != j0 {
                assert(u[c].label_user != u[j0].label_user);
            }
        }
        assert forall|l: Seq<char>|
            l != r.label_user implies (#[trigger] has_label(u, l) <==> has_label(rs, l)) by {
            if has_label(u, l) {
                let j = label_index_of(u, l);
                assert(0 <= j < u.len() && u[j].label_user == l);
                assert(j != j0);
                assert(rs[j].label_user == l);
            }
            if has_label(rs, l) {
                let j = label_index_of(rs, l);
                assert(0 <= j < rs.len() && rs[j].label_user == l);
                assert(j != j0);
                assert(u[j].label_user == l);
            }
        }
        assert forall|l: Seq<char>|
            l != r.label_user && has_label(rs, l) implies #[trigger] u[label_index_of(u, l)]
            == rs[label_index_of(rs, l)] by {
            let j = label_index_of(rs, l);
            assert(0 <= j < rs.len() && rs[j].label_user == l);
            assert(j != j0);
            assert(u[j].label_user == l);
            assert(has_label(u, l));
            let c2 = label_index_of(u, l);
            assert(0 <= c2 < u.len() && u[c2].label_user == l);
            assert(c2 == j) by {
                if c2 != j {
                    assert(u[c2].label_user != u[j].label_user);
                }
            }
        }
    } else {
        let j0 = rs.len() as int;
        assert(u[j0] == r);
        assert(has_label(u, r.label_user));
        let c = label_index_of(u, r.label_user);
        assert(0 <= c < u.len() && u[c].label_user == r.label_user);
        assert(c == j0) by {
            if c != j0 {
                assert(u[c].label_user != u[j0].label_user);
            }
        }
        assert forall|l: Seq<char>|
            l != r.label_user implies (#[trigger] has_label(u, l) <==> has_label(rs, l)) by {
            if has_label(u, l) {
                let j = label_index_of(u, l);
                assert(0 <= j < u.len() && u[j].label_user == l);
                assert(j != j0);
                assert(rs[j].label_user == l);
            }
            if has_label(rs, l) {
                let j = label_index_of(rs, l);
                assert(u[j].label_user == l);
            }
        }
        assert forall|l: Seq<char>|
            l != r.label_user && has_label(rs, l) implies #[trigger] u[label_index_of(u, l)]
            == rs[label_index_of(rs, l)] by {
            let j = label_index_of(rs, l);
            assert(0 <= j < rs.len() && rs[j].label_user == l);
            assert(u[j].label_user == l);
            assert(has_label(u, l));
            let c2 = label_index_of(u, l);
            assert(0 <= c2 < u.len() && u[c2].label_user == l);
            assert(c2 == j) by {
                if c2 != j {
                    assert(u[c2].label_user != u[j].label_user);
                }
            }
        }
    }
}

/// After a reading is applied, looking it up under its resolved sensor
/// name and its own label returns exactly that reading.  This is where a
/// pulled reading is attached: to the sensor at its declared position,
/// under its trimmed user-facing label.
pub proof fn lemma_apply_reading_lookup(m: HwinfoModel, r: ReadingModel)
    requires
        m.wf(),
        r.dw_sensor_index < m.master_sensor_names.len(),
    ensures
        spec_apply_reading(m, r) is Ok,
        spec_get(
            spec_apply_reading(m, r)->Ok_0,
            resolved_name(m.master_sensor_names, r),
            r.label_user,
        ) == Some(r),
{
    lemma_apply_reading_facts(m, r);
    let name = resolved_name(m.master_sensor_names, r);
    assert(has_sensor(m.sensors, name));
    let k = sensor_index_of(m.sensors, name);
    assert(0 <= k < m.sensors.len() && m.sensors[k].sensor.name_user == name);
    lemma_upsert_lookup(m.sensors[k].reading, r);
    let m2 = spec_apply_reading(m, r)->Ok_0;
    assert(m2.sensors[k].sensor.name_user == name);
    assert(has_sensor(m2.sensors, name));
    let c = sensor_index_of(m2.sensors, name);
    assert(0 <= c < m2.sensors.len() && m2.sensors[c].sensor.name_user == name);
    assert(c == k) by {
        if c != k {
            assert(m2.sensors[c].sensor.name_user != m2.sensors[k].sensor.name_user);
        }
    }
}

/// Applying a reading leaves every other (sensor name, label) lookup
/// unchanged.
proof fn lemma_apply_reading_other_key(
    m: HwinfoModel,
    r: ReadingModel,
    name: Seq<char>,
    label: Seq<char>,
)
    requires
        m.wf(),
        r.dw_sensor_index < m.master_sensor_names.len(),
        !(resolved_name(m.master_sensor_names, r) == name && r.label_user == label),
    ensures
        spec_apply_reading(m, r) is Ok,
        spec_get(spec_apply_reading(m, r)->Ok_0, name, label) == spec_get(m, name, label),
{
    lemma_apply_reading_facts(m, r);
    let rname = resolved_name(m.master_sensor_names, r);
    assert(has_sensor(m.sensors, rname));
    let k = sensor_index_of(m.sensors, rname);
    assert(0 <= k < m.sensors.len() && m.sensors[k].sensor.name_user == rname);
    lemma_upsert_lookup(m.sensors[k].reading, r);
    let m2 = spec_apply_reading(m, r)->Ok_0;
    assert forall|i: int| 0 <= i < m.sensors.len() implies m2.sensors[i].sensor
        == m.sensors[i].sensor by {}
    if has_sensor(m.sensors, name) {
        let c = sensor_index_of(m.sensors, name);
        assert(0 <= c < m.sensors.len() && m.sensors[c].sensor.name_user == name);
        assert(m2.sensors[c].sensor.name_user == name);
        assert(has_sensor(m2.sensors, name));
        let c2 = sensor_index_of(m2.sensors, name);
        assert(0 <= c2 < m2.sensors.len() && m2.sensors[c2].sensor.name_user == name);
        assert(c2 == c) by {
            if c2 != c {
                assert(m2.sensors[c2].sensor.name_user != m2.sensors[c].sensor.name_user);
            }
        }
        if c != k {
            assert(m2.sensors[c] == m.sensors[c]);
        } else {
            assert(name == rname);
            assert(label != r.label_user);
        }
    } else {
        assert forall|i: int|
            0 <= i < m2.sensors.len() implies m2.sensors[i].sensor.name_user != name by {
            assert(m.sensors[i].sensor.name_user != name);
        }
        assert(!has_sensor(m2.sensors, name));
    }
}

/// Applying a list of readings, none of which writes a given key, leaves
/// that key's lookup unchanged.
proof fn lemma_apply_readings_other_keys(
    m: HwinfoModel,
    rs: Seq<ReadingModel>,
    name: Seq<char>,
    label: Seq<char>,
)
    requires
        m.wf(),
        spec_apply_readings(m, rs) is Ok,
        !writes_key(m.master_sensor_names, rs, name, label),
    ensures
        spec_get(spec_apply_readings(m, rs)->Ok_0, name, label) == spec_get(m, name, label),
    decreases rs.len(),
{
    if rs.len() > 0 {
        assert(!writes_key(m.master_sensor_names, rs.drop_last(), name, label)) by {
            if writes_key(m.master_sensor_names, rs.drop_last(), name, label) {
                let l = choose|l: int|
                    0 <= l < rs.drop_last().len() && resolved_name(
                        m.master_sensor_names,
                        #[trigger] rs.drop_last()[l],
                    ) == name && rs.drop_last()[l].label_user == label;
                assert(resolved_name(m.master_sensor_names, rs[l]) == name && rs[l].label_user
                    == label);
            }
        }
        lemma_apply_readings_other_keys(m, rs.drop_last(), name, label);
        lemma_apply_readings_facts(m, rs.drop_last());
        let mp = spec_apply_readings(m, rs.drop_last())->Ok_0;
        let r = rs.last();
        assert(spec_apply_reading(mp, r) is Ok);
        lemma_apply_reading_facts(mp, r);
        assert(r.dw_sensor_index < mp.master_sensor_names.len());
        assert(!(resolved_name(mp.master_sensor_names, r) == name && r.label_user == label)) by {
            if resolved_name(mp.master_sensor_names, r) == name && r.label_user == label {
                assert(resolved_name(m.master_sensor_names, rs[rs.len() - 1]) == name
                    && rs[rs.len() - 1].label_user == label);
            }
        }
        lemma_apply_reading_other_key(mp, r, name, label);
    }
}

/// Within one poll, when several records resolve to the same sensor name
/// and label, the last of them is the one the snapshot keeps.
pub proof fn lemma_last_write_wins(m: HwinfoModel, rs: Seq<ReadingModel>, j: int)
    requires
        m.wf(),
        spec_apply_readings(m, rs) is Ok,
        0 <= j < rs.len(),
        forall|l: int|
            j < l < rs.len() ==> !(resolved_name(m.master_sensor_names, #[trigger] rs[l])
                == resolved_name(m.master_sensor_names, rs[j]) && rs[l].label_user
                == rs[j].label_user),
    ensures
        spec_get(
            spec_apply_readings(m, rs)->Ok_0,
            resolved_name(m.master_sensor_names, rs[j]),
            rs[j].label_user,
        ) == Some(rs[j]),
    decreases rs.len(),
{
    let name = resolved_name(m.master_sensor_names, rs[j]);
    let label = rs[j].label_user;
    lemma_apply_readings_facts(m, rs);
    if j == rs.len() - 1 {
        lemma_apply_readings_facts(m, rs.drop_last());
        let mp = spec_apply_readings(m, rs.drop_last())->Ok_0;
        lemma_apply_reading_facts(mp, rs.last());
        assert(rs[j].dw_sensor_index < mp.master_sensor_names.len());
        lemma_apply_reading_lookup(mp, rs.last());
    } else {
        assert(spec_apply_readings(m, rs.drop_last()) is Ok);
        lemma_last_write_wins(m, rs.drop_last(), j);
        lemma_apply_readings_facts(m, rs.drop_last());
        let mp = spec_apply_readings(m, rs.drop_last())->Ok_0;
        let r = rs.last();
        lemma_apply_reading_facts(mp, r);
        assert(!(resolved_name(mp.master_sensor_names, r) == name && r.label_user == label)) by {
            if resolved_name(mp.master_sensor_names, r) == name && r.label_user == label {
                assert(resolved_name(m.master_sensor_names, rs[rs.len() - 1]) == name
                    && rs[rs.len() - 1].label_user == label);
            }
        }
        lemma_apply_reading_other_key(mp, r, name, label);
    }
}

/// The two snapshots agree everywhere, except that the reading stored
/// under `name` and `label` may differ between them (both still carrying
/// that label).
spec fn eq_except(t1: HwinfoModel, t2: HwinfoModel, name: Seq<char>, label: Seq<char>) -> bool {
    &&& t1.master_sensor_names == t2.master_sensor_names
    &&& t1.sensors.len() == t2.sensors.len()
    &&& forall|k: int|
        0 <= k < t1.sensors.len() ==> #[trigger] t1.sensors[k].sensor == t2.sensors[k].sensor
    &&& forall|k: int|
        0 <= k < t1.sensors.len() ==> #[trigger] t1.sensors[k].reading.len()
            == t2.sensors[k].reading.len()
    &&& forall|k: int, j: int|
        0 <= k < t1.sensors.len() && 0 <= j < t1.sensors[k].reading.len() ==> (
        #[trigger] t1.sensors[k].reading[j]).label_user == t2.sensors[k].reading[j].label_user
    &&& forall|k: int, j: int|
        0 <= k < t1.sensors.len() && 0 <= j < t1.sensors[k].reading.len() ==> (
        #[trigger] t1.sensors[k].reading[j]) == t2.sensors[k].reading[j] || (
        t1.sensors[k].sensor.name_user == name && t1.sensors[k].reading[j].label_user == label)
}

/// Re-applying a reading the snapshot already stores changes nothing.
proof fn lemma_reapply_same(s: HwinfoModel, r: ReadingModel)
    requires
        s.wf(),
        r.dw_sensor_index < s.master_sensor_names.len(),
        spec_get(s, resolved_name(s.master_sensor_names, r), r.label_user) == Some(r),
    ensures
        spec_apply_reading(s, r) == Ok::<HwinfoModel, HwinfoError>(s),
{
    lemma_apply_reading_facts(s, r);
    let name = resolved_name(s.master_sensor_names, r);
    assert(has_sensor(s.sensors, name));
    let k = sensor_index_of(s.sensors, name);
    assert(0 <= k < s.sensors.len() && s.sensors[k].sensor.name_user == name);
    let entry = s.sensors[k];
    assert(has_label(entry.reading, r.label_user));
    let j0 = label_index_of(entry.reading, r.label_user);
    assert(0 <= j0 < entry.reading.len() && entry.reading[j0].label_user == r.label_user);
    assert(entry.reading[j0] == r);
    assert(spec_reading_upsert(entry.reading, r) =~= entry.reading);
    let m2 = spec_apply_reading(s, r)->Ok_0;
    assert(m2 =~~= s);
}

/// Applying the same records to two snapshots that differ only in the
/// reading stored under one key gives the same result, as long as the
/// records write that key.
proof fn lemma_swallow(
    t1: HwinfoModel,
    t2: HwinfoModel,
    rs: Seq<ReadingModel>,
    name: Seq<char>,
    label: Seq<char>,
)
    requires
        t1.wf(),
        t2.wf(),
        eq_except(t1, t2, name, label),
        writes_key(t1.master_sensor_names, rs, name, label),
    ensures
        spec_apply_readings(t1, rs) == spec_apply_readings(t2, rs),
    decreases rs.len(),
{
    assert(rs.len() > 0);
    lemma_apply_readings_cons(t1, rs);
    lemma_apply_readings_cons(t2, rs);
    let r = rs[0];
    let rest = rs.drop_first();
    if r.dw_sensor_index >= t1.master_sensor_names.len() {
        lemma_apply_reading_facts(t1, r);
        lemma_apply_reading_facts(t2, r);
    } else {
        lemma_apply_reading_facts(t1, r);
        lemma_apply_reading_facts(t2, r);
        let rname = resolved_name(t1.master_sensor_names, r);
        assert(has_sensor(t1.sensors, rname));
        assert(has_sensor(t2.sensors, rname)) by {
            let w = sensor_index_of(t1.sensors, rname);
            assert(t2.sensors[w].sensor.name_user == rname);
        }
        let k1 = sensor_index_of(t1.sensors, rname);
        assert(0 <= k1 < t1.sensors.len() && t1.sensors[k1].sensor.name_user == rname);
        let k2 = sensor_index_of(t2.sensors, rname);
        assert(0 <= k2 < t2.sensors.len() && t2.sensors[k2].sensor.name_user == rname);
        assert(k2 == k1) by {
            if k2 != k1 {
                assert(t2.sensors[k1].sensor.name_user == rname);
                assert(t2.sensors[k2].sensor.name_user != t2.sensors[k1].sensor.name_user);
            }
        }
        let e1 = t1.sensors[k1].reading;
        let e2 = t2.sensors[k1].reading;
        assert(labels_unique(e1));
        assert(labels_unique(e2));
        assert(has_label(e1, r.label_user) <==> has_label(e2, r.label_user)) by {
            if has_label(e1, r.label_user) {
                let w = label_index_of(e1, r.label_user);
                assert(e2[w].label_user == r.label_user);
            }
            if has_label(e2, r.label_user) {
                let w = label_index_of(e2, r.label_user);
                assert(e1[w].label_user == r.label_user);
            }
        }
        let u1 = spec_apply_reading(t1, r)->Ok_0;
        let u2 = spec_apply_reading(t2, r)->Ok_0;
        if has_label(e1, r.label_user) {
            let j1 = label_index_of(e1, r.label_user);
            assert(0 <= j1 < e1.len() && e1[j1].label_user == r.label_user);
            let j2 = label_index_of(e2, r.label_user);
            assert(0 <= j2 < e2.len() && e2[j2].label_user == r.label_user);
            assert(j2 == j1) by {
                if j2 != j1 {
                    assert(e2[j1].label_user == r.label_user);
                    assert(e2[j2].label_user != e2[j1].label_user);
                }
            }
        }
        if rname == name && r.label_user == label {
            assert(u1 =~~= u2) by {
                assert forall|k: int, j: int|
                    0 <= k < u1.sensors.len() && 0 <= j
                        < u1.sensors[k].reading.len() implies #[trigger] u1.sensors[k].reading[j]
                    == u2.sensors[k].reading[j] by {
                    if k != k1 {
                        assert(t1.sensors[k].sensor.name_user != name);
                        assert(t1.sensors[k].reading[j] == t2.sensors[k].reading[j]);
                    } else {
                        if has_label(e1, r.label_user) {
                            let j1 = label_index_of(e1, r.label_user);
                            if j != j1 {
                                assert(e1[j].label_user != e1[j1].label_user);
                                assert(e1[j] == e2[j]);
                            }
                        } else {
                            if j < e1.len() {
                                assert(!(0 <= j < e1.len() && e1[j].label_user == label));
                                assert(e1[j] == e2[j]);
                            }
                        }
                    }
                }
            }
            assert(spec_apply_readings(u1, rest) == spec_apply_readings(u2, rest));
        } else {
            assert(eq_except(u1, u2, name, label)) by {
                assert forall|k: int, j: int|
                    0 <= k < u1.sensors.len() && 0 <= j < u1.sensors[k].reading.len() implies ((
                    #[trigger] u1.sensors[k].reading[j]).label_user
                    == u2.sensors[k].reading[j].label_user && (u1.sensors[k].reading[j]
                    == u2.sensors[k].reading[j] || (u1.sensors[k].sensor.name_user == name
                    && u1.sensors[k].reading[j].label_user == label))) by {
                    if k != k1 {
                        assert(t1.sensors[k].reading[j].label_user
                            == t2.sensors[k].reading[j].label_user);
                        assert(t1.sensors[k].reading[j] == t2.sensors[k].reading[j] || (
                        t1.sensors[k].sensor.name_user == name && t1.sensors[k].reading[j].label_user
                            == label));
                    } else {
                        if has_label(e1, r.label_user) {
                            let j1 = label_index_of(e1, r.label_user);
                            if j == j1 {
                                assert(u1.sensors[k].reading[j] == r);
                                assert(u2.sensors[k].reading[j] == r);
                            } else {
                                assert(u1.sensors[k].reading[j] == e1[j]);
                                assert(u2.sensors[k].reading[j] == e2[j]);
                                assert(e1[j].label_user == e2[j].label_user);
                                assert(e1[j] == e2[j] || (t1.sensors[k].sensor.name_user == name
                                    && e1[j].label_user == label));
                            }
                        } else {
                            if j < e1.len() {
                                assert(u1.sensors[k].reading[j] == e1[j]);
                                assert(u2.sensors[k].reading[j] == e2[j]);
                                assert(e1[j].label_user == e2[j].label_user);
                                assert(e1[j] == e2[j] || (t1.sensors[k].sensor.name_user == name
                                    && e1[j].label_user == label));
                            } else {
                                assert(u1.sensors[k].reading[j] == r);
                                assert(u2.sensors[k].reading[j] == r);
                            }
                        }
                    }
                }
            }
            assert(writes_key(u1.master_sensor_names, rest, name, label)) by {
                let l = choose|l: int|
                    0 <= l < rs.len() && resolved_name(t1.master_sensor_names, #[trigger] rs[l])
                        == name && rs[l].label_user == label;
                assert(l != 0);
                assert(resolved_name(u1.master_sensor_names, rest[l - 1]) == name && rest[l
                    - 1].label_user == label);
            }
            lemma_swallow(u1, u2, rest, name, label);
        }
    }
}

/// Applying one poll's records a second time changes nothing: every key
/// already holds the last value those records give it.
pub proof fn lemma_apply_readings_idempotent(m: HwinfoModel, rs: Seq<ReadingModel>)
    requires
        m.wf(),
        spec_apply_readings(m, rs) is Ok,
    ensures
        spec_apply_readings(spec_apply_readings(m, rs)->Ok_0, rs) == Ok::<
            HwinfoModel,
            HwinfoError,
        >(spec_apply_readings(m, rs)->Ok_0),
    decreases rs.len(),
{
    if rs.len() > 0 {
        let r0 = rs[0];
        let rest = rs.drop_first();
        lemma_apply_readings_cons(m, rs);
        let m1 = spec_apply_reading(m, r0)->Ok_0;
        lemma_apply_reading_facts(m, r0);
        assert(r0.dw_sensor_index < m.master_sensor_names.len());
        let s1 = spec_apply_readings(m, rs)->Ok_0;
        assert(spec_apply_readings(m1, rest) == Ok::<HwinfoModel, HwinfoError>(s1));
        lemma_apply_readings_idempotent(m1, rest);
        lemma_apply_readings_facts(m1, rest);
        lemma_apply_readings_cons(s1, rs);
        let name0 = resolved_name(m.master_sensor_names, r0);
        let label0 = r0.label_user;
        lemma_apply_reading_lookup(m, r0);
        if writes_key(m.master_sensor_names, rest, name0, label0) {
            lemma_apply_reading_facts(s1, r0);
            let t1 = spec_apply_reading(s1, r0)->Ok_0;
            assert(has_sensor(s1.sensors, name0));
            let k = sensor_index_of(s1.sensors, name0);
            assert(0 <= k < s1.sensors.len() && s1.sensors[k].sensor.name_user == name0);
            assert(has_label(s1.sensors[k].reading, label0)) by {
                let km = sensor_index_of(m1.sensors, name0);
                assert(0 <= km < m1.sensors.len() && m1.sensors[km].sensor.name_user == name0);
                assert(has_label(m1.sensors[km].reading, label0)) by {
                    assert(spec_get(m1, name0, label0) == Some(r0));
                }
                assert(has_label(s1.sensors[km].reading, label0));
                assert(km == k) by {
                    if km != k {
                        assert(s1.sensors[km].sensor.name_user == name0);
                        assert(s1.sensors[km].sensor.name_user != s1.sensors[k].sensor.name_user);
                    }
                }
            }
            let j0 = label_index_of(s1.sensors[k].reading, label0);
            assert(0 <= j0 < s1.sensors[k].reading.len() && s1.sensors[k].reading[j0].label_user
                == label0);
            assert(eq_except(t1, s1, name0, label0)) by {
                assert forall|kk: int, jj: int|
                    0 <= kk < t1.sensors.len() && 0 <= jj < t1.sensors[kk].reading.len() implies ((
                    #[trigger] t1.sensors[kk].reading[jj]).label_user
                    == s1.sensors[kk].reading[jj].label_user && (t1.sensors[kk].reading[jj]
                    == s1.sensors[kk].reading[jj] || (t1.sensors[kk].sensor.name_user == name0
                    && t1.sensors[kk].reading[jj].label_user == label0))) by {
                    if kk == k && jj == j0 {
                        assert(t1.sensors[kk].reading[jj] == r0);
                    }
                }
            }
            lemma_swallow(t1, s1, rest, name0, label0);
            assert(spec_apply_readings(t1, rest) == Ok::<HwinfoModel, HwinfoError>(s1));
        } else {
            lemma_apply_readings_other_keys(m1, rest, name0, label0);
            assert(spec_get(s1, name0, label0) == Some(r0));
            lemma_reapply_same(s1, r0);
        }
    }
}

/// A poll prefix that succeeds had every one of its records decode.
proof fn lemma_pull_prefix_ok_decodes(
    b: Seq<u8>,
    h: HwinfoSensorsSharedMem2,
    m: HwinfoModel,
    n: int,
)
    requires
        spec_pull_prefix(b, h, m, n) is Ok,
    ensures
        forall|j: int|
            0 <= j < n ==> #[trigger] spec_decode_reading(
                b,
                h.dw_offset_of_reading_section + j * h.dw_size_of_reading_element,
            ) is Some,
    decreases n,
{
    if n > 0 {
        lemma_pull_prefix_ok_decodes(b, h, m, n - 1);
    }
}

/// Pulling twice from one unchanged buffer gives the same snapshot as
/// pulling once: the second poll re-applies the same records, and each
/// key already holds its last value.
pub proof fn lemma_pull_idempotent(b: Seq<u8>, m: HwinfoModel)
    requires
        m.wf(),
        spec_pull(b, m) is Ok,
    ensures
        spec_pull(b, spec_pull(b, m)->Ok_0) == spec_pull(b, m),
{
    let h = spec_decode_header(b)->Some_0;
    assert(reading_section_ok(h, b.len() as int));
    let n = h.dw_num_reading_elements as int;
    lemma_pull_prefix_ok_decodes(b, h, m, n);
    let models = Seq::new(
        n as nat,
        |j: int|
            spec_decode_reading(
                b,
                h.dw_offset_of_reading_section + j * h.dw_size_of_reading_element,
            )->Some_0,
    );
    lemma_pull_prefix_is_apply(b, h, m, models, n);
    assert(models.take(n) =~= models);
    let s1 = spec_pull(b, m)->Ok_0;
    assert(spec_apply_readings(m, models) == Ok::<HwinfoModel, HwinfoError>(s1));
    lemma_apply_readings_idempotent(m, models);
    lemma_pull_prefix_is_apply(b, h, s1, models, n);
}

} // verus!
