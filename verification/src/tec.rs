//! Per-satellite dual-frequency TEC observables.
//!
//! For every satellite tracked on at least two channels, the estimator
//! takes the first two entries of its measurement list — the
//! highest-frequency pair, since the list is sorted by carrier
//! frequency descending — and emits the exact operands of the slant
//! total-electron-content combination: the channel pair and, where both
//! channels carry them, the carrier-phase pair and the pseudo-range
//! pair, each as the IEEE-754 bit pattern and raw deviation index that
//! came off the wire.  With carrier frequencies `f0 > f1` in Hz, speed
//! of light `c`, and the geometric factor
//! `K = (1e-16 / 40.308) * f0^2 * f1^2 / (f0^2 - f1^2)`, the consumer
//! computes phase TEC as `((cp0 * c/f0) - (cp1 * c/f1)) * K` and range
//! TEC as `(pr1 - pr0) * K`, carrying the deviations through uncertain
//! arithmetic.  The output is sorted by satellite identity.

use vstd::prelude::*;
use crate::freq::{spec_freq_hz, GnssFreq};
use crate::fusion::{SatPathV, UbxGpsInfo};
use crate::gnss::{sat_key, GnssSatellite};
use crate::nmea::{Coord, Dec, UtcTime};
use crate::rawx::{sorted_by_freq_desc, TrkStat};

verus! {

/// The errors of the TEC estimator.
#[derive(Debug, Copy, Clone, PartialEq, Eq, Structural, Hash)]
pub enum TecError {
    /// A satellite group carried fewer than two usable measurements.
    InvalidCarrierPhase,
}

/// The dual-frequency TEC observables of one satellite: the channel
/// pair used, and the measurement operands where both channels carry
/// them.  Each operand is `(bits, idx)`: the IEEE-754 double's bit
/// pattern and the raw deviation index of the wire format.
#[derive(Debug, Copy, Clone, PartialEq, Eq, Hash)]
pub struct TecData {
    /// The satellite the observables came from.
    pub source: GnssSatellite,
    /// The pointing of the source satellite: azimuth, elevation.
    pub pointing: (u16, i8),
    /// The two carrier frequency channels used, highest first.
    pub channels: (GnssFreq, GnssFreq),
    /// The carrier-phase pair, present iff both channels carry one.
    pub phase_obs: Option<((u64, u8), (u64, u8))>,
    /// The pseudo-range pair, present iff both channels carry one.
    pub range_obs: Option<((u64, u8), (u64, u8))>,
    /// The tracking status of the two channels.
    pub trk_stat: (TrkStat, TrkStat),
}

impl TecData {
    /// The satellite the observables came from.
    pub fn source(&self) -> (r: GnssSatellite)
        ensures
            r == self.source,
    {
        self.source
    }

    /// The azimuth of the source satellite (degrees).
    pub fn azimuth(&self) -> (r: u16)
        ensures
            r == self.pointing.0,
    {
        self.pointing.0
    }

    /// The elevation of the source satellite (degrees).
    pub fn elevation(&self) -> (r: i8)
        ensures
            r == self.pointing.1,
    {
        self.pointing.1
    }

    /// The two carrier frequency channels used, highest first.
    pub fn channels(&self) -> (r: (GnssFreq, GnssFreq))
        ensures
            r == self.channels,
    {
        self.channels
    }

    /// The carrier-phase pair of the two channels, present iff both
    /// carry a carrier phase: `((cp0 bits, cp0 idx), (cp1 bits, cp1
    /// idx))` in cycles, with sigma `0.004 * idx` cycles.
    pub fn phase_obs(&self) -> (r: Option<((u64, u8), (u64, u8))>)
        ensures
            r == self.phase_obs,
    {
        self.phase_obs
    }

    /// The pseudo-range pair of the two channels, present iff both
    /// carry a pseudo-range: `((pr0 bits, pr0 idx), (pr1 bits, pr1
    /// idx))` in m, with sigma `0.01 * 2^idx` m.
    pub fn range_obs(&self) -> (r: Option<((u64, u8), (u64, u8))>)
        ensures
            r == self.range_obs,
    {
        self.range_obs
    }

    /// The tracking status of the two channels.
    pub fn signal_status(&self) -> (r: (TrkStat, TrkStat))
        ensures
            r == self.trk_stat,
    {
        self.trk_stat
    }
}

/// What one satellite group contributes: nothing when fewer than two
/// channels are tracked or when neither the phase pair nor the range
/// pair is complete; otherwise the observables of the group's first two
/// entries, the highest-frequency pair.
pub open spec fn spec_tec_of_group(sat: GnssSatellite, sp: SatPathV) -> Option<TecData> {
    if sp.meas.len() < 2 {
        None
    } else {
        let m0 = sp.meas[0];
        let m1 = sp.meas[1];
        let phase = match (m0.carrier_phase, m1.carrier_phase) {
            (Some(a), Some(b)) => Some((a, b)),
            _ => None,
        };
        let range = match (m0.pseudo_range, m1.pseudo_range) {
            (Some(a), Some(b)) => Some((a, b)),
            _ => None,
        };
        if phase is None && range is None {
            None
        } else {
            Some(TecData {
                source: sat,
                pointing: (sp.azimuth, sp.elevation),
                channels: (m0.channel, m1.channel),
                phase_obs: phase,
                range_obs: range,
                trk_stat: (m0.trk_stat, m1.trk_stat),
            })
        }
    }
}

/// Law: a satellite with only one tracked channel contributes no TEC
/// record.
pub proof fn lemma_single_channel_no_tec(sat: GnssSatellite, sp: SatPathV)
    requires
        sp.meas.len() < 2,
    ensures
        spec_tec_of_group(sat, sp) is None,
{
}

/// Law: a satellite whose pseudo-range pair is incomplete still emits a
/// record, with no range observables, whenever both carrier phases are
/// present.
pub proof fn lemma_phase_without_range(sat: GnssSatellite, sp: SatPathV)
    requires
        sp.meas.len() >= 2,
        sp.meas[0].carrier_phase is Some,
        sp.meas[1].carrier_phase is Some,
        sp.meas[0].pseudo_range is None || sp.meas[1].pseudo_range is None,
    ensures
        spec_tec_of_group(sat, sp) matches Some(d) && d.range_obs is None && d.phase_obs
            == Some((sp.meas[0].carrier_phase.unwrap(), sp.meas[1].carrier_phase.unwrap())),
{
}

/// Law: in a group sorted by carrier frequency descending, the first
/// two entries are a highest-frequency pair: no later entry has a
/// higher carrier frequency than either.
pub proof fn lemma_pair_is_highest(v: Seq<crate::rawx::CarrierMeas>)
    requires
        sorted_by_freq_desc(v),
        v.len() >= 2,
    ensures
        forall|k: int| 1 <= k < v.len() ==> spec_freq_hz(v[0].channel) >= spec_freq_hz(
            (#[trigger] v[k]).channel),
        forall|k: int| 2 <= k < v.len() ==> spec_freq_hz(v[1].channel) >= spec_freq_hz(
            (#[trigger] v[k]).channel),
{
}

/// The TEC records of the fused groups, in group order.
pub open spec fn spec_tec_list(meas: Seq<(GnssSatellite, SatPathV)>) -> Seq<TecData>
    decreases meas.len(),
{
    if meas.len() == 0 {
        Seq::empty()
    } else {
        let rest = spec_tec_list(meas.drop_last());
        match spec_tec_of_group(meas.last().0, meas.last().1) {
            Some(d) => rest.push(d),
            None => rest,
        }
    }
}

/// Insert a TEC record into a list ordered by satellite identity
/// ascending, after every entry of smaller or equal key.
pub open spec fn spec_insert_tec(v: Seq<TecData>, d: TecData) -> Seq<TecData>
    decreases v.len(),
{
    if v.len() == 0 {
        seq![d]
    } else if sat_key(d.source) < sat_key(v[0].source) {
        seq![d] + v
    } else {
        seq![v[0]] + spec_insert_tec(v.drop_first(), d)
    }
}

/// The TEC records sorted by satellite identity ascending, built by
/// stable insertion from the left.
pub open spec fn spec_sort_tec(v: Seq<TecData>) -> Seq<TecData>
    decreases v.len(),
{
    if v.len() == 0 {
        Seq::empty()
    } else {
        spec_insert_tec(spec_sort_tec(v.drop_last()), v.last())
    }
}

/// Ordered by satellite identity, smallest key first.
pub open spec fn sorted_by_sat(v: Seq<TecData>) -> bool {
    forall|i: int, j: int|
        0 <= i < j < v.len() ==> sat_key(v[i].source) <= sat_key(v[j].source)
}

proof fn lemma_insert_tec_props(v: Seq<TecData>, d: TecData)
    ensures
        spec_insert_tec(v, d).len() == v.len() + 1,
        spec_insert_tec(v, d).to_multiset() == v.to_multiset().insert(d),
        sorted_by_sat(v) ==> sorted_by_sat(spec_insert_tec(v, d)),
    decreases v.len(),
{
    broadcast use vstd::seq_lib::group_to_multiset_ensures;

    let r = spec_insert_tec(v, d);
    if v.len() == 0 {
        assert(r =~= Seq::empty().insert(0, d));
        vstd::seq_lib::to_multiset_insert(Seq::empty(), 0, d);
        assert(v.to_multiset() =~= Seq::<TecData>::empty().to_multiset());
    } else if sat_key(d.source) < sat_key(v[0].source) {
        assert(r =~= v.insert(0, d));
        vstd::seq_lib::to_multiset_insert(v, 0, d);
        if sorted_by_sat(v) {
            assert forall|i: int, j: int| 0 <= i < j < r.len() implies sat_key(r[i].source)
                <= sat_key(r[j].source) by {
                if i > 0 {
                    assert(r[i] == v[i - 1] && r[j] == v[j - 1]);
                }
            }
        }
    } else {
        lemma_insert_tec_props(v.drop_first(), d);
        let rr = spec_insert_tec(v.drop_first(), d);
        assert(r =~= rr.insert(0, v[0]));
        vstd::seq_lib::to_multiset_insert(rr, 0, v[0]);
        assert(v =~= v.drop_first().insert(0, v[0]));
        vstd::seq_lib::to_multiset_insert(v.drop_first(), 0, v[0]);
        assert(r.to_multiset() =~= v.to_multiset().insert(d));
        if sorted_by_sat(v) {
            assert(sorted_by_sat(v.drop_first())) by {
                assert(forall|i: int| 0 <= i < v.drop_first().len() ==> #[trigger] v.drop_first()[
                    i] == v[i + 1]);
            }
            assert(sorted_by_sat(rr));
            assert forall|i: int, j: int| 0 <= i < j < r.len() implies sat_key(r[i].source)
                <= sat_key(r[j].source) by {
                if i > 0 {
                    assert(r[i] == rr[i - 1] && r[j] == rr[j - 1]);
                } else {
                    assert(r[j] == rr[j - 1]);
                    assert(rr.to_multiset().contains(rr[j - 1]));
                    assert(v.drop_first().to_multiset().insert(d).contains(rr[j - 1]));
                    if rr[j - 1] == d {
                    } else {
                        assert(v.drop_first().to_multiset().contains(rr[j - 1]));
                        assert(v.drop_first().contains(rr[j - 1]));
                        let k = choose|k: int| 0 <= k < v.drop_first().len()
                            && v.drop_first()[k] == rr[j - 1];
                        assert(v[k + 1] == rr[j - 1]);
                    }
                }
            }
        }
    }
}

/// Law: sorting the TEC records yields a permutation of them, ordered
/// by satellite identity ascending.
pub proof fn lemma_sort_tec_props(v: Seq<TecData>)
    ensures
        spec_sort_tec(v).len() == v.len(),
        spec_sort_tec(v).to_multiset() == v.to_multiset(),
        sorted_by_sat(spec_sort_tec(v)),
    decreases v.len(),
{
    broadcast use vstd::seq_lib::group_to_multiset_ensures;

    if v.len() == 0 {
        assert(spec_sort_tec(v) =~= Seq::<TecData>::empty());
        assert(v.to_multiset() =~= Seq::<TecData>::empty().to_multiset());
    } else {
        lemma_sort_tec_props(v.drop_last());
        lemma_insert_tec_props(spec_sort_tec(v.drop_last()), v.last());
        assert(v =~= v.drop_last().push(v.last()));
        assert(v.to_multiset() =~= v.drop_last().to_multiset().insert(v.last()));
    }
}

/// What assimilation yields: the per-satellite TEC records, sorted by
/// satellite identity, wrapped with the fix's time and location; or
/// nothing when no satellite contributes.
pub open spec fn spec_assimilate(src: crate::fusion::UbxInfoV)
    -> Option<(UtcTime, (Coord, Coord, Dec), Seq<TecData>)> {
    let l = spec_sort_tec(spec_tec_list(src.meas));
    if l.len() == 0 {
        None
    } else {
        Some((src.timestamp, src.loc, l))
    }
}

/// Total Electron Content observables derived from the carrier-phase
/// measurements of a dual-frequency receiver.
#[derive(Debug)]
pub struct TecInfo {
    /// The timestamp of the records.
    pub timestamp: UtcTime,
    /// The location of the fix: latitude, longitude, altitude.
    pub location: (Coord, Coord, Dec),
    /// The records, sorted by satellite identity.
    pub tec: Vec<TecData>,
}

impl TecInfo {
    /// Assimilate the carrier-phase measurements of a fused fix into
    /// per-satellite TEC observables, sorted by satellite identity.
    /// Yields nothing when no satellite has a complete dual-frequency
    /// pair.
    pub fn assimilate(src: &UbxGpsInfo) -> (r: Option<TecInfo>)
        ensures
            match r {
                Some(t) => spec_assimilate(src@) == Some((t.timestamp, t.location, t.tec@)),
                None => spec_assimilate(src@) is None,
            },
    {
        let timestamp = src.timestamp();
        let location = src.location();
        let groups = src.carrier_phase();
        let ghost gv = src@.meas;
        let mut tec: Vec<TecData> = Vec::new();
        let mut i: usize = 0;
        let n = groups.len();
        proof {
            assert(gv.len() == n);
        }
        while i < n
            invariant
                i <= n == groups@.len(),
                gv == groups@.map_values(|e: (GnssSatellite, crate::fusion::SatPathInfo)| (
                    e.0, e.1@)),
                gv.len() == n,
                tec@ == spec_tec_list(gv.take(i as int)),
            decreases n - i,
        {
            proof {
                assert(gv.take(i + 1).drop_last() =~= gv.take(i as int));
                assert(gv.take(i + 1).last() == gv[i as int]);
                assert(gv[i as int] == (groups@[i as int].0, groups@[i as int].1@));
            }
            let sat = groups[i].0;
            let sp = &groups[i].1;
            if sp.meas.len() >= 2 {
                let m0 = sp.meas[0];
                let m1 = sp.meas[1];
                let phase: Option<((u64, u8), (u64, u8))> = match (m0.carrier_phase,
                    m1.carrier_phase) {
                    (Some(a), Some(b)) => Some((a, b)),
                    _ => None,
                };
                let range: Option<((u64, u8), (u64, u8))> = match (m0.pseudo_range,
                    m1.pseudo_range) {
                    (Some(a), Some(b)) => Some((a, b)),
                    _ => None,
                };
                if !(phase.is_none() && range.is_none()) {
                    tec.push(TecData {
                        source: sat,
                        pointing: (sp.azimuth, sp.elevation),
                        channels: (m0.channel, m1.channel),
                        phase_obs: phase,
                        range_obs: range,
                        trk_stat: (m0.trk_stat, m1.trk_stat),
                    });
                }
            }
            i = i + 1;
        }
        proof {
            assert(gv.take(gv.len() as int) =~= gv);
        }
        // sort by satellite identity
        let mut sorted: Vec<TecData> = Vec::new();
        let mut j: usize = 0;
        let m = tec.len();
        while j < m
            invariant
                j <= m == tec@.len(),
                sorted@ == spec_sort_tec(tec@.take(j as int)),
            decreases m - j,
        {
            proof {
                assert(tec@.take(j + 1).drop_last() =~= tec@.take(j as int));
                assert(tec@.take(j + 1).last() == tec@[j as int]);
            }
            insert_tec_sorted(&mut sorted, tec[j]);
            j = j + 1;
        }
        proof {
            assert(tec@.take(tec@.len() as int) =~= tec@);
        }
        if sorted.len() == 0 {
            None
        } else {
            Some(TecInfo { timestamp, location, tec: sorted })
        }
    }

    /// The timestamp of the TEC records.
    pub fn timestamp(&self) -> (r: UtcTime)
        ensures
            r == self.timestamp,
    {
        self.timestamp
    }

    /// The location of the fix, as latitude, longitude, altitude.
    pub fn location(&self) -> (r: (Coord, Coord, Dec))
        ensures
            r == self.location,
    {
        self.location
    }

    /// The TEC records, sorted by satellite identity.
    pub fn tec(&self) -> (r: &Vec<TecData>)
        ensures
            r@ == self.tec@,
    {
        &self.tec
    }
}

proof fn lemma_insert_tec_at(v: Seq<TecData>, d: TecData, idx: int)
    requires
        0 <= idx <= v.len(),
        forall|j: int| 0 <= j < idx ==> !(sat_key(d.source) < sat_key(
            (#[trigger] v[j]).source)),
        idx < v.len() ==> sat_key(d.source) < sat_key(v[idx].source),
    ensures
        spec_insert_tec(v, d) == v.insert(idx, d),
    decreases idx,
{
    if v.len() == 0 {
        assert(spec_insert_tec(v, d) =~= v.insert(0, d));
    } else if idx == 0 {
        assert(spec_insert_tec(v, d) =~= v.insert(0, d));
    } else {
        lemma_insert_tec_at(v.drop_first(), d, idx - 1);
        assert(seq![v[0]] + v.drop_first().insert(idx - 1, d) =~= v.insert(idx, d));
    }
}

/// Insert a TEC record into a vector ordered by satellite identity.
fn insert_tec_sorted(v: &mut Vec<TecData>, d: TecData)
    ensures
        final(v)@ == spec_insert_tec(old(v)@, d),
{
    let dk = d.source.order_key();
    let mut idx: usize = 0;
    let n = v.len();
    while idx < n
        invariant
            idx <= n == v@.len(),
            v@ == old(v)@,
            dk == sat_key(d.source),
            forall|j: int| 0 <= j < idx ==> !(sat_key(d.source) < sat_key(
                (#[trigger] v@[j]).source)),
        decreases n - idx,
    {
        let ck = v[idx].source.order_key();
        if dk < ck {
            v.insert(idx, d);
            proof {
                lemma_insert_tec_at(old(v)@, d, idx as int);
            }
            return;
        }
        idx = idx + 1;
    }
    v.push(d);
    proof {
        lemma_insert_tec_at(old(v)@, d, n as int);
        assert(old(v)@.insert(n as int, d) =~= old(v)@.push(d));
    }
}

} // verus!
