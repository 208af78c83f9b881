//! Bit-exact decoding of the u-blox RXM-RAWX measurement record.
//!
//! The record is class `0x02`, id `0x15`.  A 16-byte little-endian header
//! carries the receiver time of week (an IEEE-754 double, kept here as
//! its bit pattern), the GPS week number, the leap-second count, the
//! declared measurement count, receiver status flags and the message
//! version.  Each measurement is a 32-byte block; pseudo-range, carrier
//! phase and Doppler are IEEE-754 numbers kept as bit patterns, and their
//! standard deviations are carried as the raw index bytes, to be scaled
//! by the consumer: `0.01 * 2^idx` m for the pseudo-range, `0.004 * idx`
//! cycles for the carrier phase, and `0.002 * 2^idx` Hz for the Doppler.

use vstd::prelude::*;
use crate::freq::{spec_freq_hz, spec_parse_sat_ids, parse_sat_ids, GnssFreq};
use crate::gnss::GnssSatellite;
use crate::frame::UbxMessage;

verus! {

/// UBX message classes
#[derive(Debug, Copy, PartialEq, Eq, Structural, Clone, Hash)]
pub enum UbxClass {
    /// Receiver messages
    Receiver(UbxRxm),
    /// Acknowledgement messages
    Ack(UbxAck),
}

/// UBX message acknowledgement types
#[derive(Debug, Copy, PartialEq, Eq, Structural, Clone, Hash)]
pub enum UbxAck {
    /// Ack
    Ack,
    /// Nack
    Nack,
}

/// UBX RXM message types
#[derive(Debug, Copy, PartialEq, Eq, Structural, Clone, Hash)]
pub enum UbxRxm {
    /// Measured navigation data
    MeasX,
    /// Raw receiver measurements
    RawX,
    /// Galileo SAR RLM report
    Rlm,
    /// Broadcast Navigation Data Subframe
    SfrbX,
}

/// The documented `(class, id)` table of the message classes.
pub open spec fn spec_ubx_class(cls: u8, id: u8) -> Result<UbxClass, &'static str> {
    if cls == 2 {
        match id {
            0x14 => Ok(UbxClass::Receiver(UbxRxm::MeasX)),
            0x15 => Ok(UbxClass::Receiver(UbxRxm::RawX)),
            0x59 => Ok(UbxClass::Receiver(UbxRxm::Rlm)),
            0x13 => Ok(UbxClass::Receiver(UbxRxm::SfrbX)),
            _ => Err("Invalid UBX RXM ID"),
        }
    } else if cls == 5 {
        match id {
            0x1 => Ok(UbxClass::Ack(UbxAck::Ack)),
            0x0 => Ok(UbxClass::Ack(UbxAck::Nack)),
            _ => Err("Invalid UBX ACK ID"),
        }
    } else {
        Err("Invalid UBX class ID")
    }
}

impl UbxClass {
    /// Decode a `(class, id)` byte pair into a message class.
    pub fn try_from(value: (u8, u8)) -> (r: Result<Self, &'static str>)
        ensures
            r == spec_ubx_class(value.0, value.1),
    {
        let (cls, id): (u8, u8) = value;
        if cls == 2 {
            match id {
                0x14 => Ok(UbxClass::Receiver(UbxRxm::MeasX)),
                0x15 => Ok(UbxClass::Receiver(UbxRxm::RawX)),
                0x59 => Ok(UbxClass::Receiver(UbxRxm::Rlm)),
                0x13 => Ok(UbxClass::Receiver(UbxRxm::SfrbX)),
                _ => Err("Invalid UBX RXM ID"),
            }
        } else if cls == 5 {
            match id {
                0x1 => Ok(UbxClass::Ack(UbxAck::Ack)),
                0x0 => Ok(UbxClass::Ack(UbxAck::Nack)),
                _ => Err("Invalid UBX ACK ID"),
            }
        } else {
            Err("Invalid UBX class ID")
        }
    }
}

/// Tracking status and phase lock flags for carrier phase and
/// pseudo-range measurements.  The wire byte is kept as-is; the getters
/// read the documented bits.
#[derive(Debug, Copy, PartialEq, Eq, Structural, Clone, Hash)]
pub struct TrkStat(pub u8);

impl TrkStat {
    /// Pseudo-range measurement is valid (bit 0).
    pub fn pr_valid(&self) -> (r: bool)
        ensures
            r == (self.0 & 1 == 1),
    {
        self.0 & 1 == 1
    }

    /// Carrier-phase measurement is valid (bit 1).
    pub fn cp_valid(&self) -> (r: bool)
        ensures
            r == (self.0 & 2 == 2),
    {
        self.0 & 2 == 2
    }

    /// Half-cycle ambiguity is fixed (bit 2).
    pub fn half_cycle(&self) -> (r: bool)
        ensures
            r == (self.0 & 4 == 4),
    {
        self.0 & 4 == 4
    }

    /// Sub-half-cycle ambiguity is fixed (bit 3).
    pub fn sub_half_cycle(&self) -> (r: bool)
        ensures
            r == (self.0 & 8 == 8),
    {
        self.0 & 8 == 8
    }
}

/// Receiver status flags, kept as the wire byte.
#[derive(Debug, Copy, PartialEq, Eq, Structural, Clone, Hash)]
pub struct RecvStat(pub u8);

impl RecvStat {
    /// Leap second information is available (bit 0).
    pub fn leap_second_ready(&self) -> (r: bool)
        ensures
            r == (self.0 & 1 == 1),
    {
        self.0 & 1 == 1
    }

    /// Receiver clock is reset (bit 1).  Usually the receiver clock is
    /// changed in increments of integer milliseconds.
    pub fn clk_reset(&self) -> (r: bool)
        ensures
            r == (self.0 & 2 == 2),
    {
        self.0 & 2 == 2
    }
}

/// The GPS-epoch timestamp of a measurement record, kept as the plain
/// values the wire carries.  The instant it names is
/// `1980-01-06T00:00:00Z + week weeks + tow seconds + leap_s seconds`,
/// where `tow` is the IEEE-754 double whose bit pattern is `tow_bits`.
#[derive(Debug, Copy, PartialEq, Eq, Structural, Clone, Hash)]
pub struct GpsTime {
    /// GPS week number since the GPS epoch.
    pub week: u16,
    /// Bit pattern of the receiver time of week in seconds (an IEEE-754
    /// double).
    pub tow_bits: u64,
    /// Leap seconds between GPS time and UTC.
    pub leap_s: i8,
}

/// Carrier phase and Doppler measurements of one signal.
#[derive(Debug, Copy, Clone)]
pub struct CarrierMeas {
    /// GNSS satellite and frequency channel
    pub channel: GnssFreq,
    /// Pseudo-range measurement in m: the bit pattern of the IEEE-754
    /// double, and the raw deviation index (sigma is `0.01 * 2^idx` m).
    /// Present iff the pseudo-range tracking bit is set.
    pub pseudo_range: Option<(u64, u8)>,
    /// Carrier-phase measurement in cycles: the bit pattern of the
    /// IEEE-754 double, and the raw deviation index (sigma is
    /// `0.004 * idx` cycles).  Present iff the carrier-phase tracking bit
    /// is set.
    pub carrier_phase: Option<(u64, u8)>,
    /// Doppler measurement in Hz: the bit pattern of the IEEE-754 single,
    /// and the raw deviation index (sigma is `0.002 * 2^idx` Hz).
    /// Positive Doppler indicates the satellite moving towards the
    /// receiver.
    pub doppler: (u32, u8),
    /// Carrier phase locktime counter (ms, saturating at 64500 ms)
    pub locktime: u16,
    /// Carrier-to-noise ratio (dB-Hz)
    pub carrier_snr: u8,
    /// Tracking status and phase lock flags
    pub trk_stat: TrkStat,
}

/// A little-endian integer read from `k` bytes at `i`.
pub open spec fn le_bytes_at(s: Seq<u8>, i: int, k: int) -> int
    decreases k,
{
    if k <= 0 {
        0
    } else {
        s[i] + 256 * le_bytes_at(s, i + 1, k - 1)
    }
}

/// Read a 16-bit little-endian integer.
fn le16_at(buf: &[u8], i: usize) -> (r: u16)
    requires
        i + 2 <= buf@.len(),
    ensures
        r as int == le_bytes_at(buf@, i as int, 2),
{
    proof {
        reveal_with_fuel(le_bytes_at, 3);
    }
    buf[i] as u16 + 256 * (buf[i + 1] as u16)
}

/// Read a 32-bit little-endian integer.
fn le32_at(buf: &[u8], i: usize) -> (r: u32)
    requires
        i + 4 <= buf@.len(),
    ensures
        r as int == le_bytes_at(buf@, i as int, 4),
{
    proof {
        reveal_with_fuel(le_bytes_at, 5);
    }
    buf[i] as u32 + 0x100 * (buf[i + 1] as u32) + 0x1_0000 * (buf[i + 2] as u32) + 0x100_0000
        * (buf[i + 3] as u32)
}

/// Read a 64-bit little-endian integer.
fn le64_at(buf: &[u8], i: usize) -> (r: u64)
    requires
        i + 8 <= buf@.len(),
    ensures
        r as int == le_bytes_at(buf@, i as int, 8),
{
    proof {
        reveal_with_fuel(le_bytes_at, 9);
    }
    buf[i] as u64 + 0x100 * (buf[i + 1] as u64) + 0x1_0000 * (buf[i + 2] as u64) + 0x100_0000
        * (buf[i + 3] as u64) + 0x1_0000_0000 * (buf[i + 4] as u64) + 0x100_0000_0000
        * (buf[i + 5] as u64) + 0x1_0000_0000_0000 * (buf[i + 6] as u64) + 0x100_0000_0000_0000
        * (buf[i + 7] as u64)
}

/// The measurement decoded from the 32-byte block at `base`, given the
/// channel its identifiers name.  The pseudo-range is present iff
/// tracking bit 0 is set, the carrier phase iff bit 1 is set.
pub open spec fn spec_meas_at(s: Seq<u8>, base: int, freq: GnssFreq) -> CarrierMeas
    recommends
        0 <= base && base + 32 <= s.len(),
{
    CarrierMeas {
        channel: freq,
        pseudo_range: if s[base + 30] & 1 == 1 {
            Some((le_bytes_at(s, base, 8) as u64, s[base + 27]))
        } else {
            None
        },
        carrier_phase: if s[base + 30] & 2 == 2 {
            Some((le_bytes_at(s, base + 8, 8) as u64, s[base + 28]))
        } else {
            None
        },
        doppler: (le_bytes_at(s, base + 16, 4) as u32, s[base + 29]),
        locktime: le_bytes_at(s, base + 24, 2) as u16,
        carrier_snr: s[base + 26],
        trk_stat: TrkStat(s[base + 30]),
    }
}

/// Append a measurement to the group of its satellite, keeping the
/// first-seen order of groups; a new satellite opens a new group at the
/// end.
pub open spec fn spec_insert_meas(g: Seq<(GnssSatellite, Seq<CarrierMeas>)>, sat: GnssSatellite,
    m: CarrierMeas) -> Seq<(GnssSatellite, Seq<CarrierMeas>)>
    decreases g.len(),
{
    if g.len() == 0 {
        seq![(sat, seq![m])]
    } else if g[0].0 == sat {
        seq![(g[0].0, g[0].1.push(m))] + g.drop_first()
    } else {
        seq![g[0]] + spec_insert_meas(g.drop_first(), sat, m)
    }
}

proof fn lemma_insert_meas_found(g: Seq<(GnssSatellite, Seq<CarrierMeas>)>, sat: GnssSatellite,
    m: CarrierMeas, idx: int)
    requires
        0 <= idx < g.len(),
        g[idx].0 == sat,
        forall|j: int| 0 <= j < idx ==> (#[trigger] g[j]).0 != sat,
    ensures
        spec_insert_meas(g, sat, m) == g.update(idx, (sat, g[idx].1.push(m))),
    decreases idx,
{
    if idx == 0 {
        assert(spec_insert_meas(g, sat, m) =~= g.update(0, (sat, g[0].1.push(m))));
    } else {
        lemma_insert_meas_found(g.drop_first(), sat, m, idx - 1);
        assert(g.drop_first()[idx - 1] == g[idx]);
        assert(seq![g[0]] + g.drop_first().update(idx - 1, (sat, g[idx].1.push(m)))
            =~= g.update(idx, (sat, g[idx].1.push(m))));
    }
}

proof fn lemma_insert_meas_absent(g: Seq<(GnssSatellite, Seq<CarrierMeas>)>, sat: GnssSatellite,
    m: CarrierMeas)
    requires
        forall|j: int| 0 <= j < g.len() ==> (#[trigger] g[j]).0 != sat,
    ensures
        spec_insert_meas(g, sat, m) == g.push((sat, seq![m])),
    decreases g.len(),
{
    if g.len() == 0 {
        assert(spec_insert_meas(g, sat, m) =~= g.push((sat, seq![m])));
    } else {
        lemma_insert_meas_absent(g.drop_first(), sat, m);
        assert(seq![g[0]] + g.drop_first().push((sat, seq![m])) =~= g.push((sat, seq![m])));
    }
}

/// The groups decoded from the first `n` measurement blocks of the
/// payload, in first-seen satellite order.  A block whose identifiers
/// name no known satellite or channel is dropped.
pub open spec fn spec_groups(s: Seq<u8>, n: int) -> Seq<(GnssSatellite, Seq<CarrierMeas>)>
    recommends
        16 + 32 * n <= s.len(),
    decreases n,
{
    if n <= 0 {
        Seq::empty()
    } else {
        let g = spec_groups(s, n - 1);
        let base = 16 + 32 * (n - 1);
        match spec_parse_sat_ids(s[base + 20], s[base + 21], s[base + 22], s[base + 23] as i8) {
            Ok(sf) => spec_insert_meas(g, sf.0, spec_meas_at(s, base, sf.1)),
            Err(_) => g,
        }
    }
}

/// Insert a measurement into a list ordered by carrier frequency
/// descending, after every entry of strictly higher or equal frequency.
pub open spec fn spec_insert_sorted(v: Seq<CarrierMeas>, m: CarrierMeas) -> Seq<CarrierMeas>
    decreases v.len(),
{
    if v.len() == 0 {
        seq![m]
    } else if spec_freq_hz(m.channel) > spec_freq_hz(v[0].channel) {
        seq![m] + v
    } else {
        seq![v[0]] + spec_insert_sorted(v.drop_first(), m)
    }
}

/// A measurement list sorted by carrier frequency descending, built by
/// stable insertion from the left.
pub open spec fn spec_sort_meas(v: Seq<CarrierMeas>) -> Seq<CarrierMeas>
    decreases v.len(),
{
    if v.len() == 0 {
        Seq::empty()
    } else {
        spec_insert_sorted(spec_sort_meas(v.drop_last()), v.last())
    }
}

/// Each group's measurement list sorted by carrier frequency descending.
pub open spec fn spec_sort_groups(g: Seq<(GnssSatellite, Seq<CarrierMeas>)>)
    -> Seq<(GnssSatellite, Seq<CarrierMeas>)> {
    g.map_values(|e: (GnssSatellite, Seq<CarrierMeas>)| (e.0, spec_sort_meas(e.1)))
}

/// Ordered by carrier frequency, highest first.
pub open spec fn sorted_by_freq_desc(v: Seq<CarrierMeas>) -> bool {
    forall|i: int, j: int|
        0 <= i < j < v.len() ==> spec_freq_hz(v[i].channel) >= spec_freq_hz(v[j].channel)
}

proof fn lemma_insert_sorted_props(v: Seq<CarrierMeas>, m: CarrierMeas)
    ensures
        spec_insert_sorted(v, m).len() == v.len() + 1,
        spec_insert_sorted(v, m).to_multiset() == v.to_multiset().insert(m),
        sorted_by_freq_desc(v) ==> sorted_by_freq_desc(spec_insert_sorted(v, m)),
    decreases v.len(),
{
    broadcast use vstd::seq_lib::group_to_multiset_ensures;

    let r = spec_insert_sorted(v, m);
    if v.len() == 0 {
        assert(r =~= Seq::empty().insert(0, m));
        vstd::seq_lib::to_multiset_insert(Seq::empty(), 0, m);
        assert(v.to_multiset() =~= Seq::<CarrierMeas>::empty().to_multiset());
    } else if spec_freq_hz(m.channel) > spec_freq_hz(v[0].channel) {
        assert(r =~= v.insert(0, m));
        vstd::seq_lib::to_multiset_insert(v, 0, m);
        if sorted_by_freq_desc(v) {
            assert forall|i: int, j: int| 0 <= i < j < r.len() implies spec_freq_hz(
                r[i].channel) >= spec_freq_hz(r[j].channel) by {
                if i > 0 {
                    assert(r[i] == v[i - 1] && r[j] == v[j - 1]);
                }
            }
        }
    } else {
        lemma_insert_sorted_props(v.drop_first(), m);
        let rr = spec_insert_sorted(v.drop_first(), m);
        assert(r =~= rr.insert(0, v[0]));
        vstd::seq_lib::to_multiset_insert(rr, 0, v[0]);
        assert(v =~= v.drop_first().insert(0, v[0]));
        vstd::seq_lib::to_multiset_insert(v.drop_first(), 0, v[0]);
        assert(r.to_multiset() =~= v.to_multiset().insert(m));
        if sorted_by_freq_desc(v) {
            assert(sorted_by_freq_desc(v.drop_first())) by {
                assert(forall|i: int| 0 <= i < v.drop_first().len() ==> #[trigger] v.drop_first()[
                    i] == v[i + 1]);
            }
            assert(sorted_by_freq_desc(rr));
            assert forall|i: int, j: int| 0 <= i < j < r.len() implies spec_freq_hz(
                r[i].channel) >= spec_freq_hz(r[j].channel) by {
                if i > 0 {
                    assert(r[i] == rr[i - 1] && r[j] == rr[j - 1]);
                } else {
                    assert(r[j] == rr[j - 1]);
                    assert(rr.to_multiset().contains(rr[j - 1]));
                    assert(v.drop_first().to_multiset().insert(m).contains(rr[j - 1]));
                    if rr[j - 1] == m {
                        assert(spec_freq_hz(v[0].channel) >= spec_freq_hz(m.channel));
                    } else {
                        assert(v.drop_first().to_multiset().contains(rr[j - 1]));
                        assert(v.drop_first().contains(rr[j - 1]));
                        let k = choose|k: int| 0 <= k < v.drop_first().len()
                            && v.drop_first()[k] == rr[j - 1];
                        assert(v[k + 1] == rr[j - 1]);
                    }
                }
            }
        }
    }
}

/// Law: sorting a measurement list yields a permutation of it, ordered by
/// carrier frequency descending.  This ordering is load-bearing: the TEC
/// estimator reads the first two entries of a group as the
/// highest-frequency pair.
pub proof fn lemma_sort_meas_props(v: Seq<CarrierMeas>)
    ensures
        spec_sort_meas(v).len() == v.len(),
        spec_sort_meas(v).to_multiset() == v.to_multiset(),
        sorted_by_freq_desc(spec_sort_meas(v)),
    decreases v.len(),
{
    broadcast use vstd::seq_lib::group_to_multiset_ensures;

    if v.len() == 0 {
        assert(spec_sort_meas(v) =~= Seq::<CarrierMeas>::empty());
        assert(v.to_multiset() =~= Seq::<CarrierMeas>::empty().to_multiset());
    } else {
        lemma_sort_meas_props(v.drop_last());
        lemma_insert_sorted_props(spec_sort_meas(v.drop_last()), v.last());
        assert(v =~= v.drop_last().push(v.last()));
        assert(v.to_multiset() =~= v.drop_last().to_multiset().insert(v.last()));
    }
}

/// The view of a group list: each group's vector replaced by the
/// sequence it holds.
pub open spec fn groups_view(g: Seq<(GnssSatellite, Vec<CarrierMeas>)>)
    -> Seq<(GnssSatellite, Seq<CarrierMeas>)> {
    g.map_values(|e: (GnssSatellite, Vec<CarrierMeas>)| (e.0, e.1@))
}

/// Append a measurement to the group of its satellite, opening a new
/// group at the end when the satellite has none yet.
fn insert_meas(groups: &mut Vec<(GnssSatellite, Vec<CarrierMeas>)>, sat: GnssSatellite,
    m: CarrierMeas)
    ensures
        groups_view(final(groups)@) == spec_insert_meas(groups_view(old(groups)@), sat, m),
{
    let ghost g0 = groups_view(groups@);
    proof {
        assert(g0.len() == groups@.len());
    }
    let mut idx: usize = 0;
    let n = groups.len();
    while idx < n
        invariant
            idx <= n == groups@.len(),
            groups@ == old(groups)@,
            g0 == groups_view(groups@),
            forall|j: int| 0 <= j < idx ==> (#[trigger] groups@[j]).0 != sat,
        decreases n - idx,
    {
        if groups[idx].0 == sat {
            let pair = groups.remove(idx);
            let (s0, mut v0) = pair;
            v0.push(m);
            groups.insert(idx, (s0, v0));
            proof {
                let ii = idx as int;
                assert(0 <= ii < g0.len());
                assert(forall|j: int| 0 <= j < ii ==> (#[trigger] g0[j]).0 != sat);
                assert(g0[ii].0 == sat);
                lemma_insert_meas_found(g0, sat, m, ii);
                assert(groups@ =~= old(groups)@.update(ii, (s0, v0)));
                assert(v0@ == g0[ii].1.push(m));
                assert(groups_view(groups@) =~= g0.update(ii, (sat, g0[ii].1.push(m))));
            }
            return;
        }
        idx = idx + 1;
    }
    let mut fresh: Vec<CarrierMeas> = Vec::new();
    fresh.push(m);
    proof {
        assert(fresh@ =~= seq![m]);
    }
    groups.push((sat, fresh));
    proof {
        lemma_insert_meas_absent(g0, sat, m);
        assert(groups_view(groups@) =~= g0.push((sat, seq![m])));
    }
}

/// Insert a measurement into a vector ordered by carrier frequency
/// descending, after every entry of higher or equal frequency.
fn insert_sorted(v: &mut Vec<CarrierMeas>, m: CarrierMeas)
    ensures
        final(v)@ == spec_insert_sorted(old(v)@, m),
{
    let mf = m.channel.freq_hz();
    let mut idx: usize = 0;
    let n = v.len();
    while idx < n
        invariant
            idx <= n == v@.len(),
            v@ == old(v)@,
            mf == spec_freq_hz(m.channel),
            forall|j: int| 0 <= j < idx ==> !(mf > spec_freq_hz((#[trigger] v@[j]).channel)),
        decreases n - idx,
    {
        let cf = v[idx].channel.freq_hz();
        if mf > cf {
            v.insert(idx, m);
            proof {
                lemma_insert_sorted_at(old(v)@, m, idx as int);
            }
            return;
        }
        idx = idx + 1;
    }
    v.push(m);
    proof {
        lemma_insert_sorted_at(old(v)@, m, n as int);
        assert(old(v)@.insert(n as int, m) =~= old(v)@.push(m));
    }
}

proof fn lemma_insert_sorted_at(v: Seq<CarrierMeas>, m: CarrierMeas, idx: int)
    requires
        0 <= idx <= v.len(),
        forall|j: int| 0 <= j < idx ==> !(spec_freq_hz(m.channel) > spec_freq_hz(
            (#[trigger] v[j]).channel)),
        idx < v.len() ==> spec_freq_hz(m.channel) > spec_freq_hz(v[idx].channel),
    ensures
        spec_insert_sorted(v, m) == v.insert(idx, m),
    decreases idx,
{
    if v.len() == 0 {
        assert(spec_insert_sorted(v, m) =~= v.insert(0, m));
    } else if idx == 0 {
        assert(spec_insert_sorted(v, m) =~= v.insert(0, m));
    } else {
        lemma_insert_sorted_at(v.drop_first(), m, idx - 1);
        assert(seq![v[0]] + v.drop_first().insert(idx - 1, m) =~= v.insert(idx, m));
    }
}

/// Sort a measurement vector by carrier frequency descending.
fn sort_meas(v: Vec<CarrierMeas>) -> (r: Vec<CarrierMeas>)
    ensures
        r@ == spec_sort_meas(v@),
{
    let mut out: Vec<CarrierMeas> = Vec::new();
    let mut i: usize = 0;
    while i < v.len()
        invariant
            i <= v@.len(),
            out@ == spec_sort_meas(v@.take(i as int)),
        decreases v@.len() - i,
    {
        insert_sorted(&mut out, v[i]);
        proof {
            assert(v@.take(i + 1).drop_last() =~= v@.take(i as int));
            assert(v@.take(i + 1).last() == v@[i as int]);
        }
        i = i + 1;
    }
    proof {
        assert(v@.take(v@.len() as int) =~= v@);
    }
    out
}

/// Convert a u-blox message to a specific record type.
pub trait UbxFormat: Sized {
    /// Convert a u-blox message to this record type.
    fn from_message(message: UbxMessage) -> Result<Self, &'static str>;
}

/// A decoded RXM-RAWX measurement record.
#[derive(Debug, Clone)]
pub struct UbxRxmRawx {
    /// Timestamp of the record, in GPS-epoch plain values.
    pub timestamp: GpsTime,
    /// Receiver status flags.
    pub receiver_status: RecvStat,
    /// Message version (0x1).
    pub version: u8,
    /// Carrier pseudo-range, phase and Doppler measurements, grouped by
    /// satellite in first-seen order; within a group the measurements
    /// are sorted by carrier frequency descending.
    pub meas: Vec<(GnssSatellite, Vec<CarrierMeas>)>,
}

/// What decoding a message as RXM-RAWX yields: the timestamp, receiver
/// status, version and satellite groups, or the error naming the header
/// check that failed.  The measurement count byte must equal
/// `(payload_len - 16) / 32`.
pub open spec fn spec_rawx(class: u8, id: u8, p: Seq<u8>)
    -> Result<(GpsTime, RecvStat, u8, Seq<(GnssSatellite, Seq<CarrierMeas>)>), Seq<char>> {
    if class != 2 {
        Err("Invalid UBX message class"@)
    } else if id != 0x15 {
        Err("Invalid UBX message ID"@)
    } else if p.len() < 16 {
        Err("Invalid UBX message length, malformed message"@)
    } else if p[11] as int != (p.len() - 16) / 32 {
        Err("Invalid number of measurements, malformed message"@)
    } else {
        Ok((GpsTime {
            week: le_bytes_at(p, 8, 2) as u16,
            tow_bits: le_bytes_at(p, 0, 8) as u64,
            leap_s: p[10] as i8,
        }, RecvStat(p[12]), p[13], spec_sort_groups(spec_groups(p, (p.len() - 16) / 32))))
    }
}

impl UbxRxmRawx {
    /// Decode an RXM-RAWX record from a u-blox message.
    ///
    /// The message must carry class `0x02` and id `0x15`, at least the
    /// 16-byte header, and a measurement count byte that matches the
    /// payload length; each error names the check that failed.  A
    /// measurement block whose identifiers name no known satellite or
    /// channel is dropped and decoding continues.
    pub fn from_message(message: UbxMessage) -> (r: Result<Self, &'static str>)
        ensures
            match r {
                Ok(m) => spec_rawx(message.class, message.id, message.payload@)
                    == Ok::<_, Seq<char>>((m.timestamp, m.receiver_status, m.version,
                    groups_view(m.meas@))),
                Err(e) => spec_rawx(message.class, message.id, message.payload@) == Err::<(
                    GpsTime, RecvStat, u8, Seq<(GnssSatellite, Seq<CarrierMeas>)>), _>(e@),
            },
    {
        if message.class != 2 {
            return Err("Invalid UBX message class");
        }
        if message.id != 0x15 {
            return Err("Invalid UBX message ID");
        }
        let p = message.payload;
        if p.len() < 16 {
            return Err("Invalid UBX message length, malformed message");
        }
        let num_mes: usize = (p.len() - 16) / 32;
        if !(p[11] as usize == num_mes) {
            return Err("Invalid number of measurements, malformed message");
        }
        proof {
            vstd::arithmetic::div_mod::lemma_fundamental_div_mod(p@.len() - 16, 32);
        }
        let week = le16_at(p.as_slice(), 8);
        let tow_bits = le64_at(p.as_slice(), 0);
        let leap_s = p[10] as i8;
        let timestamp = GpsTime { week, tow_bits, leap_s };
        let receiver_status = RecvStat(p[12]);
        let version = p[13];
        let mut groups: Vec<(GnssSatellite, Vec<CarrierMeas>)> = Vec::new();
        let mut i: usize = 0;
        while i < num_mes
            invariant
                i <= num_mes,
                num_mes == (p@.len() - 16) / 32,
                16 + 32 * num_mes <= p@.len(),
                groups_view(groups@) == spec_groups(p@, i as int),
            decreases num_mes - i,
        {
            proof {
                assert(32 * (i + 1) <= 32 * num_mes) by (nonlinear_arith)
                    requires
                        i < num_mes,
                ;
            }
            let base: usize = 16 + 32 * i;
            let gnss_id = p[base + 20];
            let sat_id = p[base + 21];
            let sig_id = p[base + 22];
            let glonass = p[base + 23] as i8;
            match parse_sat_ids(gnss_id, sat_id, sig_id, glonass) {
                Ok((sat, freq)) => {
                    let trk_stat = TrkStat(p[base + 30]);
                    let pr: Option<(u64, u8)> = if trk_stat.pr_valid() {
                        Some((le64_at(p.as_slice(), base), p[base + 27]))
                    } else {
                        None
                    };
                    let cp: Option<(u64, u8)> = if trk_stat.cp_valid() {
                        Some((le64_at(p.as_slice(), base + 8), p[base + 28]))
                    } else {
                        None
                    };
                    let doppler: (u32, u8) = (le32_at(p.as_slice(), base + 16), p[base + 29]);
                    let locktime = le16_at(p.as_slice(), base + 24);
                    let mes = CarrierMeas {
                        channel: freq,
                        pseudo_range: pr,
                        carrier_phase: cp,
                        doppler,
                        locktime,
                        carrier_snr: p[base + 26],
                        trk_stat,
                    };
                    proof {
                        assert(mes == spec_meas_at(p@, base as int, freq));
                    }
                    insert_meas(&mut groups, sat, mes);
                },
                Err(_) => {
                },
            }
            i = i + 1;
        }
        let ghost gfull = groups_view(groups@);
        proof {
            assert(gfull == spec_groups(p@, num_mes as int));
        }
        let mut sorted: Vec<(GnssSatellite, Vec<CarrierMeas>)> = Vec::new();
        let ghost mut done: int = 0;
        while groups.len() > 0
            invariant
                0 <= done <= gfull.len(),
                done + groups@.len() == gfull.len(),
                groups_view(groups@) == gfull.skip(done),
                groups_view(sorted@) == spec_sort_groups(gfull.take(done)),
            decreases groups@.len(),
        {
            let ghost gs = groups_view(groups@);
            let pair = groups.remove(0);
            let (s0, v0) = pair;
            let ghost v0seq = v0@;
            let sv = sort_meas(v0);
            sorted.push((s0, sv));
            proof {
                assert(gs[0] == gfull[done]);
                assert(groups_view(groups@) =~= gs.drop_first());
                assert(gs.drop_first() =~= gfull.skip(done + 1));
                assert(gfull.take(done + 1).drop_last() =~= gfull.take(done));
                assert(gfull.take(done + 1).last() == gfull[done]);
                assert(spec_sort_groups(gfull.take(done + 1)) =~= spec_sort_groups(gfull.take(
                    done)).push((s0, spec_sort_meas(v0seq))));
                assert(groups_view(sorted@) =~= spec_sort_groups(gfull.take(done)).push((s0,
                    spec_sort_meas(v0seq))));
                done = done + 1;
            }
        }
        proof {
            assert(gfull.take(gfull.len() as int) =~= gfull);
        }
        Ok(UbxRxmRawx { timestamp, receiver_status, version, meas: sorted })
    }

    /// Remove the measurement groups where only one frequency band is
    /// available: only satellites with at least two channels remain.
    pub fn remove_single_band(&mut self)
        ensures
            final(self).timestamp == old(self).timestamp,
            final(self).receiver_status == old(self).receiver_status,
            final(self).version == old(self).version,
            groups_view(final(self).meas@) == spec_retain_multi(groups_view(old(self).meas@)),
    {
        let ghost full = groups_view(self.meas@);
        let mut kept: Vec<(GnssSatellite, Vec<CarrierMeas>)> = Vec::new();
        let ghost mut done: int = 0;
        while self.meas.len() > 0
            invariant
                0 <= done <= full.len(),
                done + self.meas@.len() == full.len(),
                groups_view(self.meas@) == full.skip(done),
                groups_view(kept@) == spec_retain_multi(full.take(done)),
                self.timestamp == old(self).timestamp,
                self.receiver_status == old(self).receiver_status,
                self.version == old(self).version,
            decreases self.meas@.len(),
        {
            let ghost gs = groups_view(self.meas@);
            let pair = self.meas.remove(0);
            let (s0, v0) = pair;
            proof {
                assert(gs[0] == full[done]);
                assert(groups_view(self.meas@) =~= gs.drop_first());
                assert(gs.drop_first() =~= full.skip(done + 1));
                assert(full.take(done + 1).drop_last() =~= full.take(done));
                assert(full.take(done + 1).last() == full[done]);
            }
            if v0.len() > 1 {
                kept.push((s0, v0));
                proof {
                    assert(groups_view(kept@) =~= spec_retain_multi(full.take(done)).push(
                        full[done]));
                }
            }
            proof {
                done = done + 1;
            }
        }
        proof {
            assert(full.take(full.len() as int) =~= full);
        }
        self.meas = kept;
    }
}

/// The groups that keep more than one frequency band, in order.
pub open spec fn spec_retain_multi(g: Seq<(GnssSatellite, Seq<CarrierMeas>)>)
    -> Seq<(GnssSatellite, Seq<CarrierMeas>)>
    decreases g.len(),
{
    if g.len() == 0 {
        Seq::empty()
    } else {
        let rest = spec_retain_multi(g.drop_last());
        if g.last().1.len() > 1 {
            rest.push(g.last())
        } else {
            rest
        }
    }
}

impl View for UbxRxmRawx {
    type V = (GpsTime, RecvStat, u8, Seq<(GnssSatellite, Seq<CarrierMeas>)>);

    open spec fn view(&self) -> (GpsTime, RecvStat, u8, Seq<(GnssSatellite,
        Seq<CarrierMeas>)>) {
        (self.timestamp, self.receiver_status, self.version, groups_view(self.meas@))
    }
}

impl UbxFormat for UbxRxmRawx {
    fn from_message(message: UbxMessage) -> Result<Self, &'static str> {
        UbxRxmRawx::from_message(message)
    }
}

/// Whether some group carries the satellite `k`.
pub open spec fn has_key(g: Seq<(GnssSatellite, Seq<CarrierMeas>)>, k: GnssSatellite) -> bool {
    exists|i: int| 0 <= i < g.len() && (#[trigger] g[i]).0 == k
}

/// The invariant of a group list: each satellite appears at most once,
/// and no group is empty.
pub open spec fn rawx_groups_wf(g: Seq<(GnssSatellite, Seq<CarrierMeas>)>) -> bool {
    &&& forall|i: int, j: int|
        0 <= i < j < g.len() ==> (#[trigger] g[i]).0 != (#[trigger] g[j]).0
    &&& forall|i: int| 0 <= i < g.len() ==> (#[trigger] g[i]).1.len() >= 1
}

proof fn lemma_insert_meas_wf(g: Seq<(GnssSatellite, Seq<CarrierMeas>)>, sat: GnssSatellite,
    m: CarrierMeas)
    requires
        rawx_groups_wf(g),
    ensures
        rawx_groups_wf(spec_insert_meas(g, sat, m)),
        forall|k: GnssSatellite|
            #[trigger] has_key(spec_insert_meas(g, sat, m), k) <==> (has_key(g, k) || k == sat),
    decreases g.len(),
{
    let r = spec_insert_meas(g, sat, m);
    if g.len() == 0 {
        assert(r[0].0 == sat);
        assert forall|k: GnssSatellite| #[trigger] has_key(r, k) <==> (has_key(g, k) || k
            == sat) by {
            if k == sat {
                assert(r[0].0 == k);
            }
            if has_key(r, k) {
                let i = choose|i: int| 0 <= i < r.len() && (#[trigger] r[i]).0 == k;
                assert(i == 0);
            }
        }
    } else if g[0].0 == sat {
        assert(r.len() == g.len());
        assert(forall|i: int| 0 <= i < r.len() ==> (#[trigger] r[i]).0 == g[i].0);
        assert(forall|i: int| 1 <= i < r.len() ==> (#[trigger] r[i]).1 == g[i].1);
        assert(r[0].1.len() >= 1);
        assert forall|k: GnssSatellite| #[trigger] has_key(r, k) <==> (has_key(g, k) || k
            == sat) by {
            if has_key(r, k) {
                let i = choose|i: int| 0 <= i < r.len() && (#[trigger] r[i]).0 == k;
                assert(g[i].0 == k);
            }
            if has_key(g, k) {
                let i = choose|i: int| 0 <= i < g.len() && (#[trigger] g[i]).0 == k;
                assert(r[i].0 == k);
            }
            if k == sat {
                assert(r[0].0 == k);
            }
        }
    } else {
        let gd = g.drop_first();
        assert(rawx_groups_wf(gd)) by {
            assert(forall|i: int| 0 <= i < gd.len() ==> #[trigger] gd[i] == g[i + 1]);
        }
        lemma_insert_meas_wf(gd, sat, m);
        let rr = spec_insert_meas(gd, sat, m);
        assert(r == seq![g[0]] + rr);
        assert(r[0] == g[0]);
        assert(forall|i: int| 1 <= i < r.len() ==> #[trigger] r[i] == rr[i - 1]);
        assert forall|i: int, j: int| 0 <= i < j < r.len() implies (#[trigger] r[i]).0 != (
        #[trigger] r[j]).0 by {
            if i == 0 {
                assert(r[j] == rr[j - 1]);
                assert(has_key(rr, rr[j - 1].0));
                if rr[j - 1].0 == sat {
                } else {
                    assert(has_key(gd, rr[j - 1].0));
                    let w = choose|w: int| 0 <= w < gd.len() && (#[trigger] gd[w]).0 == rr[
                        j - 1].0;
                    assert(g[w + 1].0 == rr[j - 1].0);
                }
            } else {
                assert(r[i] == rr[i - 1] && r[j] == rr[j - 1]);
            }
        }
        assert forall|k: GnssSatellite| #[trigger] has_key(r, k) <==> (has_key(g, k) || k
            == sat) by {
            if has_key(r, k) {
                let i = choose|i: int| 0 <= i < r.len() && (#[trigger] r[i]).0 == k;
                if i == 0 {
                    assert(g[0].0 == k);
                } else {
                    assert(rr[i - 1].0 == k);
                    assert(has_key(rr, k));
                    if k != sat {
                        assert(has_key(gd, k));
                        let w = choose|w: int| 0 <= w < gd.len() && (#[trigger] gd[w]).0 == k;
                        assert(g[w + 1].0 == k);
                    }
                }
            }
            if has_key(g, k) {
                let i = choose|i: int| 0 <= i < g.len() && (#[trigger] g[i]).0 == k;
                if i == 0 {
                    assert(r[0].0 == k);
                } else {
                    assert(gd[i - 1].0 == k);
                    assert(has_key(gd, k));
                    assert(has_key(rr, k));
                    let w = choose|w: int| 0 <= w < rr.len() && (#[trigger] rr[w]).0 == k;
                    assert(r[w + 1].0 == k);
                }
            }
            if k == sat {
                assert(has_key(rr, k));
                let w = choose|w: int| 0 <= w < rr.len() && (#[trigger] rr[w]).0 == k;
                assert(r[w + 1].0 == k);
            }
        }
    }
}

proof fn lemma_groups_wf(s: Seq<u8>, n: int)
    ensures
        rawx_groups_wf(spec_groups(s, n)),
    decreases n,
{
    if n <= 0 {
    } else {
        lemma_groups_wf(s, n - 1);
        let g = spec_groups(s, n - 1);
        let base = 16 + 32 * (n - 1);
        match spec_parse_sat_ids(s[base + 20], s[base + 21], s[base + 22], s[base + 23] as i8) {
            Ok(sf) => {
                lemma_insert_meas_wf(g, sf.0, spec_meas_at(s, base, sf.1));
            },
            Err(_) => {
            },
        }
    }
}

/// Law: the group list that RXM-RAWX decoding yields is well formed
/// (each satellite appears once, no group is empty) and every group is
/// sorted by carrier frequency descending.  The ordering is load
/// bearing: the TEC estimator reads a group's first two entries as its
/// highest-frequency pair.
pub proof fn lemma_rawx_meas_wf(class: u8, id: u8, p: Seq<u8>)
    ensures
        match spec_rawx(class, id, p) {
            Ok(v) => rawx_groups_wf(v.3) && forall|i: int|
                0 <= i < v.3.len() ==> sorted_by_freq_desc((#[trigger] v.3[i]).1),
            Err(_) => true,
        },
{
    match spec_rawx(class, id, p) {
        Ok(v) => {
            let n = (p.len() - 16) / 32;
            let g = spec_groups(p, n);
            lemma_groups_wf(p, n);
            let sg = spec_sort_groups(g);
            assert(sg.len() == g.len());
            assert forall|i: int| 0 <= i < sg.len() implies (#[trigger] sg[i]).0 == g[i].0
                && sg[i].1 == spec_sort_meas(g[i].1) by {}
            assert forall|i: int| 0 <= i < sg.len() implies (#[trigger] sg[i]).1.len() >= 1
                && sorted_by_freq_desc(sg[i].1) by {
                lemma_sort_meas_props(g[i].1);
            }
            assert(rawx_groups_wf(sg));
        },
        Err(_) => {
        },
    }
}

} // verus!
