//! Fusion of the NMEA position fix with the RXM-RAWX measurements.
//!
//! The fused object joins the fix with the per-satellite measurement
//! groups: each satellite of the measurement record is annotated with
//! its elevation and azimuth from the fix's sky view, defaulting to
//! `(-1, 0)` when the satellite is tracked but not in the GSV set.

use vstd::prelude::*;
use crate::gnss::GnssSatellite;
use crate::nmea::{Coord, Dec, NmeaGpsInfo, NmeaInfoV, UtcTime};
use crate::rawx::{groups_view, CarrierMeas, RecvStat, UbxRxmRawx};

verus! {

/// Per-satellite sky geometry and measurements.
#[derive(Debug)]
pub struct SatPathInfo {
    /// Satellite elevation angle (degrees); `-1` when unknown.
    pub elevation: i8,
    /// Satellite azimuth (degrees).
    pub azimuth: u16,
    /// Pseudo-range and carrier phase measurements, sorted by carrier
    /// frequency descending.
    pub meas: Vec<CarrierMeas>,
}

/// The view of a [`SatPathInfo`].
pub struct SatPathV {
    /// Satellite elevation angle (degrees); `-1` when unknown.
    pub elevation: i8,
    /// Satellite azimuth (degrees).
    pub azimuth: u16,
    /// The measurements, sorted by carrier frequency descending.
    pub meas: Seq<CarrierMeas>,
}

impl View for SatPathInfo {
    type V = SatPathV;

    open spec fn view(&self) -> SatPathV {
        SatPathV { elevation: self.elevation, azimuth: self.azimuth, meas: self.meas@ }
    }
}

/// The sky position of a satellite in the view list, `(-1, 0)` when it
/// has none.
pub open spec fn spec_sv_lookup(views: Seq<(GnssSatellite, (i8, u16))>, sat: GnssSatellite)
    -> (i8, u16)
    decreases views.len(),
{
    if views.len() == 0 {
        (-1i8, 0u16)
    } else if views[0].0 == sat {
        views[0].1
    } else {
        spec_sv_lookup(views.drop_first(), sat)
    }
}

proof fn lemma_sv_lookup_found(views: Seq<(GnssSatellite, (i8, u16))>, sat: GnssSatellite,
    idx: int)
    requires
        0 <= idx < views.len(),
        views[idx].0 == sat,
        forall|j: int| 0 <= j < idx ==> (#[trigger] views[j]).0 != sat,
    ensures
        spec_sv_lookup(views, sat) == views[idx].1,
    decreases idx,
{
    if idx > 0 {
        lemma_sv_lookup_found(views.drop_first(), sat, idx - 1);
        assert(views.drop_first()[idx - 1] == views[idx]);
    }
}

proof fn lemma_sv_lookup_absent(views: Seq<(GnssSatellite, (i8, u16))>, sat: GnssSatellite)
    requires
        forall|j: int| 0 <= j < views.len() ==> (#[trigger] views[j]).0 != sat,
    ensures
        spec_sv_lookup(views, sat) == (-1i8, 0u16),
    decreases views.len(),
{
    if views.len() > 0 {
        lemma_sv_lookup_absent(views.drop_first(), sat);
    }
}

/// Look up the sky position of a satellite, `(-1, 0)` when absent.
fn sv_lookup(views: &Vec<(GnssSatellite, (i8, u16))>, sat: GnssSatellite) -> (r: (i8, u16))
    ensures
        r == spec_sv_lookup(views@, sat),
{
    let mut i: usize = 0;
    let n = views.len();
    while i < n
        invariant
            i <= n == views@.len(),
            forall|j: int| 0 <= j < i ==> (#[trigger] views@[j]).0 != sat,
        decreases n - i,
    {
        if views[i].0 == sat {
            proof {
                lemma_sv_lookup_found(views@, sat, i as int);
            }
            return views[i].1;
        }
        i = i + 1;
    }
    proof {
        lemma_sv_lookup_absent(views@, sat);
    }
    (-1, 0)
}

/// Each measurement group annotated with its satellite's sky position.
pub open spec fn spec_fuse(views: Seq<(GnssSatellite, (i8, u16))>,
    groups: Seq<(GnssSatellite, Seq<CarrierMeas>)>) -> Seq<(GnssSatellite, SatPathV)> {
    groups.map_values(|e: (GnssSatellite, Seq<CarrierMeas>)| (e.0, SatPathV {
        elevation: spec_sv_lookup(views, e.0).0,
        azimuth: spec_sv_lookup(views, e.0).1,
        meas: e.1,
    }))
}

/// The view of a [`UbxGpsInfo`].
pub struct UbxInfoV {
    /// Timestamp of the fix.
    pub timestamp: UtcTime,
    /// Location of the fix: latitude, longitude, altitude.
    pub loc: (Coord, Coord, Dec),
    /// Altitude above mean sea level.
    pub msl: Dec,
    /// True heading in degrees.
    pub true_heading: Dec,
    /// Magnetic heading in degrees.
    pub mag_heading: Dec,
    /// Ground speed in km/h.
    pub ground_speed: Dec,
    /// Quality of the fix.
    pub quality: u8,
    /// Horizontal dilution of precision.
    pub hdop: Dec,
    /// Vertical dilution of precision.
    pub vdop: Dec,
    /// Position dilution of precision.
    pub pdop: Dec,
    /// Sky geometry and measurements per satellite.
    pub meas: Seq<(GnssSatellite, SatPathV)>,
    /// Receiver status, when a measurement record was fused in.
    pub receiver_status: Option<RecvStat>,
}

/// What fusing a fix with an optional measurement record yields: the
/// fix's fields carried over, each measurement group annotated with its
/// satellite's sky position, and the record's receiver status.
pub open spec fn spec_new_info(nmea: NmeaInfoV,
    rxm: Option<(crate::rawx::GpsTime, RecvStat, u8, Seq<(GnssSatellite, Seq<CarrierMeas>)>)>)
    -> UbxInfoV {
    UbxInfoV {
        timestamp: nmea.time,
        loc: nmea.loc,
        msl: nmea.msl,
        true_heading: nmea.true_heading,
        mag_heading: nmea.mag_heading,
        ground_speed: nmea.ground_speed,
        quality: nmea.quality,
        hdop: nmea.hdop,
        vdop: nmea.vdop,
        pdop: nmea.pdop,
        meas: match rxm {
            Some(x) => spec_fuse(nmea.sat_views, x.3),
            None => Seq::empty(),
        },
        receiver_status: match rxm {
            Some(x) => Some(x.1),
            None => None,
        },
    }
}

/// The combined position fix and carrier-phase measurements.
#[derive(Debug)]
pub struct UbxGpsInfo {
    /// Timestamp of the fix.
    pub timestamp: UtcTime,
    loc: (Coord, Coord, Dec),
    msl: Dec,
    true_heading: Dec,
    mag_heading: Dec,
    ground_speed: Dec,
    quality: u8,
    hdop: Dec,
    vdop: Dec,
    pdop: Dec,
    meas: Vec<(GnssSatellite, SatPathInfo)>,
    receiver_status: Option<RecvStat>,
}

impl View for UbxGpsInfo {
    type V = UbxInfoV;

    closed spec fn view(&self) -> UbxInfoV {
        UbxInfoV {
            timestamp: self.timestamp,
            loc: self.loc,
            msl: self.msl,
            true_heading: self.true_heading,
            mag_heading: self.mag_heading,
            ground_speed: self.ground_speed,
            quality: self.quality,
            hdop: self.hdop,
            vdop: self.vdop,
            pdop: self.pdop,
            meas: self.meas@.map_values(|e: (GnssSatellite, SatPathInfo)| (e.0, e.1@)),
            receiver_status: self.receiver_status,
        }
    }
}

impl UbxGpsInfo {
    /// Fuse a position fix with an optional measurement record.
    pub fn new(nmea: NmeaGpsInfo, rxm: Option<UbxRxmRawx>) -> (r: Self)
        ensures
            r@ == spec_new_info(nmea@, match rxm {
                Some(x) => Some((x.timestamp, x.receiver_status, x.version, groups_view(
                    x.meas@))),
                None => None,
            }),
    {
        let mut meas: Vec<(GnssSatellite, SatPathInfo)> = Vec::new();
        let mut recv_stat: Option<RecvStat> = None;
        match rxm {
            Some(x) => {
                let ghost gfull = groups_view(x.meas@);
                let ghost views = nmea@.sat_views;
                let mut groups = x.meas;
                let ghost mut done: int = 0;
                while groups.len() > 0
                    invariant
                        0 <= done <= gfull.len(),
                        done + groups@.len() == gfull.len(),
                        groups_view(groups@) == gfull.skip(done),
                        views == nmea@.sat_views,
                        meas@.map_values(|e: (GnssSatellite, SatPathInfo)| (e.0, e.1@))
                            == spec_fuse(views, gfull.take(done)),
                    decreases groups@.len(),
                {
                    let ghost gs = groups_view(groups@);
                    let pair = groups.remove(0);
                    let (sat, v) = pair;
                    let ea = sv_lookup(&nmea.sat_views, sat);
                    let ghost vseq = v@;
                    meas.push((sat, SatPathInfo { elevation: ea.0, azimuth: ea.1, meas: v }));
                    proof {
                        assert(gs[0] == gfull[done]);
                        assert(groups_view(groups@) =~= gs.drop_first());
                        assert(gs.drop_first() =~= gfull.skip(done + 1));
                        assert(sat == gfull[done].0 && vseq == gfull[done].1);
                        assert(done + 1 <= gfull.len());
                        assert(gfull.take(done).len() == done);
                        assert(spec_fuse(views, gfull.take(done)).len() == done);
                        let m2 = meas@.map_values(|e: (GnssSatellite, SatPathInfo)| (e.0,
                            e.1@));
                        let f2 = spec_fuse(views, gfull.take(done + 1));
                        assert(m2.len() == f2.len());
                        assert forall|i: int| 0 <= i < m2.len() implies m2[i] == f2[i] by {
                            if i < done {
                                assert(m2[i] == spec_fuse(views, gfull.take(done))[i]);
                                assert(gfull.take(done + 1)[i] == gfull.take(done)[i]);
                            } else {
                                assert(gfull.take(done + 1)[i] == gfull[done]);
                            }
                        }
                        assert(m2 =~= f2);
                        done = done + 1;
                    }
                }
                recv_stat = Some(x.receiver_status);
                proof {
                    assert(gfull.take(gfull.len() as int) =~= gfull);
                }
            },
            None => {
                proof {
                    assert(meas@.map_values(|e: (GnssSatellite, SatPathInfo)| (e.0, e.1@))
                        =~= Seq::<(GnssSatellite, SatPathV)>::empty());
                }
            },
        }
        UbxGpsInfo {
            timestamp: nmea.time,
            loc: nmea.loc,
            msl: nmea.msl,
            true_heading: nmea.true_heading,
            mag_heading: nmea.mag_heading,
            ground_speed: nmea.ground_speed,
            quality: nmea.quality,
            hdop: nmea.hdop,
            vdop: nmea.vdop,
            pdop: nmea.pdop,
            meas,
            receiver_status: recv_stat,
        }
    }

    /// The timestamp of the fix.
    pub fn timestamp(&self) -> (r: UtcTime)
        ensures
            r == self@.timestamp,
    {
        self.timestamp
    }

    /// The location of the fix: latitude, longitude, altitude.
    pub fn location(&self) -> (r: (Coord, Coord, Dec))
        ensures
            r == self@.loc,
    {
        self.loc
    }

    /// The altitude above mean sea level.
    pub fn msl(&self) -> (r: Dec)
        ensures
            r == self@.msl,
    {
        self.msl
    }

    /// The true heading in degrees.
    pub fn true_heading(&self) -> (r: Dec)
        ensures
            r == self@.true_heading,
    {
        self.true_heading
    }

    /// The magnetic heading in degrees.
    pub fn mag_heading(&self) -> (r: Dec)
        ensures
            r == self@.mag_heading,
    {
        self.mag_heading
    }

    /// The ground speed in km/h.
    pub fn ground_speed(&self) -> (r: Dec)
        ensures
            r == self@.ground_speed,
    {
        self.ground_speed
    }

    /// The quality of the fix.
    pub fn quality(&self) -> (r: u8)
        ensures
            r == self@.quality,
    {
        self.quality
    }

    /// The horizontal dilution of precision.
    pub fn hdop(&self) -> (r: Dec)
        ensures
            r == self@.hdop,
    {
        self.hdop
    }

    /// The vertical dilution of precision.
    pub fn vdop(&self) -> (r: Dec)
        ensures
            r == self@.vdop,
    {
        self.vdop
    }

    /// The position dilution of precision.
    pub fn pdop(&self) -> (r: Dec)
        ensures
            r == self@.pdop,
    {
        self.pdop
    }

    /// The receiver status, when a measurement record was fused in.
    pub fn receiver_status(&self) -> (r: Option<RecvStat>)
        ensures
            r == self@.receiver_status,
    {
        self.receiver_status
    }

    /// The per-satellite sky geometry and measurements.
    pub fn carrier_phase(&self) -> (r: &Vec<(GnssSatellite, SatPathInfo)>)
        ensures
            r@.map_values(|e: (GnssSatellite, SatPathInfo)| (e.0, e.1@)) == self@.meas,
    {
        &self.meas
    }

    /// Take the per-satellite measurements out, leaving none behind.
    pub fn remove_carrier_phase(&mut self) -> (r: Vec<(GnssSatellite, SatPathInfo)>)
        ensures
            r@.map_values(|e: (GnssSatellite, SatPathInfo)| (e.0, e.1@)) == old(self)@.meas,
            final(self)@.meas == Seq::<(GnssSatellite, SatPathV)>::empty(),
            final(self)@.timestamp == old(self)@.timestamp,
            final(self)@.loc == old(self)@.loc,
            final(self)@.receiver_status == old(self)@.receiver_status,
    {
        let mut out: Vec<(GnssSatellite, SatPathInfo)> = Vec::new();
        core::mem::swap(&mut out, &mut self.meas);
        proof {
            assert(self.meas@.map_values(|e: (GnssSatellite, SatPathInfo)| (e.0, e.1@))
                =~= Seq::<(GnssSatellite, SatPathV)>::empty());
        }
        out
    }
}

} // verus!
