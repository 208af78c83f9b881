//! The closed satellite taxonomy.

use vstd::prelude::*;

verus! {

/// A GNSS satellite, tagged by constellation and carrying the
/// constellation-local PRN.
///
/// The carried integer is always normalized: decoding from an NMEA
/// satellite-in-view number subtracts the Glonass bias of 64 so that the
/// stored value is the constellation-local PRN.
#[derive(Debug, Copy, Clone, PartialEq, Eq, Structural, Hash)]
pub enum GnssSatellite {
    /// A GPS satellite (ID: 0 - 32)
    Gps(u8),
    /// A SBAS satellite (ID: 120 - 158)
    Sbas(u8),
    /// A Galileo satellite (ID: 1 - 36)
    Galileo(u8),
    /// A Beidou satellite (ID: 1 - 37)
    Beidou(u8),
    /// A QZSS satellite (ID: 1-5)
    Qzss(u8),
    /// A Glonass satellite (ID: 1 - 32)
    Glonass(u8),
}

/// The rank of a satellite's constellation in the fixed total order used
/// to sort TEC output: GPS, SBAS, Galileo, Beidou, QZSS, Glonass.
pub open spec fn constellation_rank(s: GnssSatellite) -> int {
    match s {
        GnssSatellite::Gps(_) => 0,
        GnssSatellite::Sbas(_) => 1,
        GnssSatellite::Galileo(_) => 2,
        GnssSatellite::Beidou(_) => 3,
        GnssSatellite::Qzss(_) => 4,
        GnssSatellite::Glonass(_) => 5,
    }
}

/// The PRN carried by a satellite value.
pub open spec fn sat_prn(s: GnssSatellite) -> u8 {
    match s {
        GnssSatellite::Gps(p) => p,
        GnssSatellite::Sbas(p) => p,
        GnssSatellite::Galileo(p) => p,
        GnssSatellite::Beidou(p) => p,
        GnssSatellite::Qzss(p) => p,
        GnssSatellite::Glonass(p) => p,
    }
}

/// The key of the fixed total order over satellites: constellation rank
/// first, then PRN.  Distinct satellites have distinct keys.
pub open spec fn sat_key(s: GnssSatellite) -> int {
    constellation_rank(s) * 256 + sat_prn(s)
}

/// Proof that the order key separates distinct satellites.
pub proof fn lemma_sat_key_injective(a: GnssSatellite, b: GnssSatellite)
    ensures
        sat_key(a) == sat_key(b) ==> a == b,
{
}

impl GnssSatellite {
    /// The order key, computed executably; agrees with [`sat_key`].
    pub fn order_key(&self) -> (r: u16)
        ensures
            r == sat_key(*self),
    {
        match self {
            GnssSatellite::Gps(p) => *p as u16,
            GnssSatellite::Sbas(p) => 256 + *p as u16,
            GnssSatellite::Galileo(p) => 512 + *p as u16,
            GnssSatellite::Beidou(p) => 768 + *p as u16,
            GnssSatellite::Qzss(p) => 1024 + *p as u16,
            GnssSatellite::Glonass(p) => 1280 + *p as u16,
        }
    }

    /// Decode a satellite from an NMEA talker prefix and satellite-in-view
    /// number.  The Glonass SVID is biased by 64 on the wire; it is
    /// subtracted here so that the stored PRN is constellation-local.
    ///
    /// Only the six documented talker prefixes are accepted, and a Glonass
    /// SVID below the bias is excluded, since no normalized PRN exists
    /// for it.
    pub fn from_nmea_svid(cls: &[u8], svid: u8) -> (r: Self)
        requires
            nmea_talker_known(cls@),
            cls@[1] == 76 ==> svid >= 64,
        ensures
            r == spec_from_nmea_svid(cls@, svid),
    {
        if cls[0] == 71 && cls[1] == 80 {
            GnssSatellite::Gps(svid)
        } else if cls[0] == 71 && cls[1] == 66 {
            GnssSatellite::Beidou(svid)
        } else if cls[0] == 71 && cls[1] == 65 {
            GnssSatellite::Galileo(svid)
        } else if cls[0] == 71 && cls[1] == 76 {
            GnssSatellite::Glonass(svid - 64)
        } else if cls[0] == 71 && cls[1] == 78 {
            GnssSatellite::Sbas(svid)
        } else {
            GnssSatellite::Qzss(svid)
        }
    }

    /// Decode a satellite from the u-blox `(gnssId, svId)` pair.
    ///
    /// Only the six documented constellation identifiers are accepted.
    pub fn from_ubx(cls: u8, svid: u8) -> (r: Self)
        requires
            ubx_gnss_id_known(cls),
        ensures
            r == spec_from_ubx(cls, svid),
    {
        match cls {
            0 => GnssSatellite::Gps(svid),
            1 => GnssSatellite::Sbas(svid),
            2 => GnssSatellite::Galileo(svid),
            3 => GnssSatellite::Beidou(svid),
            5 => GnssSatellite::Qzss(svid),
            _ => GnssSatellite::Glonass(svid),
        }
    }
}

/// The NMEA talker prefixes that name a constellation.
pub open spec fn nmea_talker_known(cls: Seq<u8>) -> bool {
    cls.len() == 2 && cls[0] == 71 && (cls[1] == 80 || cls[1] == 66 || cls[1] == 65
        || cls[1] == 76 || cls[1] == 78 || cls[1] == 81)
}

/// What a talker prefix and satellite-in-view number decode to.
pub open spec fn spec_from_nmea_svid(cls: Seq<u8>, svid: u8) -> GnssSatellite
    recommends
        nmea_talker_known(cls),
        cls[1] == 76 ==> svid >= 64,
{
    if cls[1] == 80 {
        GnssSatellite::Gps(svid)
    } else if cls[1] == 66 {
        GnssSatellite::Beidou(svid)
    } else if cls[1] == 65 {
        GnssSatellite::Galileo(svid)
    } else if cls[1] == 76 {
        GnssSatellite::Glonass((svid - 64) as u8)
    } else if cls[1] == 78 {
        GnssSatellite::Sbas(svid)
    } else {
        GnssSatellite::Qzss(svid)
    }
}

/// The u-blox constellation identifiers that name a constellation.
pub open spec fn ubx_gnss_id_known(cls: u8) -> bool {
    cls == 0 || cls == 1 || cls == 2 || cls == 3 || cls == 5 || cls == 6
}

/// What a u-blox `(gnssId, svId)` pair decodes to.
pub open spec fn spec_from_ubx(cls: u8, svid: u8) -> GnssSatellite
    recommends
        ubx_gnss_id_known(cls),
{
    match cls {
        0 => GnssSatellite::Gps(svid),
        1 => GnssSatellite::Sbas(svid),
        2 => GnssSatellite::Galileo(svid),
        3 => GnssSatellite::Beidou(svid),
        5 => GnssSatellite::Qzss(svid),
        _ => GnssSatellite::Glonass(svid),
    }
}

} // verus!
