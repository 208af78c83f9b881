//! Signal-channel taxonomy and the channel-to-carrier-frequency table.
//!
//! Carrier frequencies are exact integers in Hz: every documented GNSS
//! carrier, including the Glonass FDMA offsets of 562.5 kHz and 437.5 kHz
//! per slot, is a whole number of Hz.

use vstd::prelude::*;
use crate::gnss::GnssSatellite;

verus! {

/// A GNSS frequency channel.
#[derive(Debug, Copy, Clone, PartialEq, Eq, Structural, Hash)]
pub enum GnssFreq {
    /// GPS frequency channel
    Gps(GpsFreq),
    /// Galileo frequency channel
    Galileo(GalileoFreq),
    /// Beidou frequency channel
    Beidou(BeidouFreq),
    /// Glonass frequency channel
    Glonass(GlonassFreq),
    /// QZSS frequency channel
    Qzss(QzssFreq),
}

/// GPS frequency channels.
#[derive(Debug, Copy, Clone, PartialEq, Eq, Structural, Hash)]
pub enum GpsFreq {
    /// GPS L1 C/A frequency
    L1CA,
    /// GPS L2C-L frequency
    L2CL,
    /// GPS L2C-M frequency
    L2CM,
    /// GPS L5 frequency
    L5,
}

/// Galileo frequency channels.
#[derive(Debug, Copy, Clone, PartialEq, Eq, Structural, Hash)]
pub enum GalileoFreq {
    /// Galileo E1C frequency
    E1C,
    /// Galileo E1B frequency
    E1B,
    /// Galileo E5a-I frequency
    E5aI,
    /// Galileo E5a-Q frequency
    E5aQ,
    /// Galileo E5b-I frequency
    E5bI,
    /// Galileo E5b-Q frequency
    E5bQ,
}

/// Beidou frequency channels.
#[derive(Debug, Copy, Clone, PartialEq, Eq, Structural, Hash)]
#[allow(non_camel_case_types)]
pub enum BeidouFreq {
    /// Beidou B1I D1 frequency
    B1I_D1,
    /// Beidou B1I D2 frequency
    B1I_D2,
    /// Beidou B2I D1 frequency
    B2I_D1,
    /// Beidou B2I D2 frequency
    B2I_D2,
    /// Beidou B2A frequency
    B2A,
}

/// Glonass frequency channels; the payload is the FDMA slot `k`.
#[derive(Debug, Copy, Clone, PartialEq, Eq, Structural, Hash)]
pub enum GlonassFreq {
    /// Glonass L1OF frequency (Channel: -7 to 6)
    L1OF(i8),
    /// Glonass L2OF frequency (Channel: -7 to 6)
    L2OF(i8),
}

/// QZSS frequency channels.
#[derive(Debug, Copy, Clone, PartialEq, Eq, Structural, Hash)]
pub enum QzssFreq {
    /// QZSS L1CA frequency
    L1CA,
    /// QZSS L1S frequency
    L1S,
    /// QZSS L2CM frequency
    L2CM,
    /// QZSS L2CL frequency
    L2CL,
    /// QZSS L5 frequency
    L5,
}

/// The carrier frequency of a channel, in Hz, as a mathematical integer.
pub open spec fn spec_freq_hz(c: GnssFreq) -> int {
    match c {
        GnssFreq::Gps(f) => match f {
            GpsFreq::L1CA => 1_575_420_000,
            GpsFreq::L2CL => 1_227_600_000,
            GpsFreq::L2CM => 1_227_600_000,
            GpsFreq::L5 => 1_176_450_000,
        },
        GnssFreq::Galileo(f) => match f {
            GalileoFreq::E1C => 1_575_420_000,
            GalileoFreq::E1B => 1_575_420_000,
            GalileoFreq::E5aI => 1_176_450_000,
            GalileoFreq::E5aQ => 1_176_450_000,
            GalileoFreq::E5bI => 1_207_140_000,
            GalileoFreq::E5bQ => 1_207_140_000,
        },
        GnssFreq::Beidou(f) => match f {
            BeidouFreq::B1I_D1 => 1_561_098_000,
            BeidouFreq::B1I_D2 => 1_561_098_000,
            BeidouFreq::B2I_D1 => 1_207_140_000,
            BeidouFreq::B2I_D2 => 1_207_140_000,
            BeidouFreq::B2A => 1_176_450_000,
        },
        GnssFreq::Glonass(f) => match f {
            GlonassFreq::L1OF(k) => 1_602_000_000 + 562_500 * (k as int),
            GlonassFreq::L2OF(k) => 1_246_000_000 + 437_500 * (k as int),
        },
        GnssFreq::Qzss(f) => match f {
            QzssFreq::L1CA => 1_575_420_000,
            QzssFreq::L1S => 1_575_420_000,
            QzssFreq::L2CM => 1_227_600_000,
            QzssFreq::L2CL => 1_227_600_000,
            QzssFreq::L5 => 1_176_450_000,
        },
    }
}

impl GnssFreq {
    /// The carrier frequency of the channel in Hz.
    ///
    /// Exact for every channel: all documented GNSS carriers, including
    /// the Glonass per-slot FDMA offsets, are whole numbers of Hz.
    pub fn freq_hz(&self) -> (r: u64)
        ensures
            r == spec_freq_hz(*self),
    {
        match self {
            GnssFreq::Gps(f) => match f {
                GpsFreq::L1CA => 1_575_420_000,
                GpsFreq::L2CL => 1_227_600_000,
                GpsFreq::L2CM => 1_227_600_000,
                GpsFreq::L5 => 1_176_450_000,
            },
            GnssFreq::Galileo(f) => match f {
                GalileoFreq::E1C => 1_575_420_000,
                GalileoFreq::E1B => 1_575_420_000,
                GalileoFreq::E5aI => 1_176_450_000,
                GalileoFreq::E5aQ => 1_176_450_000,
                GalileoFreq::E5bI => 1_207_140_000,
                GalileoFreq::E5bQ => 1_207_140_000,
            },
            GnssFreq::Beidou(f) => match f {
                BeidouFreq::B1I_D1 => 1_561_098_000,
                BeidouFreq::B1I_D2 => 1_561_098_000,
                BeidouFreq::B2I_D1 => 1_207_140_000,
                BeidouFreq::B2I_D2 => 1_207_140_000,
                BeidouFreq::B2A => 1_176_450_000,
            },
            GnssFreq::Glonass(f) => {
                let (base, step, k): (i64, i64, i8) = match f {
                    GlonassFreq::L1OF(k) => (1_602_000_000, 562_500, *k),
                    GlonassFreq::L2OF(k) => (1_246_000_000, 437_500, *k),
                };
                let v: i64 = base + step * (k as i64);
                v as u64
            },
            GnssFreq::Qzss(f) => match f {
                QzssFreq::L1CA => 1_575_420_000,
                QzssFreq::L1S => 1_575_420_000,
                QzssFreq::L2CM => 1_227_600_000,
                QzssFreq::L2CL => 1_227_600_000,
                QzssFreq::L5 => 1_176_450_000,
            },
        }
    }
}

impl GpsFreq {
    /// Decode a GPS channel from the receiver-reported `sigId`.
    pub fn try_from(value: u8) -> (r: Result<Self, &'static str>)
        ensures
            r == spec_gps_sig(value),
    {
        match value {
            0 => Ok(GpsFreq::L1CA),
            3 => Ok(GpsFreq::L2CL),
            4 => Ok(GpsFreq::L2CM),
            6 | 7 => Ok(GpsFreq::L5),
            _ => Err("Invalid GPS frequency ID"),
        }
    }
}

/// The documented GPS `sigId` table.
pub open spec fn spec_gps_sig(value: u8) -> Result<GpsFreq, &'static str> {
    match value {
        0 => Ok(GpsFreq::L1CA),
        3 => Ok(GpsFreq::L2CL),
        4 => Ok(GpsFreq::L2CM),
        6 | 7 => Ok(GpsFreq::L5),
        _ => Err("Invalid GPS frequency ID"),
    }
}

impl GalileoFreq {
    /// Decode a Galileo channel from the receiver-reported `sigId`.
    pub fn try_from(value: u8) -> (r: Result<Self, &'static str>)
        ensures
            r == spec_galileo_sig(value),
    {
        match value {
            0 => Ok(GalileoFreq::E1C),
            1 => Ok(GalileoFreq::E1B),
            3 => Ok(GalileoFreq::E5aI),
            4 => Ok(GalileoFreq::E5aQ),
            5 => Ok(GalileoFreq::E5bI),
            6 => Ok(GalileoFreq::E5bQ),
            _ => Err("Invalid Galileo frequency ID"),
        }
    }
}

/// The documented Galileo `sigId` table.
pub open spec fn spec_galileo_sig(value: u8) -> Result<GalileoFreq, &'static str> {
    match value {
        0 => Ok(GalileoFreq::E1C),
        1 => Ok(GalileoFreq::E1B),
        3 => Ok(GalileoFreq::E5aI),
        4 => Ok(GalileoFreq::E5aQ),
        5 => Ok(GalileoFreq::E5bI),
        6 => Ok(GalileoFreq::E5bQ),
        _ => Err("Invalid Galileo frequency ID"),
    }
}

impl BeidouFreq {
    /// Decode a Beidou channel from the receiver-reported `sigId`.
    pub fn try_from(value: u8) -> (r: Result<Self, &'static str>)
        ensures
            r == spec_beidou_sig(value),
    {
        match value {
            0 => Ok(BeidouFreq::B1I_D1),
            1 => Ok(BeidouFreq::B1I_D2),
            2 => Ok(BeidouFreq::B2I_D1),
            3 => Ok(BeidouFreq::B2I_D2),
            7 => Ok(BeidouFreq::B2A),
            _ => Err("Invalid Beidou frequency ID"),
        }
    }
}

/// The documented Beidou `sigId` table.
pub open spec fn spec_beidou_sig(value: u8) -> Result<BeidouFreq, &'static str> {
    match value {
        0 => Ok(BeidouFreq::B1I_D1),
        1 => Ok(BeidouFreq::B1I_D2),
        2 => Ok(BeidouFreq::B2I_D1),
        3 => Ok(BeidouFreq::B2I_D2),
        7 => Ok(BeidouFreq::B2A),
        _ => Err("Invalid Beidou frequency ID"),
    }
}

impl GlonassFreq {
    /// Decode a Glonass channel from the receiver-reported `sigId` and
    /// FDMA slot.  The slot byte comes off the wire as two's complement.
    pub fn try_from(value: (u8, i8)) -> (r: Result<Self, &'static str>)
        ensures
            r == spec_glonass_sig(value.0, value.1),
    {
        let (sig, channel): (u8, i8) = value;
        match sig {
            0 => Ok(GlonassFreq::L1OF(channel)),
            2 => Ok(GlonassFreq::L2OF(channel)),
            _ => Err("Invalid Glonass frequency ID"),
        }
    }
}

/// The documented Glonass `sigId` table.
pub open spec fn spec_glonass_sig(value: u8, channel: i8) -> Result<GlonassFreq, &'static str> {
    match value {
        0 => Ok(GlonassFreq::L1OF(channel)),
        2 => Ok(GlonassFreq::L2OF(channel)),
        _ => Err("Invalid Glonass frequency ID"),
    }
}

impl QzssFreq {
    /// Decode a QZSS channel from the receiver-reported `sigId`.
    pub fn try_from(value: u8) -> (r: Result<Self, &'static str>)
        ensures
            r == spec_qzss_sig(value),
    {
        match value {
            0 => Ok(QzssFreq::L1CA),
            1 => Ok(QzssFreq::L1S),
            4 => Ok(QzssFreq::L2CM),
            5 => Ok(QzssFreq::L2CL),
            7 | 8 => Ok(QzssFreq::L5),
            _ => Err("Invalid QZSS frequency ID"),
        }
    }
}

/// The documented QZSS `sigId` table.
pub open spec fn spec_qzss_sig(value: u8) -> Result<QzssFreq, &'static str> {
    match value {
        0 => Ok(QzssFreq::L1CA),
        1 => Ok(QzssFreq::L1S),
        4 => Ok(QzssFreq::L2CM),
        5 => Ok(QzssFreq::L2CL),
        7 | 8 => Ok(QzssFreq::L5),
        _ => Err("Invalid QZSS frequency ID"),
    }
}

/// What a full `(gnssId, svId, sigId, freqSlot)` tuple decodes to:
/// the satellite and its signal channel, or a taxonomy error naming the
/// component that is unknown.
pub open spec fn spec_parse_sat_ids(gnss_id: u8, sat_id: u8, sig_id: u8, glonass: i8)
    -> Result<(GnssSatellite, GnssFreq), &'static str> {
    if !crate::gnss::ubx_gnss_id_known(gnss_id) {
        Err("Invalid GNSS constellation ID")
    } else {
        let sat = crate::gnss::spec_from_ubx(gnss_id, sat_id);
        match sat {
            GnssSatellite::Gps(_) | GnssSatellite::Sbas(_) => match spec_gps_sig(sig_id) {
                Ok(f) => Ok((sat, GnssFreq::Gps(f))),
                Err(e) => Err(e),
            },
            GnssSatellite::Galileo(_) => match spec_galileo_sig(sig_id) {
                Ok(f) => Ok((sat, GnssFreq::Galileo(f))),
                Err(e) => Err(e),
            },
            GnssSatellite::Beidou(_) => match spec_beidou_sig(sig_id) {
                Ok(f) => Ok((sat, GnssFreq::Beidou(f))),
                Err(e) => Err(e),
            },
            GnssSatellite::Qzss(_) => match spec_qzss_sig(sig_id) {
                Ok(f) => Ok((sat, GnssFreq::Qzss(f))),
                Err(e) => Err(e),
            },
            GnssSatellite::Glonass(_) => match spec_glonass_sig(sig_id, glonass) {
                Ok(f) => Ok((sat, GnssFreq::Glonass(f))),
                Err(e) => Err(e),
            },
        }
    }
}

/// Decode a receiver-reported `(gnssId, svId, sigId, freqSlot)` tuple into
/// a satellite and its signal channel.
///
/// Unknown constellation or `sigId` values are a per-measurement error;
/// the caller drops the measurement and continues.
pub fn parse_sat_ids(gnss_id: u8, sat_id: u8, sig_id: u8, glonass: i8)
    -> (r: Result<(GnssSatellite, GnssFreq), &'static str>)
    ensures
        r == spec_parse_sat_ids(gnss_id, sat_id, sig_id, glonass),
{
    if !(gnss_id == 0 || gnss_id == 1 || gnss_id == 2 || gnss_id == 3 || gnss_id == 5
        || gnss_id == 6) {
        return Err("Invalid GNSS constellation ID");
    }
    let sat = GnssSatellite::from_ubx(gnss_id, sat_id);
    match sat {
        GnssSatellite::Gps(_) | GnssSatellite::Sbas(_) => match GpsFreq::try_from(sig_id) {
            Ok(f) => Ok((sat, GnssFreq::Gps(f))),
            Err(e) => Err(e),
        },
        GnssSatellite::Galileo(_) => match GalileoFreq::try_from(sig_id) {
            Ok(f) => Ok((sat, GnssFreq::Galileo(f))),
            Err(e) => Err(e),
        },
        GnssSatellite::Beidou(_) => match BeidouFreq::try_from(sig_id) {
            Ok(f) => Ok((sat, GnssFreq::Beidou(f))),
            Err(e) => Err(e),
        },
        GnssSatellite::Qzss(_) => match QzssFreq::try_from(sig_id) {
            Ok(f) => Ok((sat, GnssFreq::Qzss(f))),
            Err(e) => Err(e),
        },
        GnssSatellite::Glonass(_) => match GlonassFreq::try_from((sig_id, glonass)) {
            Ok(f) => Ok((sat, GnssFreq::Glonass(f))),
            Err(e) => Err(e),
        },
    }
}

} // verus!
