//! Decoder and TEC estimator for a dual-frequency u-blox GNSS receiver.
//!
//! The library splits a mixed byte stream into validated u-blox binary
//! frames and residual NMEA text, decodes the RXM-RAWX measurement record
//! bit-exactly, maps receiver-reported identifiers onto a closed satellite
//! and signal-channel taxonomy, joins the measurements with an NMEA
//! position fix, and derives the per-satellite dual-frequency observables
//! that a slant total-electron-content estimate is computed from.
//!
//! Quantities that the receiver reports as IEEE-754 numbers (pseudo-range,
//! carrier phase, Doppler) are carried as their bit patterns; decimal
//! fields of NMEA sentences are carried as exact scaled integers.  The
//! floating-point evaluation of the TEC combination itself is left to the
//! caller, which receives every operand exactly as it came off the wire.

use vstd::prelude::*;

pub mod frame;
pub mod freq;
pub mod fusion;
pub mod gnss;
pub mod nmea;
pub mod rawx;
pub mod read_until;
pub mod store;
pub mod tec;
pub mod uncertain;

pub use frame::{split_ubx, UbxMessage};
pub use freq::{BeidouFreq, GalileoFreq, GlonassFreq, GnssFreq, GpsFreq, QzssFreq};
pub use fusion::{SatPathInfo, UbxGpsInfo};
pub use gnss::GnssSatellite;
pub use nmea::{GpsError, NmeaGpsInfo, RawNmea};
pub use rawx::{CarrierMeas, RecvStat, TrkStat, UbxRxmRawx};
pub use read_until::ReadUntil;
pub use store::{RecorderCfg, StoreKind};
pub use tec::{TecData, TecError, TecInfo};
pub use uncertain::Uncertain;

verus! {

/// Default delimiter separating capture records in a datafile.
pub const DEFAULT_DELIM: [u8; 8] = [13, 13, 10, 10, 13, 13, 10, 10];

/// A collection of NMEA sentences grouped by kind, in first-seen order.
/// The key is the three-letter sentence kind, e.g. `GGA` or `GSA`; the
/// value holds the group's sentences in scan order.
pub type NmeaMsgGroup = Vec<([u8; 3], Vec<RawNmea>)>;

/// A GPS packet: the processed fix, the raw sentence groups, and the
/// measurement record when one was present.
#[derive(Debug)]
pub struct GpsPacket {
    /// Processed NMEA data
    pub nmea: NmeaGpsInfo,
    /// Raw NMEA data
    pub nmea_raw: NmeaMsgGroup,
    /// Raw RXM carrier data
    pub rxm: Option<UbxRxmRawx>,
}

/// Whether a byte sequence is valid UTF-8, as `str::from_utf8` decides
/// it.
pub uninterp spec fn is_utf8(s: Seq<u8>) -> bool;

/// Relies on str::from_utf8: it returns `Ok` exactly when the bytes are
/// valid UTF-8, and the error's rendering describes the first fault.
#[verifier::external_body]
fn utf8_error(v: &[u8]) -> (r: Option<String>)
    ensures
        r is None <==> is_utf8(v@),
{
    match core::str::from_utf8(v) {
        Ok(_) => None,
        Err(e) => Some(format!("{}", e)),
    }
}

/// The measurement records among a run of frames, in order: each frame
/// that decodes as RXM-RAWX contributes its decoded form.
pub open spec fn spec_rxm_list(msgs: Seq<(u8, u8, Seq<u8>)>) -> Seq<(rawx::GpsTime, RecvStat,
    u8, Seq<(GnssSatellite, Seq<CarrierMeas>)>)>
    decreases msgs.len(),
{
    if msgs.len() == 0 {
        Seq::empty()
    } else {
        let rest = spec_rxm_list(msgs.drop_last());
        match rawx::spec_rawx(msgs.last().0, msgs.last().1, msgs.last().2) {
            Ok(v) => rest.push(v),
            Err(_) => rest,
        }
    }
}

/// Decode every RXM-RAWX record among the messages, in order.
fn decode_rxm_msgs(msgs: Vec<UbxMessage>) -> (r: Vec<UbxRxmRawx>)
    ensures
        r@.map_values(|m: UbxRxmRawx| m@) == spec_rxm_list(frame::msgs_view(msgs@)),
{
    let ghost mfull = frame::msgs_view(msgs@);
    let mut msgs = msgs;
    let mut rxm: Vec<UbxRxmRawx> = Vec::new();
    let ghost mut done: int = 0;
    while msgs.len() > 0
        invariant
            0 <= done <= mfull.len(),
            done + msgs@.len() == mfull.len(),
            frame::msgs_view(msgs@) == mfull.skip(done),
            rxm@.map_values(|m: UbxRxmRawx| m@) == spec_rxm_list(mfull.take(done)),
        decreases msgs@.len(),
    {
        let ghost ms = frame::msgs_view(msgs@);
        let msg = msgs.remove(0);
        proof {
            assert(ms[0] == mfull[done]);
            assert(msg@ == ms[0]);
            assert(frame::msgs_view(msgs@) =~= ms.drop_first());
            assert(ms.drop_first() =~= mfull.skip(done + 1));
            assert(mfull.take(done + 1).drop_last() =~= mfull.take(done));
            assert(mfull.take(done + 1).last() == mfull[done]);
        }
        match UbxRxmRawx::from_message(msg) {
            Ok(m) => {
                rxm.push(m);
                proof {
                    assert(rxm@.map_values(|m2: UbxRxmRawx| m2@) =~= spec_rxm_list(mfull.take(
                        done + 1)));
                }
            },
            Err(_) => {
                proof {
                    assert(rxm@.map_values(|m2: UbxRxmRawx| m2@) =~= spec_rxm_list(mfull.take(
                        done + 1)));
                }
            },
        }
        proof {
            done = done + 1;
        }
    }
    proof {
        assert(mfull.take(mfull.len() as int) =~= mfull);
    }
    rxm
}

/// Parse a buffer holding only NMEA text into a position fix and the
/// grouped sentences.
///
/// The buffer must be valid UTF-8 and hold at least one validated ZDA
/// and GGA sentence; the fix is built as [`NmeaGpsInfo::create`] states,
/// with the sky view processed.
pub fn parse_nmea(buf: Vec<u8>) -> (r: Result<(NmeaGpsInfo, NmeaMsgGroup), GpsError>)
    ensures
        match r {
            Ok((info, g)) => is_utf8(buf@) && nmea::ngroups_view(g@) == nmea::spec_nmea_groups(
                buf@) && nmea::spec_create(nmea::spec_nmea_groups(buf@), true)
                == Ok::<nmea::NmeaInfoV, nmea::GpsErrView>(info@),
            Err(e) => if is_utf8(buf@) {
                nmea::spec_create(nmea::spec_nmea_groups(buf@), true) == Err::<nmea::NmeaInfoV,
                    nmea::GpsErrView>(e@)
            } else {
                e@ is Parse
            },
        },
{
    match utf8_error(buf.as_slice()) {
        Some(m) => {
            return Err(GpsError::ParseError(m));
        },
        None => {
        },
    }
    let groups = RawNmea::parse_str(buf.as_slice());
    match NmeaGpsInfo::create(&groups, true) {
        Ok(info) => Ok((info, groups)),
        Err(e) => Err(e),
    }
}

/// What parsing a mixed buffer yields when every step succeeds: the
/// frames are excised, the last decodable measurement record is fused
/// with the fix built from the residual text.
#[verifier::opaque]
pub open spec fn spec_msgs_ok(b: Seq<u8>) -> Option<fusion::UbxInfoV> {
    let msgs = frame::spec_split(b, 0).0;
    let residual = frame::spec_split(b, 0).1;
    let rxms = spec_rxm_list(msgs);
    if !is_utf8(residual) {
        None
    } else {
        match nmea::spec_create(nmea::spec_nmea_groups(residual), true) {
            Ok(n) => Some(fusion::spec_new_info(n, if rxms.len() > 0 {
                Some(rxms.last())
            } else {
                None
            })),
            Err(_) => None,
        }
    }
}

/// Parse a mixed buffer: excise and decode the u-blox frames, build the
/// fix from the residual NMEA text, and fuse the last decodable
/// measurement record with it.
pub fn parse_messages(buf: Vec<u8>) -> (r: Result<(UbxGpsInfo, NmeaMsgGroup), GpsError>)
    ensures
        match r {
            Ok((info, g)) => spec_msgs_ok(buf@) == Some(info@) && nmea::ngroups_view(g@)
                == nmea::spec_nmea_groups(frame::spec_split(buf@, 0).1),
            Err(e) => spec_msgs_ok(buf@) is None && (is_utf8(frame::spec_split(buf@, 0).1)
                ==> nmea::spec_create(nmea::spec_nmea_groups(frame::spec_split(buf@, 0).1),
                true) == Err::<nmea::NmeaInfoV, nmea::GpsErrView>(e@)) && (!is_utf8(
                frame::spec_split(buf@, 0).1) ==> e@ is Parse),
        },
{
    proof {
        reveal(spec_msgs_ok);
    }
    let (ubx, residual) = split_ubx(buf);
    let mut rxm = decode_rxm_msgs(ubx);
    match utf8_error(residual.as_slice()) {
        Some(m) => {
            return Err(GpsError::ParseError(m));
        },
        None => {
        },
    }
    let groups = RawNmea::parse_str(residual.as_slice());
    let nmea_info = match NmeaGpsInfo::create(&groups, true) {
        Ok(n) => n,
        Err(e) => {
            return Err(e);
        },
    };
    let ghost rxms = spec_rxm_list(frame::spec_split(buf@, 0).0);
    let last = rxm.pop();
    proof {
        if rxms.len() > 0 {
            assert(last matches Some(x) && x@ == rxms.last());
        } else {
            assert(last is None);
        }
    }
    let info = UbxGpsInfo::new(nmea_info, last);
    Ok((info, groups))
}

/// Parse a mixed buffer into a GPS packet, keeping the raw sentence
/// groups and the last decodable measurement record unfused.
pub fn parse_binary(buf: Vec<u8>) -> (r: Result<GpsPacket, GpsError>)
    ensures
        match r {
            Ok(p) => {
                let residual = frame::spec_split(buf@, 0).1;
                let rxms = spec_rxm_list(frame::spec_split(buf@, 0).0);
                &&& is_utf8(residual)
                &&& nmea::ngroups_view(p.nmea_raw@) == nmea::spec_nmea_groups(residual)
                &&& nmea::spec_create(nmea::spec_nmea_groups(residual), true) == Ok::<
                    nmea::NmeaInfoV, nmea::GpsErrView>(p.nmea@)
                &&& (rxms.len() > 0 ==> (p.rxm matches Some(x) && x@ == rxms.last()))
                &&& (rxms.len() == 0 ==> p.rxm is None)
            },
            Err(e) => (is_utf8(frame::spec_split(buf@, 0).1) ==> nmea::spec_create(
                nmea::spec_nmea_groups(frame::spec_split(buf@, 0).1), true) == Err::<
                nmea::NmeaInfoV, nmea::GpsErrView>(e@)) && (!is_utf8(frame::spec_split(buf@,
                0).1) ==> e@ is Parse),
        },
{
    let (ubx, residual) = split_ubx(buf);
    let mut rxm = decode_rxm_msgs(ubx);
    match utf8_error(residual.as_slice()) {
        Some(m) => {
            return Err(GpsError::ParseError(m));
        },
        None => {
        },
    }
    let groups = RawNmea::parse_str(residual.as_slice());
    let nmea_info = match NmeaGpsInfo::create(&groups, true) {
        Ok(n) => n,
        Err(e) => {
            return Err(e);
        },
    };
    let last = rxm.pop();
    Ok(GpsPacket { nmea: nmea_info, nmea_raw: groups, rxm: last })
}

/// Parse a mixed buffer into the fix, the sentence groups, and the last
/// unparsed u-blox frame, processing the sky view only when asked.
pub fn parse_partial(buf: Vec<u8>, process_gsv: bool) -> (r: Result<(NmeaGpsInfo, NmeaMsgGroup,
    Option<UbxMessage>), GpsError>)
    ensures
        match r {
            Ok((info, g, m)) => {
                let msgs = frame::spec_split(buf@, 0).0;
                let residual = frame::spec_split(buf@, 0).1;
                &&& is_utf8(residual)
                &&& nmea::ngroups_view(g@) == nmea::spec_nmea_groups(residual)
                &&& nmea::spec_create(nmea::spec_nmea_groups(residual), process_gsv) == Ok::<
                    nmea::NmeaInfoV, nmea::GpsErrView>(info@)
                &&& (msgs.len() > 0 ==> (m matches Some(x) && x@ == msgs.last()))
                &&& (msgs.len() == 0 ==> m is None)
            },
            Err(e) => (is_utf8(frame::spec_split(buf@, 0).1) ==> nmea::spec_create(
                nmea::spec_nmea_groups(frame::spec_split(buf@, 0).1), process_gsv) == Err::<
                nmea::NmeaInfoV, nmea::GpsErrView>(e@)) && (!is_utf8(frame::spec_split(buf@,
                0).1) ==> e@ is Parse),
        },
{
    let (ubx, residual) = split_ubx(buf);
    let mut ubx = ubx;
    match utf8_error(residual.as_slice()) {
        Some(m) => {
            return Err(GpsError::ParseError(m));
        },
        None => {
        },
    }
    let groups = RawNmea::parse_str(residual.as_slice());
    let nmea_info = match NmeaGpsInfo::create(&groups, process_gsv) {
        Ok(n) => n,
        Err(e) => {
            return Err(e);
        },
    };
    let last = ubx.pop();
    proof {
        let msgs = frame::spec_split(buf@, 0).0;
        if msgs.len() > 0 {
            assert(last matches Some(x) && x@ == msgs.last());
        }
    }
    Ok((nmea_info, groups, last))
}

#[via_fn]
proof fn spec_datafile_dec(d: Seq<u8>, pat: Seq<u8>) {
    if pat.len() >= 1 {
        read_until::lemma_pat_pos_spec(d, pat, 0);
    }
}

/// The fused records a delimited capture yields: records are cut at
/// each delimiter, parsing stops at the first empty record or at the
/// end of the stream, and each record that parses as a mixed buffer
/// contributes its fused fix.
pub open spec fn spec_datafile(d: Seq<u8>, pat: Seq<u8>) -> Seq<fusion::UbxInfoV>
    decreases d.len(),
        via spec_datafile_dec
{
    if pat.len() == 0 {
        Seq::empty()
    } else {
        let q = read_until::pat_pos(d, pat, 0);
        let rec = if q < d.len() {
            d.take(q)
        } else {
            d
        };
        let rest = if q < d.len() {
            d.skip(q + pat.len() as int)
        } else {
            Seq::empty()
        };
        if rec.len() == 0 {
            Seq::empty()
        } else {
            let head = match spec_msgs_ok(rec) {
                Some(i) => seq![i],
                None => Seq::empty(),
            };
            head + spec_datafile(rest, pat)
        }
    }
}

/// Parse a captured datafile: cut it at each delimiter and parse every
/// record as a mixed buffer, keeping the records that parse.  Stops at
/// the first empty record or at the end of the stream.
#[verifier::rlimit(100)]
#[verifier::spinoff_prover]
pub fn parse_datafile(data: Vec<u8>, pattern: &[u8]) -> (r: Result<Vec<UbxGpsInfo>, GpsError>)
    requires
        pattern@.len() >= 1,
    ensures
        r matches Ok(v) && v@.map_values(|i: UbxGpsInfo| i@) == spec_datafile(data@, pattern@),
{
    let ghost total = spec_datafile(data@, pattern@);
    let mut reader = read_until::get_reader(data, pattern);
    let mut out: Vec<UbxGpsInfo> = Vec::new();
    loop
        invariant_except_break
            out@.map_values(|i: UbxGpsInfo| i@) + spec_datafile(reader.remaining(), pattern@)
                == total,
        invariant
            reader.wf(),
            reader.delim() == pattern@,
            pattern@.len() >= 1,
        ensures
            out@.map_values(|i: UbxGpsInfo| i@) == total,
        decreases reader.remaining().len(),
    {
        let ghost rem = reader.remaining();
        let mut buf: Vec<u8> = Vec::new();
        let n = reader.read_to_end(&mut buf);
        proof {
            read_until::lemma_pat_pos_spec(rem, pattern@, 0);
        }
        if n == 0 {
            proof {
                assert(spec_datafile(rem, pattern@) =~= Seq::<fusion::UbxInfoV>::empty());
                assert(out@.map_values(|i: UbxGpsInfo| i@) =~= total);
            }
            break;
        }
        let ghost rec = buf@;
        match parse_messages(buf) {
            Ok((info, _)) => {
                out.push(info);
                proof {
                    assert(spec_msgs_ok(rec) == Some(info@));
                    assert(spec_datafile(rem, pattern@) =~= seq![info@] + spec_datafile(
                        reader.remaining(), pattern@));
                    assert(out@.map_values(|i: UbxGpsInfo| i@) + spec_datafile(
                        reader.remaining(), pattern@) =~= total);
                }
            },
            Err(_) => {
                proof {
                    assert(spec_msgs_ok(rec) is None);
                    assert(spec_datafile(rem, pattern@) =~= spec_datafile(reader.remaining(),
                        pattern@));
                }
            },
        }
    }
    Ok(out)
}

} // verus!
