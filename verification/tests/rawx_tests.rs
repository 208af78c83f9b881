use ublox_gps_tec::frame::UbxMessage;
use ublox_gps_tec::rawx::{TrkStat, UbxClass, UbxRxm, UbxRxmRawx};
use ublox_gps_tec::{BeidouFreq, GalileoFreq, GlonassFreq, GnssFreq, GpsFreq, GnssSatellite,
    QzssFreq};

#[allow(clippy::too_many_arguments)]
fn meas_block(pr: f64, cp: f64, dop: f32, gnss: u8, sv: u8, sig: u8, slot: i8, lock: u16,
    cno: u8, pr_i: u8, cp_i: u8, do_i: u8, trk: u8) -> [u8; 32] {
    let mut b = [0u8; 32];
    b[0..8].copy_from_slice(&pr.to_le_bytes());
    b[8..16].copy_from_slice(&cp.to_le_bytes());
    b[16..20].copy_from_slice(&dop.to_le_bytes());
    b[20] = gnss;
    b[21] = sv;
    b[22] = sig;
    b[23] = slot as u8;
    b[24..26].copy_from_slice(&lock.to_le_bytes());
    b[26] = cno;
    b[27] = pr_i;
    b[28] = cp_i;
    b[29] = do_i;
    b[30] = trk;
    b
}

fn rxm_payload(tow: f64, week: u16, leap: i8, status: u8, blocks: &[[u8; 32]]) -> Vec<u8> {
    let mut p = Vec::new();
    p.extend_from_slice(&tow.to_le_bytes());
    p.extend_from_slice(&week.to_le_bytes());
    p.push(leap as u8);
    p.push(blocks.len() as u8);
    p.push(status);
    p.push(0x01);
    p.push(0);
    p.push(0);
    for b in blocks {
        p.extend_from_slice(b);
    }
    p
}

fn msg(payload: Vec<u8>) -> UbxMessage {
    UbxMessage { class: 0x02, id: 0x15, payload }
}

#[test]
fn decode_single_gps_l1ca_measurement() {
    let block = meas_block(2.0e7, 1.0e8, 1234.5, 0, 7, 0, 0, 500, 40, 5, 3, 2, 0x07);
    let payload = rxm_payload(337718.5, 2334, 18, 0x01, &[block]);
    let rxm = UbxRxmRawx::from_message(msg(payload)).unwrap();
    assert_eq!(rxm.timestamp.week, 2334);
    assert_eq!(rxm.timestamp.leap_s, 18);
    assert_eq!(f64::from_bits(rxm.timestamp.tow_bits), 337718.5);
    assert_eq!(rxm.version, 0x01);
    assert!(rxm.receiver_status.leap_second_ready());
    assert!(!rxm.receiver_status.clk_reset());
    assert_eq!(rxm.meas.len(), 1);
    let (sat, meas) = &rxm.meas[0];
    assert_eq!(*sat, GnssSatellite::Gps(7));
    assert_eq!(meas.len(), 1);
    let m = &meas[0];
    assert_eq!(m.channel, GnssFreq::Gps(GpsFreq::L1CA));
    // sigma formulas: pr 0.01 * 2^5 m, cp 0.004 * 3 cycles, do 0.002 * 2^2 Hz
    assert_eq!(m.pseudo_range, Some((2.0e7f64.to_bits(), 5)));
    assert_eq!(m.carrier_phase, Some((1.0e8f64.to_bits(), 3)));
    assert_eq!(m.doppler, (1234.5f32.to_bits(), 2));
    assert_eq!(m.locktime, 500);
    assert_eq!(m.carrier_snr, 40);
    assert!(m.trk_stat.pr_valid());
    assert!(m.trk_stat.cp_valid());
    assert!(m.trk_stat.half_cycle());
    assert!(!m.trk_stat.sub_half_cycle());
}

#[test]
fn dual_band_sorted_highest_frequency_first() {
    // insert L5 before L1CA: decoding must sort L1CA (1575.42 MHz) first
    let l5 = meas_block(2.0e7, 1.5e8, 0.0, 0, 9, 7, 0, 100, 30, 1, 1, 1, 0x03);
    let l1 = meas_block(2.0e7, 1.0e8, 0.0, 0, 9, 0, 0, 100, 30, 1, 1, 1, 0x03);
    let payload = rxm_payload(1.0, 2334, 18, 0, &[l5, l1]);
    let rxm = UbxRxmRawx::from_message(msg(payload)).unwrap();
    assert_eq!(rxm.meas.len(), 1);
    let (sat, meas) = &rxm.meas[0];
    assert_eq!(*sat, GnssSatellite::Gps(9));
    assert_eq!(meas.len(), 2);
    assert_eq!(meas[0].channel, GnssFreq::Gps(GpsFreq::L1CA));
    assert_eq!(meas[1].channel, GnssFreq::Gps(GpsFreq::L5));
    assert_eq!(meas[0].channel.freq_hz(), 1_575_420_000);
    assert_eq!(meas[1].channel.freq_hz(), 1_176_450_000);
}

#[test]
fn tracking_bits_gate_each_measurement() {
    let pr_only = meas_block(1.0, 2.0, 0.0, 0, 1, 0, 0, 0, 0, 0, 0, 0, 0x01);
    let cp_only = meas_block(1.0, 2.0, 0.0, 0, 2, 0, 0, 0, 0, 0, 0, 0, 0x02);
    let payload = rxm_payload(1.0, 1, 0, 0, &[pr_only, cp_only]);
    let rxm = UbxRxmRawx::from_message(msg(payload)).unwrap();
    let by_sat = |p: u8| rxm.meas.iter().find(|(s, _)| *s == GnssSatellite::Gps(p)).unwrap();
    let (_, m1) = by_sat(1);
    assert!(m1[0].pseudo_range.is_some() && m1[0].carrier_phase.is_none());
    let (_, m2) = by_sat(2);
    assert!(m2[0].pseudo_range.is_none() && m2[0].carrier_phase.is_some());
}

#[test]
fn unknown_sig_id_is_dropped_and_decoding_continues() {
    let bad = meas_block(1.0, 2.0, 0.0, 0, 1, 9, 0, 0, 0, 0, 0, 0, 0x03);
    let good = meas_block(1.0, 2.0, 0.0, 0, 2, 0, 0, 0, 0, 0, 0, 0, 0x03);
    let payload = rxm_payload(1.0, 1, 0, 0, &[bad, good]);
    let rxm = UbxRxmRawx::from_message(msg(payload)).unwrap();
    assert_eq!(rxm.meas.len(), 1);
    assert_eq!(rxm.meas[0].0, GnssSatellite::Gps(2));
}

#[test]
fn from_message_rejects_malformed_headers() {
    let ok = rxm_payload(1.0, 1, 0, 0, &[]);
    assert!(UbxRxmRawx::from_message(UbxMessage { class: 1, id: 0x15, payload: ok.clone() })
        .is_err());
    assert!(UbxRxmRawx::from_message(UbxMessage { class: 2, id: 0x14, payload: ok.clone() })
        .is_err());
    assert!(UbxRxmRawx::from_message(UbxMessage { class: 2, id: 0x15, payload: vec![0; 8] })
        .is_err());
    let mut bad_count = ok.clone();
    bad_count[11] = 3;
    assert!(UbxRxmRawx::from_message(UbxMessage { class: 2, id: 0x15, payload: bad_count })
        .is_err());
    assert!(UbxRxmRawx::from_message(UbxMessage { class: 2, id: 0x15, payload: ok }).is_ok());
}

#[test]
fn remove_single_band_keeps_dual_band_groups() {
    let single = meas_block(1.0, 2.0, 0.0, 0, 1, 0, 0, 0, 0, 0, 0, 0, 0x03);
    let a = meas_block(1.0, 2.0, 0.0, 0, 2, 0, 0, 0, 0, 0, 0, 0, 0x03);
    let b = meas_block(1.0, 2.0, 0.0, 0, 2, 7, 0, 0, 0, 0, 0, 0, 0x03);
    let payload = rxm_payload(1.0, 1, 0, 0, &[single, a, b]);
    let mut rxm = UbxRxmRawx::from_message(msg(payload)).unwrap();
    assert_eq!(rxm.meas.len(), 2);
    rxm.remove_single_band();
    assert_eq!(rxm.meas.len(), 1);
    assert_eq!(rxm.meas[0].0, GnssSatellite::Gps(2));
}

#[test]
fn sig_id_tables_map_to_documented_bands() {
    assert_eq!(GpsFreq::try_from(0), Ok(GpsFreq::L1CA));
    assert_eq!(GpsFreq::try_from(3), Ok(GpsFreq::L2CL));
    assert_eq!(GpsFreq::try_from(4), Ok(GpsFreq::L2CM));
    assert_eq!(GpsFreq::try_from(6), Ok(GpsFreq::L5));
    assert_eq!(GpsFreq::try_from(7), Ok(GpsFreq::L5));
    assert!(GpsFreq::try_from(2).is_err());

    assert_eq!(GalileoFreq::try_from(0), Ok(GalileoFreq::E1C));
    assert_eq!(GalileoFreq::try_from(1), Ok(GalileoFreq::E1B));
    assert_eq!(GalileoFreq::try_from(3), Ok(GalileoFreq::E5aI));
    assert_eq!(GalileoFreq::try_from(4), Ok(GalileoFreq::E5aQ));
    assert_eq!(GalileoFreq::try_from(5), Ok(GalileoFreq::E5bI));
    assert_eq!(GalileoFreq::try_from(6), Ok(GalileoFreq::E5bQ));
    assert!(GalileoFreq::try_from(2).is_err());

    assert_eq!(BeidouFreq::try_from(0), Ok(BeidouFreq::B1I_D1));
    assert_eq!(BeidouFreq::try_from(1), Ok(BeidouFreq::B1I_D2));
    assert_eq!(BeidouFreq::try_from(2), Ok(BeidouFreq::B2I_D1));
    assert_eq!(BeidouFreq::try_from(3), Ok(BeidouFreq::B2I_D2));
    assert_eq!(BeidouFreq::try_from(7), Ok(BeidouFreq::B2A));
    assert!(BeidouFreq::try_from(4).is_err());

    assert_eq!(QzssFreq::try_from(0), Ok(QzssFreq::L1CA));
    assert_eq!(QzssFreq::try_from(1), Ok(QzssFreq::L1S));
    assert_eq!(QzssFreq::try_from(4), Ok(QzssFreq::L2CM));
    assert_eq!(QzssFreq::try_from(5), Ok(QzssFreq::L2CL));
    assert_eq!(QzssFreq::try_from(7), Ok(QzssFreq::L5));
    assert_eq!(QzssFreq::try_from(8), Ok(QzssFreq::L5));
    assert!(QzssFreq::try_from(2).is_err());

    assert_eq!(GlonassFreq::try_from((0, -3)), Ok(GlonassFreq::L1OF(-3)));
    assert_eq!(GlonassFreq::try_from((2, 5)), Ok(GlonassFreq::L2OF(5)));
    assert!(GlonassFreq::try_from((1, 0)).is_err());
}

#[test]
fn carrier_frequencies_are_exact() {
    assert_eq!(GnssFreq::Gps(GpsFreq::L1CA).freq_hz(), 1_575_420_000);
    assert_eq!(GnssFreq::Gps(GpsFreq::L2CL).freq_hz(), 1_227_600_000);
    assert_eq!(GnssFreq::Gps(GpsFreq::L5).freq_hz(), 1_176_450_000);
    assert_eq!(GnssFreq::Galileo(GalileoFreq::E5bQ).freq_hz(), 1_207_140_000);
    assert_eq!(GnssFreq::Beidou(BeidouFreq::B1I_D1).freq_hz(), 1_561_098_000);
    assert_eq!(GnssFreq::Qzss(QzssFreq::L2CM).freq_hz(), 1_227_600_000);
    // Glonass FDMA: 1602.0 MHz + 562.5 kHz * k and 1246.0 MHz + 437.5 kHz * k
    assert_eq!(GnssFreq::Glonass(GlonassFreq::L1OF(-3)).freq_hz(), 1_600_312_500);
    assert_eq!(GnssFreq::Glonass(GlonassFreq::L1OF(0)).freq_hz(), 1_602_000_000);
    assert_eq!(GnssFreq::Glonass(GlonassFreq::L2OF(6)).freq_hz(), 1_248_625_000);
    assert_eq!(GnssFreq::Glonass(GlonassFreq::L2OF(-7)).freq_hz(), 1_242_937_500);
}

#[test]
fn satellite_decoding_surfaces() {
    assert_eq!(GnssSatellite::from_ubx(0, 12), GnssSatellite::Gps(12));
    assert_eq!(GnssSatellite::from_ubx(1, 133), GnssSatellite::Sbas(133));
    assert_eq!(GnssSatellite::from_ubx(2, 3), GnssSatellite::Galileo(3));
    assert_eq!(GnssSatellite::from_ubx(3, 4), GnssSatellite::Beidou(4));
    assert_eq!(GnssSatellite::from_ubx(5, 1), GnssSatellite::Qzss(1));
    assert_eq!(GnssSatellite::from_ubx(6, 10), GnssSatellite::Glonass(10));
    assert_eq!(GnssSatellite::from_nmea_svid(b"GP", 12), GnssSatellite::Gps(12));
    assert_eq!(GnssSatellite::from_nmea_svid(b"GL", 68), GnssSatellite::Glonass(4));
    assert_eq!(GnssSatellite::from_nmea_svid(b"GA", 19), GnssSatellite::Galileo(19));
    assert_eq!(GnssSatellite::from_nmea_svid(b"GB", 23), GnssSatellite::Beidou(23));
    assert_eq!(GnssSatellite::from_nmea_svid(b"GN", 5), GnssSatellite::Sbas(5));
    assert_eq!(GnssSatellite::from_nmea_svid(b"GQ", 2), GnssSatellite::Qzss(2));
}

#[test]
fn ubx_class_table() {
    assert_eq!(UbxClass::try_from((0x02, 0x15)), Ok(UbxClass::Receiver(UbxRxm::RawX)));
    assert_eq!(UbxClass::try_from((0x02, 0x14)), Ok(UbxClass::Receiver(UbxRxm::MeasX)));
    assert_eq!(UbxClass::try_from((0x02, 0x59)), Ok(UbxClass::Receiver(UbxRxm::Rlm)));
    assert_eq!(UbxClass::try_from((0x02, 0x13)), Ok(UbxClass::Receiver(UbxRxm::SfrbX)));
    assert!(UbxClass::try_from((0x02, 0x42)).is_err());
    assert!(matches!(UbxClass::try_from((0x05, 0x01)),
        Ok(UbxClass::Ack(ublox_gps_tec::rawx::UbxAck::Ack))));
    assert!(matches!(UbxClass::try_from((0x05, 0x00)),
        Ok(UbxClass::Ack(ublox_gps_tec::rawx::UbxAck::Nack))));
    assert!(UbxClass::try_from((0x03, 0x00)).is_err());
}

#[test]
fn trk_stat_bits() {
    let t = TrkStat(0b0000_1010);
    assert!(!t.pr_valid());
    assert!(t.cp_valid());
    assert!(!t.half_cycle());
    assert!(t.sub_half_cycle());
}
