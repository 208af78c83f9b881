use ublox_gps_tec::frame::rxm_checksum;
use ublox_gps_tec::tec::TecInfo;
use ublox_gps_tec::{parse_messages, GnssFreq, GnssSatellite, GpsFreq};

fn sentence(body: &str) -> String {
    let ck = body.bytes().fold(0u8, |a, b| a ^ b);
    format!("${}*{:02X}\r\n", body, ck)
}

fn fix_text() -> String {
    let mut s = String::new();
    s.push_str(&sentence("GNZDA,221515.00,03,10,2024,00,00"));
    s.push_str(&sentence(
        "GNGGA,221515.00,4238.96342,N,07118.97943,W,2,12,1.04,36.7,M,-33.0,M,,0131"));
    s
}

#[allow(clippy::too_many_arguments)]
fn meas_block(pr: f64, cp: f64, gnss: u8, sv: u8, sig: u8, trk: u8) -> [u8; 32] {
    let mut b = [0u8; 32];
    b[0..8].copy_from_slice(&pr.to_le_bytes());
    b[8..16].copy_from_slice(&cp.to_le_bytes());
    b[20] = gnss;
    b[21] = sv;
    b[22] = sig;
    b[30] = trk;
    b
}

fn rxm_frame(blocks: &[[u8; 32]]) -> Vec<u8> {
    let mut p = Vec::new();
    p.extend_from_slice(&337718.5f64.to_le_bytes());
    p.extend_from_slice(&2334u16.to_le_bytes());
    p.push(18);
    p.push(blocks.len() as u8);
    p.push(1);
    p.push(1);
    p.push(0);
    p.push(0);
    for b in blocks {
        p.extend_from_slice(b);
    }
    let mut body = vec![0x02, 0x15, (p.len() % 256) as u8, (p.len() / 256) as u8];
    body.extend_from_slice(&p);
    let (a, b) = rxm_checksum(&body);
    let mut frame = vec![0xB5, 0x62];
    frame.extend_from_slice(&body);
    frame.push(a);
    frame.push(b);
    frame
}

fn mixed_buffer(blocks: &[[u8; 32]]) -> Vec<u8> {
    let mut buf = fix_text().into_bytes();
    buf.extend_from_slice(&rxm_frame(blocks));
    buf
}

#[test]
fn dual_band_satellite_yields_tec_observables() {
    let l1 = meas_block(2.0e7, 1.0e8, 0, 5, 0, 0x03);
    let l5 = meas_block(2.1e7, 1.5e8, 0, 5, 7, 0x03);
    let (info, _) = parse_messages(mixed_buffer(&[l5, l1])).unwrap();
    let tec = TecInfo::assimilate(&info).unwrap();
    assert_eq!(tec.timestamp().hour, 22);
    assert_eq!(tec.tec().len(), 1);
    let d = &tec.tec()[0];
    assert_eq!(d.source(), GnssSatellite::Gps(5));
    // channels come highest frequency first
    assert_eq!(d.channels(), (GnssFreq::Gps(GpsFreq::L1CA), GnssFreq::Gps(GpsFreq::L5)));
    assert_eq!(d.phase_obs(), Some(((1.0e8f64.to_bits(), 0), (1.5e8f64.to_bits(), 0))));
    assert_eq!(d.range_obs(), Some(((2.0e7f64.to_bits(), 0), (2.1e7f64.to_bits(), 0))));
    // not in the GSV set: elevation defaults to -1, azimuth to 0
    assert_eq!(d.elevation(), -1);
    assert_eq!(d.azimuth(), 0);
    // the phase TEC the consumer computes from these operands
    let f0 = d.channels().0.freq_hz() as f64;
    let f1 = d.channels().1.freq_hz() as f64;
    let c = 299_792_458.0f64;
    let k = (1e-16 / 40.308) * (f0 * f0 * f1 * f1) / (f0 * f0 - f1 * f1);
    let (cp0, _) = d.phase_obs().unwrap().0;
    let (cp1, _) = d.phase_obs().unwrap().1;
    let phase_tec = (f64::from_bits(cp0) * (c / f0) - f64::from_bits(cp1) * (c / f1)) * k;
    assert!(phase_tec.is_finite());
}

#[test]
fn single_channel_satellite_contributes_nothing() {
    let only = meas_block(2.0e7, 1.0e8, 0, 5, 0, 0x03);
    let (info, _) = parse_messages(mixed_buffer(&[only])).unwrap();
    assert!(TecInfo::assimilate(&info).is_none());
}

#[test]
fn missing_pseudo_ranges_still_emit_phase() {
    // carrier phase valid on both channels, pseudo-range on neither
    let l1 = meas_block(0.0, 1.0e8, 0, 5, 0, 0x02);
    let l5 = meas_block(0.0, 1.5e8, 0, 5, 7, 0x02);
    let (info, _) = parse_messages(mixed_buffer(&[l1, l5])).unwrap();
    let tec = TecInfo::assimilate(&info).unwrap();
    let d = &tec.tec()[0];
    assert!(d.range_obs().is_none());
    assert!(d.phase_obs().is_some());
}

#[test]
fn neither_pair_complete_contributes_nothing() {
    // one channel tracks only the code, the other only the carrier
    let l1 = meas_block(2.0e7, 0.0, 0, 5, 0, 0x01);
    let l5 = meas_block(0.0, 1.5e8, 0, 5, 7, 0x02);
    let (info, _) = parse_messages(mixed_buffer(&[l1, l5])).unwrap();
    assert!(TecInfo::assimilate(&info).is_none());
}

#[test]
fn output_is_sorted_by_satellite_identity() {
    let mk = |gnss: u8, sv: u8, sig0: u8, sig1: u8| {
        [meas_block(1.0e7, 1.0e8, gnss, sv, sig0, 0x03), meas_block(1.1e7, 1.1e8, gnss, sv,
            sig1, 0x03)]
    };
    let glonass = mk(6, 4, 0, 2);
    let gps9 = mk(0, 9, 0, 7);
    let gps3 = mk(0, 3, 0, 7);
    let beidou = mk(3, 20, 0, 7);
    let mut blocks = Vec::new();
    blocks.extend_from_slice(&glonass);
    blocks.extend_from_slice(&gps9);
    blocks.extend_from_slice(&gps3);
    blocks.extend_from_slice(&beidou);
    let (info, _) = parse_messages(mixed_buffer(&blocks)).unwrap();
    let tec = TecInfo::assimilate(&info).unwrap();
    let order: Vec<GnssSatellite> = tec.tec().iter().map(|d| d.source()).collect();
    assert_eq!(order, vec![GnssSatellite::Gps(3), GnssSatellite::Gps(9),
        GnssSatellite::Beidou(20), GnssSatellite::Glonass(4)]);
}
