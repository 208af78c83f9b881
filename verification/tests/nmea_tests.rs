use ublox_gps_tec::nmea::{Coord, Dec, GpsError, NmeaGpsInfo, RawNmea, UtcTime};
use ublox_gps_tec::{parse_nmea, GnssSatellite};

const NMEA_BLOCK: &str =
    "22:15:15  $GNRMC,221515.00,A,4238.96342,N,07118.97943,W,0.046,,031024,,,D,V*0D
22:15:15  done $GNVTG,,T,,M,0.046,N,0.086,K,D*34
22:15:15  done $GNGGA,221515.00,4238.96342,N,07118.97943,W,2,12,1.04,36.7,M,-33.0,M,,0131*41
22:15:15  done $GNGSA,A,3,03,27,46,44,31,26,04,16,,,,,1.83,1.04,1.51,1*0A
22:15:15  done $GNGSA,A,3,68,78,79,67,,,,,,,,,1.83,1.04,1.51,2*06
22:15:15  done $GNGSA,A,3,21,29,19,,,,,,,,,,1.83,1.04,1.51,3*09
22:15:15  done $GNGSA,A,3,25,23,41,32,,,,,,,,,1.83,1.04,1.51,4*0C
22:15:15  done $GNGSA,A,3,,,,,,,,,,,,,1.83,1.04,1.51,5*0F
22:15:15  $GPGSV,3,1,10,03,26,248,42,04,48,306,17,16,68,221,41,26,72,052,18,1*61
22:15:15  $GPGSV,3,2,10,27,18,171,36,29,16,041,11,31,62,067,22,32,00,145,12,1*66
22:15:15  $GPGSV,3,3,10,44,23,237,44,46,15,247,33,1*65
22:15:15  $GPGSV,1,1,03,03,26,248,27,04,48,306,16,27,18,171,36,6*58
22:15:15  $GPGSV,1,1,02,09,16,316,,28,30,090,,0*6D
22:15:15  $GLGSV,2,1,05,67,20,174,38,68,63,216,41,78,65,004,21,79,41,266,37,1*79
22:15:15  $GLGSV,2,2,05,86,05,011,20,1*44
22:15:15  $GLGSV,2,1,05,67,20,174,34,68,63,216,33,78,65,004,13,79,41,266,22,3*77
22:15:15  $GLGSV,2,2,05,86,05,011,24,3*42
22:15:15  $GLGSV,1,1,04,69,45,316,,77,15,054,,87,17,056,,88,09,111,,0*70
22:15:15  $GAGSV,1,1,02,19,74,181,28,29,30,147,35,2*71
22:15:15  $GAGSV,1,1,03,19,74,181,35,21,78,057,09,29,30,147,20,7*4A
22:15:15  $GAGSV,1,1,03,04,39,310,,06,14,315,,27,24,050,,0*49
22:15:15  $GBGSV,2,1,07,23,56,275,33,25,62,050,18,32,43,291,27,33,07,172,35,1*73
22:15:15  $GBGSV,2,2,07,37,07,259,29,41,43,210,44,43,09,146,27,1*4E
22:15:15  $GBGSV,1,1,01,41,43,210,08,B*3D
22:15:15  $GBGSV,1,1,04,20,03,330,,24,11,071,,34,22,102,,44,13,049,,0*79
22:15:15  $GQGSV,1,1,00,0*64
22:15:15  $GNGLL,4238.96342,N,07118.97943,W,221515.00,A,D*68
22:15:15  $GNZDA,221515.00,03,10,2024,00,00*7E";

#[test]
fn parse_test() {
    let payload = NMEA_BLOCK;
    let nmea = RawNmea::parse_str(payload.as_bytes());
    println!("{:?}", NmeaGpsInfo::create(&nmea, true));
}

#[test]
fn full_block_yields_expected_fix() {
    let (info, groups) = parse_nmea(NMEA_BLOCK.as_bytes().to_vec()).unwrap();
    assert_eq!(info.time, UtcTime {
        year: 2024,
        month: 10,
        day: 3,
        hour: 22,
        minute: 15,
        second: 15,
        centis: 0,
    });
    // 42 deg 38.96342 min north, 071 deg 18.97943 min west
    assert_eq!(info.loc.0, Coord { deg: 42, min_100k: 3_896_342, neg: false });
    assert_eq!(info.loc.1, Coord { deg: 71, min_100k: 1_897_943, neg: true });
    assert_eq!(info.loc.2, Dec { neg: false, mant: 367, scale: 1 });
    assert_eq!(info.msl, Dec { neg: true, mant: 330, scale: 1 });
    assert_eq!(info.quality, 2);
    assert_eq!(info.pdop, Dec { neg: false, mant: 183, scale: 2 });
    assert_eq!(info.hdop, Dec { neg: false, mant: 104, scale: 2 });
    assert_eq!(info.vdop, Dec { neg: false, mant: 151, scale: 2 });
    // VTG: empty headings default to zero, ground speed 0.086 km/h
    assert_eq!(info.true_heading, Dec { neg: false, mant: 0, scale: 0 });
    assert_eq!(info.ground_speed, Dec { neg: false, mant: 86, scale: 3 });
    assert!(info.sat_views.len() >= 30);
    // a few known sky-view entries
    let view = |s: GnssSatellite| info.sat_views.iter().find(|(k, _)| *k == s).map(|(_, v)| *v);
    assert_eq!(view(GnssSatellite::Gps(3)), Some((26, 248)));
    assert_eq!(view(GnssSatellite::Glonass(4)), Some((63, 216)));
    assert_eq!(view(GnssSatellite::Beidou(41)), Some((43, 210)));
    // the groups keep every checksum-valid sentence by kind
    let gsv = groups.iter().find(|(k, _)| k == b"GSV").unwrap();
    assert_eq!(gsv.1.len(), 18);
    let zda = groups.iter().find(|(k, _)| k == b"ZDA").unwrap();
    assert_eq!(zda.1.len(), 1);
}

#[test]
fn missing_zda_is_no_fix() {
    let r = parse_nmea(b"$GPGGA,221515.00,4238.96342,N,07118.97943,W,2,12,1.04,36.7,M,-33.0,M,,0131*5F\r\n".to_vec());
    assert!(matches!(r, Err(GpsError::NoFix)));
    let r2 = parse_nmea(Vec::new());
    assert!(matches!(r2, Err(GpsError::NoFix)));
}

#[test]
fn missing_gga_is_pattern_not_found() {
    let r = parse_nmea(b"$GNZDA,221515.00,03,10,2024,00,00*7E\r\n".to_vec());
    assert!(matches!(r, Err(GpsError::PatternNotFound)));
}

#[test]
fn corrupted_sentence_checksum_drops_the_sentence() {
    // the ZDA checksum is altered: the sentence is dropped, so no fix
    let r = parse_nmea(b"$GNZDA,221515.00,03,10,2024,00,00*7F\r\n".to_vec());
    assert!(matches!(r, Err(GpsError::NoFix)));
}

#[test]
fn invalid_utf8_is_parse_error() {
    let r = parse_nmea(vec![0xFF, 0xFE, 0x24, 0x80]);
    assert!(matches!(r, Err(GpsError::ParseError(_))));
}

#[test]
fn invalid_calendar_date_is_parse_error() {
    // month 13 names no calendar instant
    let buf = b"$GNZDA,221515.00,03,13,2024,00,00*7D\r\n$GNGGA,221515.00,4238.96342,N,07118.97943,W,2,12,1.04,36.7,M,-33.0,M,,0131*41\r\n";
    let r = parse_nmea(buf.to_vec());
    assert!(matches!(r, Err(GpsError::ParseError(_))));
}

#[test]
fn scanner_groups_by_kind_in_first_seen_order() {
    let text = b"$GPGSV,1,1,00,0*65\r\n$GNZDA,221515.00,03,10,2024,00,00*7E\r\n$GLGSV,1,1,00,0*79\r\n";
    let groups = RawNmea::parse_str(text);
    assert_eq!(groups.len(), 2);
    assert_eq!(&groups[0].0, b"GSV");
    assert_eq!(groups[0].1.len(), 2);
    assert_eq!(&groups[0].1[0].id, b"GP");
    assert_eq!(&groups[0].1[1].id, b"GL");
    assert_eq!(&groups[1].0, b"ZDA");
    assert_eq!(groups[1].1[0].data, b"221515.00,03,10,2024,00,00".to_vec());
}

#[test]
fn empty_altitude_field_is_parse_error() {
    let buf = b"$GNZDA,221515.00,03,10,2024,00,00*7E\r\n$GNGGA,221515.00,4238.96342,N,07118.97943,W,2,12,1.04,,M,-33.0,M,,0131*5D\r\n";
    match parse_nmea(buf.to_vec()) {
        Err(GpsError::ParseError(m)) => assert_eq!(m, "Altitude"),
        other => panic!("expected an altitude parse error, got {other:?}"),
    }
}

#[test]
fn empty_msl_field_defaults_to_zero() {
    let buf = b"$GNZDA,221515.00,03,10,2024,00,00*7E\r\n$GNGGA,221515.00,4238.96342,N,07118.97943,W,2,12,1.04,36.7,M,,M,,0131*72\r\n";
    let (info, _) = parse_nmea(buf.to_vec()).unwrap();
    assert_eq!(info.msl, Dec { neg: false, mant: 0, scale: 0 });
    assert_eq!(info.loc.2, Dec { neg: false, mant: 367, scale: 1 });
}
