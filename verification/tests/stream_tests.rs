use ublox_gps_tec::read_until::get_reader;
use ublox_gps_tec::{parse_datafile, StoreKind, Uncertain, DEFAULT_DELIM};

const DELIM: &[u8] = b"\r\r\n\n\r\r\n\n";

#[test]
fn delimited_records_read_one_at_a_time() {
    let mut data = Vec::new();
    data.extend_from_slice(b"A");
    data.extend_from_slice(DELIM);
    data.extend_from_slice(b"BB");
    data.extend_from_slice(DELIM);
    data.extend_from_slice(b"CCC");
    let mut reader = get_reader(data, DELIM);

    let mut buf = Vec::new();
    assert_eq!(reader.read_to_end(&mut buf), 1);
    assert_eq!(buf, b"A".to_vec());

    let mut buf = Vec::new();
    assert_eq!(reader.read_to_end(&mut buf), 2);
    assert_eq!(buf, b"BB".to_vec());

    let mut buf = Vec::new();
    assert_eq!(reader.read_to_end(&mut buf), 3);
    assert_eq!(buf, b"CCC".to_vec());

    let mut buf = Vec::new();
    assert_eq!(reader.read_to_end(&mut buf), 0);
    assert!(buf.is_empty());
}

#[test]
fn stream_without_delimiter_returns_everything() {
    let mut reader = get_reader(b"no delimiter here".to_vec(), DELIM);
    let mut buf = Vec::new();
    assert_eq!(reader.read_to_end(&mut buf), 17);
    assert_eq!(buf, b"no delimiter here".to_vec());
    let mut buf = Vec::new();
    assert_eq!(reader.read_to_end(&mut buf), 0);
}

#[test]
fn delimiter_split_across_block_boundary_is_found() {
    // a partial delimiter prefix inside the payload must not split it
    let mut data = Vec::new();
    data.extend_from_slice(b"x\r\r\n\ny");
    data.extend_from_slice(DELIM);
    data.extend_from_slice(b"z");
    let mut reader = get_reader(data, DELIM);
    let mut buf = Vec::new();
    assert_eq!(reader.read_to_end(&mut buf), 6);
    assert_eq!(buf, b"x\r\r\n\ny".to_vec());
    let mut buf = Vec::new();
    assert_eq!(reader.read_to_end(&mut buf), 1);
    assert_eq!(buf, b"z".to_vec());
}

#[test]
fn datafile_parses_each_record() {
    let record = b"$GNZDA,221515.00,03,10,2024,00,00*7E\r\n$GNGGA,221515.00,4238.96342,N,07118.97943,W,2,12,1.04,36.7,M,-33.0,M,,0131*41\r\n";
    let mut data = Vec::new();
    data.extend_from_slice(record);
    data.extend_from_slice(DELIM);
    data.extend_from_slice(record);
    data.extend_from_slice(DELIM);
    data.extend_from_slice(b"garbage without a fix");
    let infos = parse_datafile(data, DELIM).unwrap();
    assert_eq!(infos.len(), 2);
    assert_eq!(infos[0].timestamp().hour, 22);
    assert_eq!(infos[1].quality(), 2);
}

#[test]
fn store_kinds_name_their_delimiters() {
    assert_eq!(StoreKind::Raw.delimiter(), DEFAULT_DELIM.to_vec());
    assert_eq!(StoreKind::Raw.delimiter(), DELIM.to_vec());
    assert_eq!(StoreKind::Json.delimiter(), b"\n".to_vec());
}

#[test]
fn uncertain_pairs_value_with_deviation() {
    let u = Uncertain::new(42.5f64, 0.25f64);
    assert_eq!(u.value(), 42.5);
    assert_eq!(u.error(), 0.25);
    assert_eq!(u.0, 42.5);
    assert_eq!(u.1, 0.25);
    let v: Uncertain<i32> = Uncertain::new(-3, 1);
    assert_eq!(v.value(), -3);
    assert_eq!(v.error(), 1);
}
