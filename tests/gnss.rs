use ac_client::gnss::{nmea_checksum_ok, nmea_to_decimal, parse_nmea};

#[test]
fn parse_gprmc() {
    let line = "$GPRMC,123519,A,4807.038,N,01131.000,E,022.4,084.4,230394,003.1,W*6A";
    let pos = parse_nmea(line).unwrap();
    assert!(pos.latitude.starts_with("48."), "lat={}", pos.latitude);
    assert!(pos.longitude.starts_with("11."), "lon={}", pos.longitude);
}

#[test]
fn parse_gpgga() {
    let line = "$GPGGA,123519,4807.038,N,01131.000,E,1,08,0.9,545.4,M,46.9,M,,*47";
    let pos = parse_nmea(line).unwrap();
    assert!(pos.latitude.starts_with("48."), "lat={}", pos.latitude);
}

#[test]
fn invalid_fix_ignored() {
    // V = invalid fix
    let line = "$GPRMC,123519,V,4807.038,N,01131.000,E,022.4,084.4,230394,003.1,W*6A";
    assert!(parse_nmea(line).is_none());
}

#[test]
fn rmc_coordinates_have_six_decimals() {
    let line = "$GPRMC,123519,A,4807.038,N,01131.000,E,022.4,084.4,230394,003.1,W*6A";
    let pos = parse_nmea(line).unwrap();
    assert_eq!(pos.latitude, "48.117300");
    assert_eq!(pos.longitude, "11.516667");
}

#[test]
fn bad_checksum_rejected() {
    let line = "$GPRMC,123519,A,4807.038,N,01131.000,E,022.4,084.4,230394,003.1,W*6B";
    assert!(parse_nmea(line).is_none());
    assert!(!nmea_checksum_ok(line));
}

#[test]
fn sentence_without_checksum_accepted() {
    let line = "  $GNGGA,123519,4807.038,S,01131.000,W,1,08  ";
    let pos = parse_nmea(line).unwrap();
    assert_eq!(pos.latitude, "-48.117300");
    assert_eq!(pos.longitude, "-11.516667");
}

#[test]
fn gga_without_quality_ignored() {
    assert!(parse_nmea("$GPGGA,123519,4807.038,N,01131.000,E,0,08").is_none());
    assert!(parse_nmea("$GPGGA,123519,4807.038,N,01131.000,E,,08").is_none());
}

#[test]
fn other_sentences_ignored() {
    assert!(parse_nmea("$GPGSV,1,1,00").is_none());
    assert!(parse_nmea("").is_none());
}

#[test]
fn coordinate_conversion() {
    assert_eq!(nmea_to_decimal("4807.038", "N").unwrap(), "48.117300");
    assert_eq!(nmea_to_decimal("00030.000", "W").unwrap(), "-0.500000");
    assert!(nmea_to_decimal("", "N").is_none());
    assert!(nmea_to_decimal("07.5", "N").is_none());
    assert!(nmea_to_decimal("4807", "N").is_none());
}
