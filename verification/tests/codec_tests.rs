use jseries::bits::{pack_fields, unpack_fields};
use jseries::quant::{quantize_alt, quantize_lat, quantize_lon, mask_track};
use jseries::{Error, JMessage, J3_2AirTrack, QuantField, MSG_ID_J3_2};

#[test]
fn roundtrip_j3_2() {
    let rep = J3_2AirTrack::from_geo(42, 451234567, -1229876543, 1500000, 220, 27150).unwrap();
    let msg = JMessage::J3_2(rep);
    let bytes = msg.to_bytes();
    let parsed = JMessage::from_bytes(&bytes).unwrap();
    assert_eq!(msg, parsed);
}

#[test]
fn concrete_scenario_j3_2() {
    let rep = J3_2AirTrack::from_geo(42, 451234567, -1229876543, 1500900, 220, 27100).unwrap();
    assert_eq!(rep.track, 42);
    assert_eq!(rep.track_number, 42);
    assert_eq!(rep.latitude_packed, 393575);
    assert_eq!(rep.longitude_packed, 83030);
    assert_eq!(rep.altitude_packed, 197);
    assert_eq!(rep.parity, 0);
    assert_eq!(rep.speed_ms, 220);
    assert_eq!(rep.heading_cdeg, 27100);
    let body = rep.encode();
    assert_eq!(body.len(), 15);
    assert_eq!(
        body,
        vec![
            0x00, 0x2a, 0xc0, 0x2c, 0xe5, 0x11, 0x58, 0x0a, 0x80, 0xc5, 0x00, 0x06, 0xe3, 0x4e,
            0xe0,
        ]
    );
    let msg = JMessage::J3_2(rep);
    let wire = msg.to_bytes();
    assert_eq!(wire.len(), 16);
    assert_eq!(wire[0], MSG_ID_J3_2);
    let parsed = JMessage::from_bytes(&wire).unwrap();
    match parsed {
        JMessage::J3_2(p) => {
            assert_eq!(p.track, rep.track);
            assert_eq!(p.latitude_packed, rep.latitude_packed);
            assert_eq!(p.longitude_packed, rep.longitude_packed);
            assert_eq!(p.track_number, rep.track_number);
            assert_eq!(p.altitude_packed, rep.altitude_packed);
            assert_eq!(p.parity, rep.parity);
            assert_eq!(p.speed_ms, rep.speed_ms);
            assert_eq!(p.heading_cdeg, rep.heading_cdeg);
        }
    }
}

#[test]
fn short_input_only_kind_byte() {
    assert_eq!(JMessage::from_bytes(&[0x32]), Err(Error::ShortBuffer(117, 0)));
}

#[test]
fn short_input_partial_body() {
    let buf = [0x32u8, 0, 0, 0, 0, 0, 0, 0];
    assert_eq!(JMessage::from_bytes(&buf), Err(Error::ShortBuffer(117, 56)));
}

#[test]
fn empty_input() {
    assert_eq!(JMessage::from_bytes(&[]), Err(Error::ShortBuffer(8, 0)));
}

#[test]
fn unknown_kind() {
    let mut buf = vec![0x99u8];
    buf.extend_from_slice(&[0xde, 0xad, 0xbe, 0xef, 0x01, 0x02, 0x03, 0x04, 0x55, 0x66, 0x77,
        0x88, 0x99, 0xaa]);
    assert_eq!(JMessage::from_bytes(&buf), Err(Error::UnsupportedKind(0x99)));
}

#[test]
fn masking_law_examples() {
    assert_eq!(mask_track(0xFABC), 0x0ABC);
    assert_eq!(mask_track(0x0FFF), 0x0FFF);
    assert_eq!(mask_track(0xF000), 0x0000);
    let a = J3_2AirTrack::from_geo(0x1234, 0, 0, 0, 0, 0).unwrap();
    let b = J3_2AirTrack::from_geo(0xF234, 0, 0, 0, 0, 0).unwrap();
    assert_eq!(a.track_number, 0x234);
    assert_eq!(b.track_number, 0x234);
}

#[test]
fn quantization_overflow_latitude() {
    assert_eq!(
        quantize_lat(950_000_000),
        Err(Error::QuantizationOverflow(QuantField::Latitude))
    );
    assert_eq!(
        J3_2AirTrack::from_geo(1, 950_000_000, 0, 0, 0, 0),
        Err(Error::QuantizationOverflow(QuantField::Latitude))
    );
}

#[test]
fn quantization_overflow_longitude() {
    assert_eq!(
        quantize_lon(1_900_000_000),
        Err(Error::QuantizationOverflow(QuantField::Longitude))
    );
    assert_eq!(
        J3_2AirTrack::from_geo(1, 0, 1_900_000_000, 0, 0, 0),
        Err(Error::QuantizationOverflow(QuantField::Longitude))
    );
}

#[test]
fn quantization_overflow_altitude() {
    assert_eq!(
        quantize_alt(-10_000),
        Err(Error::QuantizationOverflow(QuantField::Altitude))
    );
    assert_eq!(
        quantize_alt(200_000_000_000),
        Err(Error::QuantizationOverflow(QuantField::Altitude))
    );
    assert_eq!(
        J3_2AirTrack::from_geo(1, 0, 0, -10_000, 0, 0),
        Err(Error::QuantizationOverflow(QuantField::Altitude))
    );
}

#[test]
fn range_soundness_boundaries() {
    assert_eq!(quantize_lat(-900_000_000), Ok(0));
    assert_eq!(quantize_lat(900_000_000), Ok(524287));
    assert_eq!(quantize_lon(-1_800_000_000), Ok(0));
    assert_eq!(quantize_lon(1_800_000_000), Ok(524287));
    assert_eq!(quantize_alt(0), Ok(0));
    assert_eq!(quantize_alt(124_838_456), Ok(16383));
}

#[test]
fn roundtrip_packed_fields() {
    let rep = J3_2AirTrack {
        track: 0xBEEF,
        latitude_packed: 0x7FFFF,
        longitude_packed: 0x12345,
        track_number: 0xABC,
        altitude_packed: 0x3FFF,
        parity: 0x1F,
        speed_ms: 65535,
        heading_cdeg: 35999,
    };
    let body = rep.encode();
    assert_eq!(J3_2AirTrack::decode(&body), Ok(rep));
    let msg = JMessage::J3_2(rep);
    assert_eq!(JMessage::from_bytes(&msg.to_bytes()), Ok(msg));
}

#[test]
fn encode_deterministic_padding() {
    let rep = J3_2AirTrack::from_geo(7, 1, -1, 12345, 9, 100).unwrap();
    let a = rep.encode();
    let b = rep.encode();
    assert_eq!(a, b);
    assert_eq!(a[14] & 0x07, 0);
}

#[test]
fn decode_ignores_trailing_bytes() {
    let rep = J3_2AirTrack::from_geo(500, -300000000, 700000000, 5000000, 88, 18000).unwrap();
    let mut wire = JMessage::J3_2(rep).to_bytes();
    wire.push(0xFF);
    wire.push(0x00);
    assert_eq!(JMessage::from_bytes(&wire), Ok(JMessage::J3_2(rep)));
}

#[test]
fn heading_and_speed_verbatim() {
    let rep = J3_2AirTrack::from_geo(3, 0, 0, 0, 61234, 40000).unwrap();
    assert_eq!(rep.speed_ms, 61234);
    assert_eq!(rep.heading_cdeg, 40000);
}

#[test]
fn inconsistent_track_number_accepted_on_decode() {
    let rep = J3_2AirTrack {
        track: 0xFFFF,
        latitude_packed: 1,
        longitude_packed: 2,
        track_number: 0x001,
        altitude_packed: 3,
        parity: 0,
        speed_ms: 4,
        heading_cdeg: 5,
    };
    let body = rep.encode();
    assert_eq!(J3_2AirTrack::decode(&body), Ok(rep));
}

#[test]
fn pack_fields_engine() {
    let fields = vec![(0b101u64, 3u16), (0xFFu64, 8u16), (1u64, 1u16)];
    let out = pack_fields(&fields);
    assert_eq!(out, vec![0xbf, 0xf0]);
}

#[test]
fn unpack_fields_engine() {
    let widths = vec![3u16, 8u16, 1u16];
    let vals = unpack_fields(&[0xbf, 0xf0], &widths).unwrap();
    assert_eq!(vals, vec![0b101u64, 0xFFu64, 1u64]);
}

#[test]
fn unpack_fields_short_buffer() {
    let widths = vec![3u16, 8u16, 1u16];
    assert_eq!(unpack_fields(&[0xbf], &widths), Err(Error::ShortBuffer(12, 8)));
}
