//! Air-track body codec: owns the declared field order and widths of the one
//! supported report kind and drives the bit packer and the quantization
//! policy to produce and consume the 15-byte packed body.
//!
//! Field layout, in order, most significant bit first:
//! track (16) | latitude_packed (19) | longitude_packed (19) |
//! track_number (12) | altitude_packed (14) | parity (5) |
//! speed_ms (16) | heading_cdeg (16) — 117 bits, padded to 15 bytes with
//! three zero bits.

use vstd::prelude::*;
use vstd::arithmetic::power2::lemma2_to64;
use crate::bits::{
    bits_of, field_bits, value_of, zero_bits, BitReader, BitWriter, lemma_value_of_field_bits,
};
use crate::errors::Error;
use crate::quant::{
    quantize_lat, quantize_lon, quantize_alt, mask_track, lat_code, lon_code, alt_code,
};
use crate::{BODY_BITS, BODY_BYTES};

verus! {

/// One air-track report, held in its packed integer representation. The
/// original floating-point geodetic inputs are not recoverable: quantization
/// is one-way, and only this packed form round-trips through the wire.
#[derive(Debug, Clone, Copy, PartialEq, Eq, Structural)]
pub struct J3_2AirTrack {
    /// Full 16-bit track identifier.
    pub track: u16,
    /// Linear 19-bit code for latitude degrees in [-90, +90].
    pub latitude_packed: u32,
    /// Linear 19-bit code for longitude degrees in [-180, +180].
    pub longitude_packed: u32,
    /// Low 12 bits of `track`; lossy by design.
    pub track_number: u16,
    /// Altitude in 25-foot steps, 14 bits.
    pub altitude_packed: u16,
    /// Reserved 5-bit field, currently always zero.
    pub parity: u8,
    /// Speed in whole metres per second, byte-aligned, unscaled.
    pub speed_ms: u16,
    /// Heading in centidegrees, stored verbatim.
    pub heading_cdeg: u16,
}

impl J3_2AirTrack {
    /// Every packed field fits its declared bit width.
    pub open spec fn wf(self) -> bool {
        &&& self.latitude_packed < 0x80000
        &&& self.longitude_packed < 0x80000
        &&& self.track_number < 0x1000
        &&& self.altitude_packed < 0x4000
        &&& self.parity < 0x20
    }

    /// The 117 bits of the packed body, in declared field order.
    pub open spec fn body_bits(self) -> Seq<bool> {
        field_bits(self.track as u64, 16) + field_bits(self.latitude_packed as u64, 19)
            + field_bits(self.longitude_packed as u64, 19)
            + field_bits(self.track_number as u64, 12)
            + field_bits(self.altitude_packed as u64, 14) + field_bits(self.parity as u64, 5)
            + field_bits(self.speed_ms as u64, 16) + field_bits(self.heading_cdeg as u64, 16)
    }

    /// The report a bit stream of at least 117 bits denotes.
    pub open spec fn report_of_bits(s: Seq<bool>) -> J3_2AirTrack
        recommends
            s.len() >= 117,
    {
        J3_2AirTrack {
            track: value_of(s.subrange(0, 16)) as u16,
            latitude_packed: value_of(s.subrange(16, 35)) as u32,
            longitude_packed: value_of(s.subrange(35, 54)) as u32,
            track_number: value_of(s.subrange(54, 66)) as u16,
            altitude_packed: value_of(s.subrange(66, 80)) as u16,
            parity: value_of(s.subrange(80, 85)) as u8,
            speed_ms: value_of(s.subrange(85, 101)) as u16,
            heading_cdeg: value_of(s.subrange(101, 117)) as u16,
        }
    }

    /// Pack the report into its 15-byte body: all fields in declared order,
    /// then three zero padding bits, so equal reports give identical bytes.
    pub fn encode(&self) -> (out: Vec<u8>)
        requires
            self.wf(),
        ensures
            out@.len() == BODY_BYTES,
            bits_of(out@) == self.body_bits() + zero_bits(3),
    {
        proof {
            lemma2_to64();
        }
        let mut w = BitWriter::new();
        w.push_field(self.track as u64, 16);
        w.push_field(self.latitude_packed as u64, 19);
        w.push_field(self.longitude_packed as u64, 19);
        w.push_field(self.track_number as u64, 12);
        w.push_field(self.altitude_packed as u64, 14);
        w.push_field(self.parity as u64, 5);
        w.push_field(self.speed_ms as u64, 16);
        w.push_field(self.heading_cdeg as u64, 16);
        let out = w.into_bytes();
        proof {
            assert(bits_of(out@) =~= self.body_bits() + zero_bits(3));
        }
        out
    }

    /// Unpack a 15-byte (or longer) body; extra trailing bits are ignored.
    /// A buffer of fewer than 117 bits is rejected as `ShortBuffer`. No
    /// consistency check is made between `track` and `track_number`: a
    /// mismatch caused by transport corruption is accepted as data.
    pub fn decode(buf: &[u8]) -> (r: Result<J3_2AirTrack, Error>)
        ensures
            buf@.len() * 8 >= 117 ==> r == Ok::<J3_2AirTrack, Error>(
                Self::report_of_bits(bits_of(buf@)),
            ),
            buf@.len() * 8 < 117 ==> r == Err::<J3_2AirTrack, Error>(
                Error::ShortBuffer(117, (buf@.len() * 8) as usize),
            ),
            r matches Ok(rep) ==> rep.wf(),
    {
        if buf.len() < BODY_BYTES {
            return Err(Error::ShortBuffer(BODY_BITS, buf.len() * 8));
        }
        proof {
            lemma2_to64();
        }
        let mut rd = BitReader::new(buf);
        let track: u64 = rd.read_field(16);
        let latitude_packed: u64 = rd.read_field(19);
        let longitude_packed: u64 = rd.read_field(19);
        let track_number: u64 = rd.read_field(12);
        let altitude_packed: u64 = rd.read_field(14);
        let parity: u64 = rd.read_field(5);
        let speed_ms: u64 = rd.read_field(16);
        let heading_cdeg: u64 = rd.read_field(16);
        Ok(J3_2AirTrack {
            track: track as u16,
            latitude_packed: latitude_packed as u32,
            longitude_packed: longitude_packed as u32,
            track_number: track_number as u16,
            altitude_packed: altitude_packed as u16,
            parity: parity as u8,
            speed_ms: speed_ms as u16,
            heading_cdeg: heading_cdeg as u16,
        })
    }

    /// Build a report from geodetic telemetry: latitude and longitude in
    /// 1e-7 degree units, altitude in millimetres, speed in whole metres per
    /// second, heading in centidegrees (stored verbatim; values at or above
    /// 36000 are representable but semantically invalid and are not
    /// rejected). Inputs whose scaled value leaves the target field's range
    /// are rejected as `QuantizationOverflow`, latitude checked first, then
    /// longitude, then altitude.
    pub fn from_geo(track: u16, lat_e7: i32, lon_e7: i32, alt_mm: i64, speed_ms: u16, heading_cdeg: u16) -> (r: Result<
        J3_2AirTrack,
        Error,
    >)
        ensures
            !(0 <= lat_code(lat_e7 as int) <= 524287) ==> r == Err::<J3_2AirTrack, Error>(
                Error::QuantizationOverflow(crate::errors::QuantField::Latitude),
            ),
            0 <= lat_code(lat_e7 as int) <= 524287 && !(0 <= lon_code(lon_e7 as int) <= 524287)
                ==> r == Err::<J3_2AirTrack, Error>(
                Error::QuantizationOverflow(crate::errors::QuantField::Longitude),
            ),
            0 <= lat_code(lat_e7 as int) <= 524287 && 0 <= lon_code(lon_e7 as int) <= 524287 && !(0
                <= alt_code(alt_mm as int) <= 16383) ==> r == Err::<J3_2AirTrack, Error>(
                Error::QuantizationOverflow(crate::errors::QuantField::Altitude),
            ),
            0 <= lat_code(lat_e7 as int) <= 524287 && 0 <= lon_code(lon_e7 as int) <= 524287 && 0
                <= alt_code(alt_mm as int) <= 16383 ==> r == Ok::<J3_2AirTrack, Error>(
                J3_2AirTrack {
                    track,
                    latitude_packed: lat_code(lat_e7 as int) as u32,
                    longitude_packed: lon_code(lon_e7 as int) as u32,
                    track_number: track & 0x0FFF,
                    altitude_packed: alt_code(alt_mm as int) as u16,
                    parity: 0,
                    speed_ms,
                    heading_cdeg,
                },
            ),
            r matches Ok(rep) ==> rep.wf() && rep.track_number == track & 0x0FFF,
    {
        let latitude_packed: u32 = match quantize_lat(lat_e7) {
            Ok(v) => v,
            Err(e) => {
                return Err(e);
            },
        };
        let longitude_packed: u32 = match quantize_lon(lon_e7) {
            Ok(v) => v,
            Err(e) => {
                return Err(e);
            },
        };
        let altitude_packed: u16 = match quantize_alt(alt_mm) {
            Ok(v) => v,
            Err(e) => {
                return Err(e);
            },
        };
        let track_number: u16 = mask_track(track);
        Ok(J3_2AirTrack {
            track,
            latitude_packed,
            longitude_packed,
            track_number,
            altitude_packed,
            parity: 0,
            speed_ms,
            heading_cdeg,
        })
    }
}

/// Round-trip law: a packed body whose fields satisfy the width invariant
/// decodes, under any trailing padding, to the very report it was packed
/// from — bit for bit.
pub proof fn lemma_report_round_trip(r: J3_2AirTrack, tail: Seq<bool>)
    requires
        r.wf(),
    ensures
        J3_2AirTrack::report_of_bits(r.body_bits() + tail) == r,
{
    lemma2_to64();
    let s = r.body_bits() + tail;
    assert(s.subrange(0, 16) =~= field_bits(r.track as u64, 16));
    assert(s.subrange(16, 35) =~= field_bits(r.latitude_packed as u64, 19));
    assert(s.subrange(35, 54) =~= field_bits(r.longitude_packed as u64, 19));
    assert(s.subrange(54, 66) =~= field_bits(r.track_number as u64, 12));
    assert(s.subrange(66, 80) =~= field_bits(r.altitude_packed as u64, 14));
    assert(s.subrange(80, 85) =~= field_bits(r.parity as u64, 5));
    assert(s.subrange(85, 101) =~= field_bits(r.speed_ms as u64, 16));
    assert(s.subrange(101, 117) =~= field_bits(r.heading_cdeg as u64, 16));
    lemma_value_of_field_bits(r.track as u64, 16);
    lemma_value_of_field_bits(r.latitude_packed as u64, 19);
    lemma_value_of_field_bits(r.longitude_packed as u64, 19);
    lemma_value_of_field_bits(r.track_number as u64, 12);
    lemma_value_of_field_bits(r.altitude_packed as u64, 14);
    lemma_value_of_field_bits(r.parity as u64, 5);
    lemma_value_of_field_bits(r.speed_ms as u64, 16);
    lemma_value_of_field_bits(r.heading_cdeg as u64, 16);
}

} // verus!
