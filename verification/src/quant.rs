//! Quantization policy: pure fixed-point conversions from physical units to
//! the narrow integer codes of the wire format.
//!
//! Physical inputs arrive as exact fixed-point integers: latitude and
//! longitude in units of 1e-7 degree, altitude in millimetres. The scale
//! factors are the documented ones — latitude maps [-90, +90] degrees
//! linearly onto [0, 524287], longitude maps [-180, +180] onto the same
//! range, and altitude counts 25-foot steps with one metre = 3.28084 feet
//! (the exact rational 328084 / 100000). A scaled value that rounds to a
//! code outside its field's range is reported as `QuantizationOverflow`,
//! never silently wrapped.

use vstd::prelude::*;
use vstd::arithmetic::div_mod::{
    lemma_div_pos_is_pos, lemma_div_is_ordered, lemma_fundamental_div_mod_converse_div,
    lemma_multiply_divide_lt,
};
use crate::errors::{Error, QuantField};

verus! {

/// `n / d` rounded to the nearest integer, halves away from zero.
pub open spec fn round_to_nearest(n: int, d: int) -> int
    recommends
        d > 0,
{
    if n >= 0 {
        (2 * n + d) / (2 * d)
    } else {
        -((2 * (-n) + d) / (2 * d))
    }
}

/// Latitude code: round((lat_deg + 90) * 524287 / 180), with the latitude
/// given in 1e-7 degree units.
pub open spec fn lat_code(lat_e7: int) -> int {
    round_to_nearest((lat_e7 + 900_000_000) * 524287, 1_800_000_000)
}

/// Longitude code: round((lon_deg + 180) * 524287 / 360), with the longitude
/// given in 1e-7 degree units.
pub open spec fn lon_code(lon_e7: int) -> int {
    round_to_nearest((lon_e7 + 1_800_000_000) * 524287, 3_600_000_000)
}

/// Altitude code in 25-foot steps: round(alt_m * 3.28084 / 25), with the
/// altitude given in millimetres.
pub open spec fn alt_code(alt_mm: int) -> int {
    round_to_nearest(alt_mm * 328084, 2_500_000_000)
}

/// Round `n / d` to the nearest integer, halves away from zero.
fn round_div(n: i64, d: i64) -> (r: i64)
    requires
        0 < d <= 0x1_0000_0000,
        -0x10_0000_0000_0000 <= n <= 0x10_0000_0000_0000,
    ensures
        r == round_to_nearest(n as int, d as int),
{
    if n >= 0 {
        let num: u64 = 2 * (n as u64) + (d as u64);
        let q: u64 = num / (2 * (d as u64));
        proof {
            vstd::arithmetic::div_mod::lemma_div_nonincreasing(num as int, 2 * d as int);
        }
        q as i64
    } else {
        let m: u64 = (-n) as u64;
        let num: u64 = 2 * m + (d as u64);
        let q: u64 = num / (2 * (d as u64));
        proof {
            vstd::arithmetic::div_mod::lemma_div_nonincreasing(num as int, 2 * d as int);
        }
        -(q as i64)
    }
}

/// Quantize a latitude given in 1e-7 degree units to its 19-bit code, or
/// report overflow when the rounded code leaves [0, 524287].
pub fn quantize_lat(lat_e7: i32) -> (r: Result<u32, Error>)
    ensures
        0 <= lat_code(lat_e7 as int) <= 524287 ==> r == Ok::<u32, Error>(
            lat_code(lat_e7 as int) as u32,
        ),
        !(0 <= lat_code(lat_e7 as int) <= 524287) ==> r == Err::<u32, Error>(
            Error::QuantizationOverflow(QuantField::Latitude),
        ),
{
    let base: i64 = lat_e7 as i64 + 900_000_000;
    proof {
        assert(-3_100_000_000i64 * 524287 <= base * 524287 <= 3_100_000_000i64 * 524287)
            by (nonlinear_arith)
            requires
                -3_100_000_000 <= base <= 3_100_000_000,
        ;
    }
    let num: i64 = base * 524287;
    let code: i64 = round_div(num, 1_800_000_000);
    if 0 <= code && code <= 524287 {
        Ok(code as u32)
    } else {
        Err(Error::QuantizationOverflow(QuantField::Latitude))
    }
}

/// Quantize a longitude given in 1e-7 degree units to its 19-bit code, or
/// report overflow when the rounded code leaves [0, 524287].
pub fn quantize_lon(lon_e7: i32) -> (r: Result<u32, Error>)
    ensures
        0 <= lon_code(lon_e7 as int) <= 524287 ==> r == Ok::<u32, Error>(
            lon_code(lon_e7 as int) as u32,
        ),
        !(0 <= lon_code(lon_e7 as int) <= 524287) ==> r == Err::<u32, Error>(
            Error::QuantizationOverflow(QuantField::Longitude),
        ),
{
    let base: i64 = lon_e7 as i64 + 1_800_000_000;
    proof {
        assert(-4_000_000_000i64 * 524287 <= base * 524287 <= 4_000_000_000i64 * 524287)
            by (nonlinear_arith)
            requires
                -4_000_000_000 <= base <= 4_000_000_000,
        ;
    }
    let num: i64 = base * 524287;
    let code: i64 = round_div(num, 3_600_000_000);
    if 0 <= code && code <= 524287 {
        Ok(code as u32)
    } else {
        Err(Error::QuantizationOverflow(QuantField::Longitude))
    }
}

/// Quantize an altitude given in millimetres to its 14-bit code of 25-foot
/// steps, or report overflow when the rounded code leaves [0, 16383].
pub fn quantize_alt(alt_mm: i64) -> (r: Result<u16, Error>)
    ensures
        0 <= alt_code(alt_mm as int) <= 16383 ==> r == Ok::<u16, Error>(
            alt_code(alt_mm as int) as u16,
        ),
        !(0 <= alt_code(alt_mm as int) <= 16383) ==> r == Err::<u16, Error>(
            Error::QuantizationOverflow(QuantField::Altitude),
        ),
{
    if alt_mm > 10_000_000_000 {
        proof {
            let n = alt_mm as int * 328084;
            let d = 2_500_000_000int;
            assert(n >= 10_000_000_001int * 328084 > 16384 * (2 * d) + d) by (nonlinear_arith)
                requires
                    alt_mm as int >= 10_000_000_001,
                    n == alt_mm as int * 328084,
                    d == 2_500_000_000int,
            ;
            lemma_fundamental_div_mod_converse_div(16384 * (2 * d), 2 * d, 16384, 0);
            lemma_div_is_ordered(16384 * (2 * d), 2 * n + d, 2 * d);
            assert(alt_code(alt_mm as int) >= 16384);
        }
        return Err(Error::QuantizationOverflow(QuantField::Altitude));
    }
    if alt_mm < -10_000_000_000 {
        proof {
            let n = alt_mm as int * 328084;
            let m = -n;
            let d = 2_500_000_000int;
            assert(m >= 10_000_000_001int * 328084 > 2 * d) by (nonlinear_arith)
                requires
                    alt_mm as int <= -10_000_000_001,
                    m == -(alt_mm as int * 328084),
                    d == 2_500_000_000int,
            ;
            lemma_fundamental_div_mod_converse_div(1 * (2 * d), 2 * d, 1, 0);
            lemma_div_is_ordered(1 * (2 * d), 2 * m + d, 2 * d);
            assert(alt_code(alt_mm as int) <= -1);
        }
        return Err(Error::QuantizationOverflow(QuantField::Altitude));
    }
    proof {
        assert(-10_000_000_000i64 * 328084 <= alt_mm * 328084 <= 10_000_000_000i64 * 328084)
            by (nonlinear_arith)
            requires
                -10_000_000_000 <= alt_mm <= 10_000_000_000,
        ;
    }
    let num: i64 = alt_mm * 328084;
    let code: i64 = round_div(num, 2_500_000_000);
    if 0 <= code && code <= 16383 {
        Ok(code as u16)
    } else {
        Err(Error::QuantizationOverflow(QuantField::Altitude))
    }
}

/// Mask a 16-bit track identifier down to its 12-bit wire code. Lossy by
/// design: identifiers that differ only above bit 11 alias to one code.
pub fn mask_track(track: u16) -> (r: u16)
    ensures
        r == track & 0x0FFF,
        r < 0x1000,
{
    proof {
        assert(track & 0x0FFF < 0x1000) by (bit_vector);
    }
    track & 0x0FFF
}

/// Range soundness of the quantization policy: every physical input inside
/// the documented domain yields a code inside its field's width — latitude
/// in [-90, +90] degrees and longitude in [-180, +180] degrees (1e-7 degree
/// units) give codes in [0, 524287], and an altitude in millimetres whose
/// scaled value stays at or below 16383 steps gives a code in [0, 16383].
pub proof fn lemma_range_soundness(lat_e7: i32, lon_e7: i32, alt_mm: i64)
    requires
        -900_000_000 <= lat_e7 <= 900_000_000,
        -1_800_000_000 <= lon_e7 <= 1_800_000_000,
        0 <= alt_mm,
        alt_mm * 328084 <= 16383 * 2_500_000_000,
    ensures
        0 <= lat_code(lat_e7 as int) <= 524287,
        0 <= lon_code(lon_e7 as int) <= 524287,
        0 <= alt_code(alt_mm as int) <= 16383,
{
    let lat_n = (lat_e7 + 900_000_000) * 524287;
    assert(0 <= lat_n <= 1_800_000_000 * 524287) by (nonlinear_arith)
        requires
            0 <= lat_e7 + 900_000_000 <= 1_800_000_000,
            lat_n == (lat_e7 + 900_000_000) * 524287,
    ;
    lemma_div_pos_is_pos(2 * lat_n + 1_800_000_000, 2 * 1_800_000_000int);
    lemma_multiply_divide_lt(2 * lat_n + 1_800_000_000, 2 * 1_800_000_000int, 524288);

    let lon_n = (lon_e7 + 1_800_000_000) * 524287;
    assert(0 <= lon_n <= 3_600_000_000 * 524287) by (nonlinear_arith)
        requires
            0 <= lon_e7 + 1_800_000_000 <= 3_600_000_000,
            lon_n == (lon_e7 + 1_800_000_000) * 524287,
    ;
    lemma_div_pos_is_pos(2 * lon_n + 3_600_000_000, 2 * 3_600_000_000int);
    lemma_multiply_divide_lt(2 * lon_n + 3_600_000_000, 2 * 3_600_000_000int, 524288);

    let alt_n = alt_mm as int * 328084;
    assert(0 <= alt_n) by (nonlinear_arith)
        requires
            0 <= alt_mm as int,
            alt_n == alt_mm as int * 328084,
    ;
    lemma_div_pos_is_pos(2 * alt_n + 2_500_000_000, 2 * 2_500_000_000int);
    lemma_multiply_divide_lt(2 * alt_n + 2_500_000_000, 2 * 2_500_000_000int, 16384);
}

} // verus!
