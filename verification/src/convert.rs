//! Between command integers and wire bit patterns.
//!
//! The wire carries velocities as IEEE-754 doubles; the simulation speaks in
//! small signed integers. Because the doubles of interest are exactly the
//! images of such integers, both directions are plain integer arithmetic on
//! the 64-bit patterns: `bits_of_i32` builds the pattern of the double a
//! peer would read back as the same integer, and `round_of_bits` rounds an
//! arbitrary pattern to the nearest integer, ties away from zero, saturating
//! at the `i32` range, with `NaN` going to zero.

use vstd::prelude::*;
use vstd::arithmetic::power2::*;
use vstd::arithmetic::div_mod::lemma_multiply_divide_lt;
use vstd::arithmetic::div_mod::lemma_fundamental_div_mod;
use vstd::arithmetic::div_mod::lemma_div_multiples_vanish_fancy;
use vstd::arithmetic::div_mod::lemma_mod_multiples_vanish;
use vstd::arithmetic::div_mod::lemma_mod_multiples_basic;
use vstd::arithmetic::div_mod::lemma_small_mod;
use vstd::arithmetic::mul::lemma_mul_inequality;
use vstd::arithmetic::mul::lemma_mul_strict_inequality;
use vstd::arithmetic::mul::lemma_mul_is_distributive_add;
use vstd::arithmetic::mul::lemma_mul_is_distributive_add_other_way;
use vstd::arithmetic::mul::lemma_mul_nonnegative;
use vstd::bits::lemma_u64_pow2_no_overflow;
use vstd::bits::lemma_u64_shl_is_mul;
use crate::codec::Vector3;
use crate::codec::VelocityMessage;
use crate::events::MoveEvent;

verus! {

/// The position of the highest set bit: the floor of the base-two logarithm
/// for a positive argument.
pub open spec fn msb_pos(n: nat) -> nat
    decreases n,
{
    if n <= 1 {
        0
    } else {
        msb_pos((n / 2) as nat) + 1
    }
}

/// `msb_pos` is exactly the floor of the base-two logarithm.
pub proof fn lemma_msb_pos_bounds(n: nat)
    requires
        n >= 1,
    ensures
        pow2(msb_pos(n)) <= n,
        n < pow2(msb_pos(n) + 1),
    decreases n,
{
    lemma2_to64();
    if n > 1 {
        let p = msb_pos((n / 2) as nat);
        lemma_msb_pos_bounds((n / 2) as nat);
        lemma_fundamental_div_mod(n as int, 2);
        lemma_pow2_adds(p, 1);
        lemma_pow2_adds(p + 1, 1);
    }
}

/// A value below `pow2(k + 1)` has its highest set bit at or below `k`.
pub proof fn lemma_msb_pos_le(n: nat, k: nat)
    requires
        n < pow2(k + 1),
    ensures
        msb_pos(n) <= k,
    decreases n,
{
    lemma2_to64();
    if n > 1 {
        assert(k >= 1);
        lemma_fundamental_div_mod(n as int, 2);
        lemma_pow2_adds(k, 1);
        assert(((n / 2) as nat) < pow2(k));
        lemma_msb_pos_le((n / 2) as nat, (k - 1) as nat);
    }
}

/// The bit pattern of the IEEE-754 double with an `i32`'s value. Every
/// `i32` is exactly representable, so the pattern is sign, biased exponent
/// `1023 + msb_pos(|v|)`, and the magnitude's lower bits shifted up into the
/// 52-bit mantissa field.
pub open spec fn spec_bits_of_i32(v: i32) -> u64 {
    if v == 0 {
        0u64
    } else {
        let mag = if v < 0 {
            -(v as int)
        } else {
            v as int
        };
        let p = msb_pos(mag as nat);
        let sign: int = if v < 0 {
            pow2(63) as int
        } else {
            0
        };
        (sign + (1023 + p) * pow2(52) + (mag - pow2(p)) * pow2((52 - p) as nat)) as u64
    }
}

/// The `i32` nearest to an IEEE-754 double, ties away from zero: zero for
/// `NaN`, the saturated bound when the rounded value leaves the `i32` range,
/// and otherwise the magnitude's integer part, plus one when the fractional
/// part is one half or more.
pub open spec fn spec_round_of_bits(b: u64) -> i32 {
    let sign = b as int / pow2(63) as int;
    let e = (b as int / pow2(52) as int) % 2048;
    let m = b as int % pow2(52) as int;
    if e == 2047 {
        if m != 0 {
            0i32
        } else if sign == 1 {
            i32::MIN
        } else {
            i32::MAX
        }
    } else if e < 1022 {
        0i32
    } else if e == 1022 {
        // magnitudes in [1/2, 1) round to one
        if sign == 1 {
            -1i32
        } else {
            1i32
        }
    } else if e >= 1054 {
        if sign == 1 {
            i32::MIN
        } else {
            i32::MAX
        }
    } else {
        let p = (e - 1023) as nat;
        let divisor = pow2((52 - p) as nat) as int;
        let significand = pow2(52) + m;
        let mag = significand / divisor + if 2 * (significand % divisor) >= divisor {
            1int
        } else {
            0int
        };
        if mag >= pow2(31) {
            if sign == 1 {
                i32::MIN
            } else {
                i32::MAX
            }
        } else if sign == 1 {
            (-mag) as i32
        } else {
            mag as i32
        }
    }
}

/// Two raised to the given exponent.
fn pow2_u64(e: u64) -> (r: u64)
    requires
        e <= 63,
    ensures
        r == pow2(e as nat),
{
    proof {
        lemma_u64_pow2_no_overflow(e as nat);
        lemma_u64_shl_is_mul(1u64, e);
    }
    1u64 << e
}

/// The position of the highest set bit of a positive word.
fn msb_index(n: u64) -> (r: u64)
    requires
        n >= 1,
    ensures
        r == msb_pos(n as nat),
        r <= 63,
    decreases n,
{
    proof {
        lemma2_to64();
        lemma2_to64_rest();
        lemma_msb_pos_le(n as nat, 63);
    }
    if n <= 1 {
        0
    } else {
        let rest = msb_index(n / 2);
        1 + rest
    }
}

/// The bit pattern of the double with this integer's value.
pub fn bits_of_i32(v: i32) -> (r: u64)
    ensures
        r == spec_bits_of_i32(v),
{
    if v == 0 {
        return 0;
    }
    let neg = v < 0;
    let mag: u64 = if neg {
        (-(v as i64)) as u64
    } else {
        v as u64
    };
    let p = msb_index(mag);
    proof {
        lemma_msb_pos_bounds(mag as nat);
        lemma2_to64();
        lemma2_to64_rest();
        if p >= 32 {
            lemma_pow2_strictly_increases(32, p as nat);
        }
        // the mantissa term stays below pow2(52)
        lemma_pow2_adds(p as nat, (52 - p) as nat);
        lemma_mul_strict_inequality(
            (mag - pow2(p as nat)) as int,
            pow2(p as nat) as int,
            pow2((52 - p) as nat) as int,
        );
        lemma_pow2_pos((52 - p) as nat);
        // the exponent term stays below 1055 * pow2(52)
        lemma_mul_inequality((1023 + p) as int, 1054, pow2(52) as int);
    }
    let low = pow2_u64(p);
    let scale = pow2_u64(52 - p);
    let mant: u64 = (mag - low) * scale;
    let exp_term: u64 = (1023 + p) * 0x10000000000000u64;
    let sign_term: u64 = if neg {
        0x8000000000000000u64
    } else {
        0u64
    };
    sign_term + exp_term + mant
}

/// Round the double with this bit pattern to the nearest integer, ties away
/// from zero, saturating at the `i32` range; `NaN` rounds to zero.
pub fn round_of_bits(b: u64) -> (r: i32)
    ensures
        r == spec_round_of_bits(b),
{
    proof {
        lemma2_to64();
        lemma2_to64_rest();
    }
    let sign: u64 = b / 0x8000000000000000u64;
    let e: u64 = (b / 0x10000000000000u64) % 2048;
    let m: u64 = b % 0x10000000000000u64;
    if e == 2047 {
        if m != 0 {
            0
        } else if sign == 1 {
            i32::MIN
        } else {
            i32::MAX
        }
    } else if e < 1022 {
        0
    } else if e == 1022 {
        if sign == 1 {
            -1
        } else {
            1
        }
    } else if e >= 1054 {
        if sign == 1 {
            i32::MIN
        } else {
            i32::MAX
        }
    } else {
        let p: u64 = e - 1023;
        let divisor = pow2_u64(52 - p);
        let significand: u64 = 0x10000000000000u64 + m;
        let quot: u64 = significand / divisor;
        let rem: u64 = significand % divisor;
        proof {
            lemma_pow2_adds((52 - p) as nat, (p + 1) as nat);
            lemma_multiply_divide_lt(
                significand as int,
                pow2((52 - p) as nat) as int,
                pow2((p + 1) as nat) as int,
            );
            if p + 1 < 31 {
                lemma_pow2_strictly_increases((p + 1) as nat, 31);
            }
        }
        let mag: u64 = if 2 * rem >= divisor {
            quot + 1
        } else {
            quot
        };
        if mag >= 0x80000000u64 {
            if sign == 1 {
                i32::MIN
            } else {
                i32::MAX
            }
        } else if sign == 1 {
            -(mag as i32)
        } else {
            mag as i32
        }
    }
}

/// The command a remotely received velocity record stands for.
pub open spec fn spec_command_of_velocity(m: VelocityMessage) -> MoveEvent {
    MoveEvent {
        rotation: spec_round_of_bits(m.angular.z),
        movement: spec_round_of_bits(m.linear.x),
        teleop: true,
    }
}

/// The velocity record a local command is published as: the movement on
/// `linear.x`, the rotation on `angular.z`, every other component zero.
pub open spec fn spec_velocity_of_command(movement: i32, rotation: i32) -> VelocityMessage {
    VelocityMessage {
        linear: Vector3 { x: spec_bits_of_i32(movement), y: 0, z: 0 },
        angular: Vector3 { x: 0, y: 0, z: spec_bits_of_i32(rotation) },
    }
}

/// The command a remotely received velocity record stands for: its planar
/// components rounded to integers, tagged as teleoperated so the tick
/// never publishes it back.
pub fn command_of_velocity(m: &VelocityMessage) -> (r: MoveEvent)
    ensures
        r == spec_command_of_velocity(*m),
        r.teleop,
{
    MoveEvent {
        rotation: round_of_bits(m.angular.z),
        movement: round_of_bits(m.linear.x),
        teleop: true,
    }
}

/// The two conversions are inverse: an integer sent out as the bit pattern
/// of its double comes back as the same integer when the pattern is rounded,
/// for every `i32`.
#[verifier::spinoff_prover]
#[verifier::rlimit(60)]
pub proof fn lemma_round_of_bits_of_i32(v: i32)
    ensures
        spec_round_of_bits(spec_bits_of_i32(v)) == v,
{
    lemma2_to64();
    lemma2_to64_rest();
    if v != 0 {
        let mag: int = if v < 0 {
            -(v as int)
        } else {
            v as int
        };
        let p = msb_pos(mag as nat);
        lemma_msb_pos_bounds(mag as nat);
        if p > 31 {
            lemma_pow2_strictly_increases(32, p);
        }
        assert(p <= 31);
        let ee: int = 1023 + p as int;
        let mm: int = (mag - pow2(p)) * pow2((52 - p) as nat);
        lemma_pow2_adds(p, (52 - p) as nat);
        lemma_pow2_adds(p, 1);
        lemma_pow2_adds(11, 52);
        lemma_pow2_adds(63, 1);
        lemma_pow2_pos((52 - p) as nat);
        lemma_pow2_pos(p);
        lemma_mul_strict_inequality(mag - pow2(p), pow2(p) as int, pow2((52 - p) as nat) as int);
        lemma_mul_nonnegative(mag - pow2(p), pow2((52 - p) as nat) as int);
        assert(0 <= mm < pow2(52));
        lemma_mul_inequality(ee, 1054, pow2(52) as int);
        lemma_mul_is_distributive_add_other_way(pow2(52) as int, 1054, 1);
        lemma_mul_inequality(1055, 2048, pow2(52) as int);
        let rem63: int = ee * pow2(52) + mm;
        assert(rem63 < pow2(63));
        let sign: int = if v < 0 {
            1
        } else {
            0
        };
        let b_int: int = pow2(63) as int * sign + rem63;
        assert(spec_bits_of_i32(v) == b_int as u64);
        assert(0 <= b_int < pow2(64));
        let b = spec_bits_of_i32(v);
        assert(b as int == b_int);
        lemma_div_multiples_vanish_fancy(sign, rem63, pow2(63) as int);
        assert(b_int / pow2(63) as int == sign);
        let q52: int = sign * 2048 + ee;
        assert(pow2(52) as int * q52 + mm == b_int) by {
            lemma_mul_is_distributive_add(pow2(52) as int, sign * 2048, ee);
            assert(pow2(52) as int * (sign * 2048) == pow2(63) as int * sign) by (nonlinear_arith)
                requires
                    pow2(63) == 2048 * pow2(52),
            ;
        }
        lemma_div_multiples_vanish_fancy(q52, mm, pow2(52) as int);
        assert(b_int / pow2(52) as int == q52);
        lemma_mod_multiples_vanish(sign, ee, 2048);
        lemma_small_mod(ee as nat, 2048);
        assert((b_int / pow2(52) as int) % 2048 == ee);
        lemma_mod_multiples_vanish(q52, mm, pow2(52) as int);
        lemma_small_mod(mm as nat, pow2(52));
        assert(b_int % pow2(52) as int == mm);
        if p == 31 {
            assert(mag == pow2(31));
            assert(v < 0);
            assert(v == i32::MIN);
            assert(ee == 1054);
            assert(spec_round_of_bits(b) == i32::MIN);
        } else {
            assert(ee < 1054);
            let d: int = pow2((52 - p) as nat) as int;
            assert(pow2(52) as int + mm == mag * d) by {
                lemma_mul_is_distributive_add_other_way(d, pow2(p) as int, mag - pow2(p));
            }
            lemma_div_multiples_vanish_fancy(mag, 0, d);
            assert(d * mag == mag * d) by (nonlinear_arith);
            assert((pow2(52) as int + mm) / d == mag);
            // the division is exact, so rounding adds nothing
            lemma_mod_multiples_basic(mag, d);
            assert((pow2(52) as int + mm) % d == 0);
            if p + 1 < 31 {
                lemma_pow2_strictly_increases((p + 1) as nat, 31);
            }
            assert(mag < pow2(31));
            assert(spec_round_of_bits(b) == v);
        }
    }
}

/// A command that echoes through the network comes back as itself: encoded,
/// decoded and rounded on the far side, it yields the same rotation and
/// movement, now tagged as teleoperated.
pub proof fn lemma_command_echo(movement: i32, rotation: i32)
    ensures
        ({
            let wire = crate::codec::spec_encode_velocity(
                spec_velocity_of_command(movement, rotation),
            );
            let back = crate::codec::spec_decode_velocity(wire);
            &&& back is Ok
            &&& spec_command_of_velocity(back->Ok_0) == (MoveEvent {
                rotation,
                movement,
                teleop: true,
            })
        }),
{
    let m = spec_velocity_of_command(movement, rotation);
    crate::codec::lemma_velocity_round_trip(m);
    lemma_round_of_bits_of_i32(movement);
    lemma_round_of_bits_of_i32(rotation);
}

/// The velocity record a local command is published as.
pub fn velocity_of_command(movement: i32, rotation: i32) -> (r: VelocityMessage)
    ensures
        r == spec_velocity_of_command(movement, rotation),
{
    VelocityMessage {
        linear: Vector3 { x: bits_of_i32(movement), y: 0, z: 0 },
        angular: Vector3 { x: 0, y: 0, z: bits_of_i32(rotation) },
    }
}

} // verus!
