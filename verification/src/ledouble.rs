use vstd::prelude::*;
use vstd::arithmetic::power2::{pow2, lemma_pow2_adds, lemma_pow2_strictly_increases, lemma_pow2_pos};
use vstd::arithmetic::mul::lemma_mul_inequality;
use vstd::arithmetic::div_mod::lemma_basic_div;
use crate::errors::UnpackError;

verus! {

/// The unsigned 64-bit integer held little-endian in an 8-byte sequence.
pub open spec fn le_u64_of(s: Seq<u8>) -> u64
    recommends
        s.len() == 8,
{
    (s[0] + s[1] * 0x100 + s[2] * 0x10000 + s[3] * 0x1000000 + s[4] * 0x100000000 + s[5]
        * 0x10000000000 + s[6] * 0x1000000000000 + s[7] * 0x100000000000000) as u64
}

/// The sign bit of an IEEE-754 double given by its bits.
pub open spec fn dbl_sign(bits: u64) -> u64 {
    bits / 0x8000000000000000
}

/// The 11-bit biased exponent of an IEEE-754 double given by its bits.
pub open spec fn dbl_exp(bits: u64) -> u64 {
    (bits / 0x10000000000000) % 0x800
}

/// The 52-bit fraction of an IEEE-754 double given by its bits.
pub open spec fn dbl_frac(bits: u64) -> u64 {
    bits % 0x10000000000000
}

/// The IEEE-754 double with the given bits, truncated toward zero to an
/// unsigned 64-bit integer the way a numeric cast does it: NaN and every
/// negative value give 0, positive infinity and every value beyond the
/// largest representable integer give `u64::MAX`, and any other value is
/// rounded toward zero. A finite nonzero double with biased exponent `e >= 1`
/// and fraction `f` has magnitude `(2^52 + f) * 2^(e - 1075)`; a biased
/// exponent of 0 marks a subnormal, whose magnitude is below 1.
pub open spec fn double_trunc(bits: u64) -> u64 {
    if dbl_sign(bits) == 1 {
        0
    } else if dbl_exp(bits) == 0x7ff {
        if dbl_frac(bits) == 0 {
            u64::MAX
        } else {
            0
        }
    } else if dbl_exp(bits) == 0 {
        0
    } else {
        let m = (0x10000000000000 + dbl_frac(bits)) as nat;
        let e = dbl_exp(bits) as int;
        if e >= 1075 {
            if m * pow2((e - 1075) as nat) > u64::MAX {
                u64::MAX
            } else {
                (m * pow2((e - 1075) as nat)) as u64
            }
        } else {
            (m / pow2((1075 - e) as nat)) as u64
        }
    }
}

/// The value the metadata decoder reads from 8 bytes: the bytes as a
/// little-endian IEEE-754 double, truncated to an unsigned integer.
pub open spec fn le_double_trunc(s: Seq<u8>) -> u64
    recommends
        s.len() == 8,
{
    double_trunc(le_u64_of(s))
}

/// 2 to the `e`, for `e < 64`, as a machine integer.
fn pow2_u64(e: u64) -> (r: u64)
    requires
        e < 64,
    ensures
        r == pow2(e as nat),
{
    let mut r: u64 = 1;
    let mut k: u64 = 0;
    proof {
        vstd::arithmetic::power2::lemma2_to64();
    }
    while k < e
        invariant
            k <= e < 64,
            r == pow2(k as nat),
        decreases e - k,
    {
        proof {
            vstd::arithmetic::power2::lemma2_to64();
            vstd::arithmetic::power2::lemma2_to64_rest();
            lemma_pow2_adds(k as nat, 1);
            assert(pow2(k as nat + 1) == pow2(k as nat) * 2);
            if k as nat + 1 < 64 {
                lemma_pow2_strictly_increases(k as nat + 1, 64);
            }
            assert(pow2(k as nat + 1) <= pow2(63) * 2);
        }
        r = r * 2;
        k = k + 1;
    }
    r
}

/// Truncate the IEEE-754 double with the given bits toward zero to an
/// unsigned 64-bit integer, saturating exactly as a numeric cast does.
pub fn double_bits_to_u64(bits: u64) -> (r: u64)
    ensures
        r == double_trunc(bits),
{
    let sign = bits / 0x8000000000000000;
    let exp = (bits / 0x10000000000000) % 0x800;
    let frac = bits % 0x10000000000000;
    if sign == 1 {
        0
    } else if exp == 0x7ff {
        if frac == 0 {
            u64::MAX
        } else {
            0
        }
    } else if exp == 0 {
        0
    } else {
        let m: u64 = 0x10000000000000 + frac;
        if exp >= 1075 {
            let sh = exp - 1075;
            if sh >= 12 {
                proof {
                    assert(pow2(12) == 4096) by {
                        vstd::arithmetic::power2::lemma2_to64();
                    }
                    assert(pow2(sh as nat) >= pow2(12)) by {
                        if sh > 12 {
                            lemma_pow2_strictly_increases(12, sh as nat);
                        }
                    }
                    assert(m * pow2(sh as nat) >= 0x10000000000000 * 4096) by {
                        lemma_mul_inequality(4096, pow2(sh as nat) as int, m as int);
                        lemma_mul_inequality(0x10000000000000, m as int, pow2(sh as nat) as int);
                    }
                }
                u64::MAX
            } else {
                let p = pow2_u64(sh);
                proof {
                    assert(pow2(11) == 2048) by {
                        vstd::arithmetic::power2::lemma2_to64();
                    }
                    assert(p <= 2048) by {
                        if sh < 11 {
                            lemma_pow2_strictly_increases(sh as nat, 11);
                        }
                    }
                    assert(m * p <= 0x1fffffffffffff * 2048) by {
                        lemma_mul_inequality(m as int, 0x1fffffffffffff, p as int);
                        lemma_mul_inequality(p as int, 2048, 0x1fffffffffffff);
                    }
                }
                m * p
            }
        } else {
            let sh = 1075 - exp;
            if sh >= 53 {
                proof {
                    assert(pow2(53) == 0x20000000000000) by {
                        vstd::arithmetic::power2::lemma2_to64_rest();
                    }
                    assert(pow2(sh as nat) >= pow2(53)) by {
                        if sh > 53 {
                            lemma_pow2_strictly_increases(53, sh as nat);
                        }
                    }
                    lemma_basic_div(m as int, pow2(sh as nat) as int);
                }
                0
            } else {
                let p = pow2_u64(sh);
                proof {
                    lemma_pow2_pos(sh as nat);
                }
                m / p
            }
        }
    }
}

/// Read the 8 bytes of `buf` starting at `index` as a little-endian IEEE-754
/// double and truncate it to an unsigned integer byte count; fewer than 8
/// bytes from `index` on is truncated metadata.
pub fn get_float_from_buf(buf: &Vec<u8>, index: usize) -> (r: Result<u64, UnpackError>)
    ensures
        index + 8 <= buf@.len() ==> r == Ok::<u64, UnpackError>(
            le_double_trunc(buf@.subrange(index as int, index + 8)),
        ),
        index + 8 > buf@.len() ==> r == Err::<u64, UnpackError>(UnpackError::TruncatedMetadata),
{
    if buf.len() < 8 || index > buf.len() - 8 {
        return Err(UnpackError::TruncatedMetadata);
    }
    let b0 = buf[index] as u64;
    let b1 = buf[index + 1] as u64;
    let b2 = buf[index + 2] as u64;
    let b3 = buf[index + 3] as u64;
    let b4 = buf[index + 4] as u64;
    let b5 = buf[index + 5] as u64;
    let b6 = buf[index + 6] as u64;
    let b7 = buf[index + 7] as u64;
    let bits: u64 = b0 + b1 * 0x100 + b2 * 0x10000 + b3 * 0x1000000 + b4 * 0x100000000 + b5
        * 0x10000000000 + b6 * 0x1000000000000 + b7 * 0x100000000000000;
    proof {
        let s = buf@.subrange(index as int, index + 8);
        assert(s[0] == buf@[index as int]);
        assert(s[1] == buf@[index + 1]);
        assert(s[2] == buf@[index + 2]);
        assert(s[3] == buf@[index + 3]);
        assert(s[4] == buf@[index + 4]);
        assert(s[5] == buf@[index + 5]);
        assert(s[6] == buf@[index + 6]);
        assert(s[7] == buf@[index + 7]);
        assert(bits == le_u64_of(s));
    }
    Ok(double_bits_to_u64(bits))
}

} // verus!
