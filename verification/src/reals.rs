//! The stream's excess-64, base-16 floating-point layout.
//!
//! A real value is stored as one sign-and-exponent byte (top bit the
//! sign, the remaining 7 bits the power-of-16 exponent biased by 64)
//! followed by 7 mantissa bytes (64-bit width) or 3 (32-bit width),
//! big-endian, with the radix point before the first mantissa bit:
//! `value = sign * mantissa * 16^(exponent - 64 - hexdigits)`, where
//! `hexdigits` is 14 for the 64-bit width and 6 for the 32-bit one.
//!
//! Native values are handled as their IEEE-754 bit patterns, and all
//! conversion is exact integer arithmetic.  A finite IEEE value is
//! `sig * 2^(k - one)` up to sign, where `sig` is the significand with
//! its hidden bit, `k` the exponent field (shifted to 1 for subnormal
//! values) and `one` a fixed scale: 1075 for 64-bit values, 150 for
//! 32-bit ones.

use vstd::prelude::*;
use vstd::arithmetic::power2::*;

verus! {

/// Number of binary digits of a value; 0 for 0.
pub open spec fn bitlen(m: nat) -> nat
    decreases m,
{
    if m == 0 {
        0
    } else {
        (1 + bitlen((m / 2) as nat)) as nat
    }
}

pub proof fn lemma_bitlen_bounds(m: nat)
    requires
        m >= 1,
    ensures
        bitlen(m) >= 1,
        pow2((bitlen(m) - 1) as nat) <= m < pow2(bitlen(m)),
    decreases m,
{
    lemma2_to64();
    if m == 1 {
        assert(bitlen(0) == 0);
        assert(bitlen(1) == 1);
    } else {
        let h: nat = (m / 2) as nat;
        lemma_bitlen_bounds(h);
        let bh: nat = bitlen(h);
        lemma_pow2_unfold((bh + 1) as nat);
        lemma_pow2_unfold(bh);
        vstd::arithmetic::div_mod::lemma_fundamental_div_mod(m as int, 2);
        assert(m == 2 * h + m % 2);
        assert(0 <= m % 2 < 2) by (nonlinear_arith);
        assert(bitlen(m) == 1 + bh);
        assert(2 * h >= 2 * pow2((bh - 1) as nat));
        assert(m < pow2((1 + bh) as nat));
    }
}

pub proof fn lemma_bitlen_exact(m: nat, n: nat)
    requires
        pow2(n) <= m < pow2(n + 1),
    ensures
        bitlen(m) == n + 1,
{
    lemma_pow2_pos(n);
    lemma_bitlen_bounds(m);
    let b: nat = bitlen(m);
    if b < n + 1 {
        if b < n {
            lemma_pow2_strictly_increases(b, n);
        }
        assert(false);
    }
    if b > n + 1 {
        if n + 1 < b - 1 {
            lemma_pow2_strictly_increases(n + 1, (b - 1) as nat);
        }
        assert(false);
    }
}

pub proof fn lemma_bitlen_le(m: nat, n: nat)
    requires
        m < pow2(n),
    ensures
        bitlen(m) <= n,
{
    if m >= 1 {
        lemma_bitlen_bounds(m);
        let b: nat = bitlen(m);
        if b > n {
            if n < b - 1 {
                lemma_pow2_strictly_increases(n, (b - 1) as nat);
            }
            assert(false);
        }
    }
}

pub proof fn lemma_bitlen_shift(m: nat, s: nat)
    requires
        m >= 1,
    ensures
        bitlen(m * pow2(s)) == bitlen(m) + s,
{
    lemma_bitlen_bounds(m);
    let b: nat = bitlen(m);
    lemma_pow2_pos(s);
    lemma_pow2_adds((b - 1) as nat, s);
    lemma_pow2_adds(b, s);
    assert(pow2((b - 1) as nat) * pow2(s) <= m * pow2(s)) by (nonlinear_arith)
        requires
            pow2((b - 1) as nat) <= m,
            pow2(s) >= 1,
    ;
    assert(m * pow2(s) < pow2(b) * pow2(s)) by (nonlinear_arith)
        requires
            m < pow2(b),
            pow2(s) >= 1,
    ;
    lemma_bitlen_exact(m * pow2(s), ((b + s) - 1) as nat);
}

/// Whether `m * 2^(k - one)` exceeds 1, i.e. `m * 2^k > 2^one`.
pub open spec fn val_gt_one(m: nat, k: int, one: int) -> bool {
    if k >= one {
        m * pow2((k - one) as nat) > 1
    } else {
        m > pow2((one - k) as nat)
    }
}

/// Whether `m * 2^(k - one)` is below 1/16, i.e. `m * 2^(k+4) < 2^one`.
pub open spec fn val_lt_sixteenth(m: nat, k: int, one: int) -> bool {
    if k + 4 >= one {
        m * pow2((k + 4 - one) as nat) < 1
    } else {
        m < pow2((one - k - 4) as nat)
    }
}

/// Repeated division of the value by 16, from exponent field `e`,
/// until the value is at most 1.  One fuel unit per step; the fuel
/// lies far beyond any exponent this format or IEEE-754 can carry, so
/// an exhausted result lies far outside the storable range 0..=127 and
/// is classified unencodable exactly like the true value.
pub open spec fn nexp_up(m: nat, k: int, one: int, e: int, fuel: nat) -> int
    decreases fuel,
{
    if fuel == 0 {
        e
    } else if val_gt_one(m, k, one) {
        nexp_up(m, k - 4, one, e + 1, (fuel - 1) as nat)
    } else {
        e
    }
}

/// Repeated multiplication of the value by 16, from exponent field
/// `e`, until the value reaches 1/16.
pub open spec fn nexp_down(m: nat, k: int, one: int, e: int, fuel: nat) -> int
    decreases fuel,
{
    if fuel == 0 {
        e
    } else if val_lt_sixteenth(m, k, one) {
        nexp_down(m, k + 4, one, e - 1, (fuel - 1) as nat)
    } else {
        e
    }
}

/// The stored exponent field that normalization of `m * 2^(k - one)`
/// reaches, starting from the bias 64: divide by 16 while the value
/// exceeds 1, multiply by 16 while it is below 1/16.
pub open spec fn nexp(m: nat, k: int, one: int) -> int {
    if val_lt_sixteenth(m, k, one) {
        nexp_down(m, k, one, 64, 1000)
    } else {
        nexp_up(m, k, one, 64, 1000)
    }
}

/// 2 to the power `n`.
pub fn pow2_u64(n: u64) -> (r: u64)
    requires
        n <= 63,
    ensures
        r == pow2(n as nat),
{
    proof {
        lemma2_to64();
    }
    let mut r: u64 = 1;
    let mut i: u64 = 0;
    while i < n
        invariant
            i <= n,
            n <= 63,
            r == pow2(i as nat),
        decreases n - i,
    {
        proof {
            lemma_pow2_unfold((i + 1) as nat);
            lemma_pow2_strictly_increases((i + 1) as nat, 64);
            lemma2_to64();
            lemma2_to64_rest();
        }
        r = r * 2;
        i = i + 1;
    }
    r
}

/// Number of binary digits of a value.
pub fn bitlen_u64(m: u64) -> (r: u64)
    ensures
        r == bitlen(m as nat),
{
    let mut t: u64 = m;
    let mut b: u64 = 0;
    proof {
        lemma2_to64();
        lemma2_to64_rest();
        lemma_bitlen_le(m as nat, 64);
    }
    while t > 0
        invariant
            b + bitlen(t as nat) == bitlen(m as nat),
            bitlen(m as nat) <= 64,
            b <= 64,
        decreases t,
    {
        proof {
            if t as nat >= 1 {
                lemma_bitlen_bounds(t as nat);
            }
        }
        t = t / 2;
        b = b + 1;
    }
    b
}

fn exec_val_gt_one(m: u64, k: i32, one: i32) -> (r: bool)
    requires
        1 <= m,
        0 <= one <= 2000,
        -3000 <= k <= 3000,
    ensures
        r == val_gt_one(m as nat, k as int, one as int),
{
    if k >= one {
        let d: i32 = k - one;
        if d >= 1 {
            proof {
                lemma2_to64();
                lemma_pow2_strictly_increases(0, d as nat);
                assert(m as nat * pow2(d as nat) >= 1 * 2) by (nonlinear_arith)
                    requires
                        m as nat >= 1,
                        pow2(d as nat) >= 2,
                ;
                assert(val_gt_one(m as nat, k as int, one as int));
            }
            true
        } else {
            proof {
                lemma2_to64();
                assert(d == 0);
                assert(m as nat * pow2(0) == m as nat);
                assert(val_gt_one(m as nat, k as int, one as int) == (m > 1));
            }
            m > 1
        }
    } else {
        let d: i32 = one - k;
        if d >= 64 {
            proof {
                lemma2_to64();
                lemma2_to64_rest();
                if 64 < d as nat {
                    lemma_pow2_strictly_increases(64, d as nat);
                }
                assert((m as nat) < pow2(64));
                assert(!val_gt_one(m as nat, k as int, one as int));
            }
            false
        } else {
            let p: u64 = pow2_u64(d as u64);
            m > p
        }
    }
}

fn exec_val_lt_sixteenth(m: u64, k: i32, one: i32) -> (r: bool)
    requires
        1 <= m,
        0 <= one <= 2000,
        -3000 <= k <= 3000,
    ensures
        r == val_lt_sixteenth(m as nat, k as int, one as int),
{
    if k + 4 >= one {
        proof {
            lemma_pow2_pos((k + 4 - one) as nat);
            assert(m as nat * pow2((k + 4 - one) as nat) >= 1 * 1) by (nonlinear_arith)
                requires
                    m as nat >= 1,
                    pow2((k + 4 - one) as nat) >= 1,
            ;
        }
        false
    } else {
        let d: i32 = one - k - 4;
        if d >= 64 {
            proof {
                lemma2_to64();
                lemma2_to64_rest();
                if 64 < d as nat {
                    lemma_pow2_strictly_increases(64, d as nat);
                }
            }
            true
        } else {
            let p: u64 = pow2_u64(d as u64);
            m < p
        }
    }
}

/// Normalization: from `m * 2^(k0 - one)` computes the stored exponent
/// field `e` and the remaining scale `kf = k0 - 4*(e - 64)`, leaving
/// the normalized value in the interval [1/16, 1].
fn norm_exp(m: u64, k0: i32, one: i32) -> (r: (i32, i32))
    requires
        1 <= m < 0x20000000000000,
        100 <= one <= 2000,
        1 <= k0 <= 2046,
    ensures
        r.0 == nexp(m as nat, k0 as int, one as int),
        r.1 == k0 - 4 * (r.0 - 64),
        !val_gt_one(m as nat, r.1 as int, one as int),
        !val_lt_sixteenth(m as nat, r.1 as int, one as int),
{
    let mut k: i32 = k0;
    let mut e: i32 = 64;
    if exec_val_lt_sixteenth(m, k, one) {
        proof {
            // below 1/16 forces k + 4 < one, hence not above 1
            if k + 4 >= one {
                lemma_pow2_pos((k + 4 - one) as nat);
                assert(m as nat * pow2((k + 4 - one) as nat) >= 1 * 1) by (nonlinear_arith)
                    requires
                        m as nat >= 1,
                        pow2((k + 4 - one) as nat) >= 1,
                ;
                assert(false);
            }
            lemma_pow2_strictly_increases((one - k - 4) as nat, (one - k) as nat);
        }
        while exec_val_lt_sixteenth(m, k, one)
            invariant
                1 <= m < 0x20000000000000,
                100 <= one <= 2000,
                1 <= k0 <= 2046,
                k0 - 4 * (e - 64) == k,
                k0 <= k < one,
                nexp(m as nat, k0 as int, one as int) == nexp_down(
                    m as nat,
                    k as int,
                    one as int,
                    e as int,
                    (1000 - (64 - e)) as nat,
                ),
                !val_gt_one(m as nat, k as int, one as int),
            decreases one - k,
        {
            proof {
                if k + 4 >= one {
                    lemma_pow2_pos((k + 4 - one) as nat);
                    assert(m as nat * pow2((k + 4 - one) as nat) >= 1 * 1) by (nonlinear_arith)
                        requires
                            m as nat >= 1,
                            pow2((k + 4 - one) as nat) >= 1,
                    ;
                    assert(false);
                }
            }
            k = k + 4;
            e = e - 1;
        }
        (e, k)
    } else {
        proof {
            lemma2_to64_rest();
            // not below 1/16 and m < 2^53 force k > one - 57
            if k + 4 < one {
                if (one - k - 4) as nat >= 53 {
                    if 53 < (one - k - 4) as nat {
                        lemma_pow2_strictly_increases(53, (one - k - 4) as nat);
                    }
                    assert(false);
                }
            }
        }
        while exec_val_gt_one(m, k, one)
            invariant
                1 <= m < 0x20000000000000,
                100 <= one <= 2000,
                1 <= k0 <= 2046,
                k0 - 4 * (e - 64) == k,
                one - 57 <= k <= k0,
                nexp(m as nat, k0 as int, one as int) == nexp_up(
                    m as nat,
                    k as int,
                    one as int,
                    e as int,
                    (1000 - (e - 64)) as nat,
                ),
                !val_lt_sixteenth(m as nat, k as int, one as int),
            decreases k + 3000,
        {
            proof {
                lemma2_to64_rest();
                // above 1 keeps k near one, and one step down stays at
                // or above 1/16
                if k < one {
                    if 53 <= (one - k) as nat {
                        if 53 < (one - k) as nat {
                            lemma_pow2_strictly_increases(53, (one - k) as nat);
                        }
                        assert(false);
                    }
                }
                if val_lt_sixteenth(m as nat, (k - 4) as int, one as int) {
                    if k >= one {
                        lemma_pow2_pos((k - one) as nat);
                        assert(m as nat * pow2((k - one) as nat) >= 1 * 1) by (nonlinear_arith)
                            requires
                                m as nat >= 1,
                                pow2((k - one) as nat) >= 1,
                        ;
                    }
                    assert(false);
                }
            }
            k = k - 4;
            e = e + 1;
        }
        (e, k)
    }
}

/// Exponent field of an IEEE-754 64-bit pattern.
pub open spec fn f64_exp(bits: u64) -> int {
    ((bits as int) / 0x10000000000000) % 0x800
}

/// Sign bit of an IEEE-754 64-bit pattern.
pub open spec fn f64_sign(bits: u64) -> int {
    (bits as int) / 0x8000000000000000
}

/// Fraction field of an IEEE-754 64-bit pattern.
pub open spec fn f64_frac(bits: u64) -> int {
    (bits as int) % 0x10000000000000
}

/// Significand with its hidden bit: the magnitude of the value is
/// `f64_sig * 2^(f64_k - 1075)`.
pub open spec fn f64_sig(bits: u64) -> nat {
    (f64_frac(bits) + if f64_exp(bits) > 0 {
        0x10000000000000int
    } else {
        0int
    }) as nat
}

/// Binary scale of the significand, with subnormal values shifted to
/// the scale of exponent field 1.
pub open spec fn f64_k(bits: u64) -> int {
    if f64_exp(bits) > 0 {
        f64_exp(bits)
    } else {
        1
    }
}

/// The stored base-16 exponent field that the 64-bit value normalizes
/// to.
pub open spec fn real64_nexp(bits: u64) -> int {
    nexp(f64_sig(bits), f64_k(bits), 1075)
}

/// Whether the 64-bit value is finite and its magnitude fits the
/// 7-bit excess-64 exponent (or is zero).
pub open spec fn real64_encodable(bits: u64) -> bool {
    f64_exp(bits) < 0x7FF && (f64_sig(bits) == 0 || (0 <= real64_nexp(bits) <= 127))
}

/// The stored mantissa: the normalized value scaled by `16^hexdigits`
/// and truncated, where the mantissa field is `w` bits wide.
pub open spec fn gds_mantissa(m: nat, kf: int, one: int, w: int) -> nat {
    if kf + w - one >= 0 {
        m * pow2((kf + w - one) as nat)
    } else {
        m / pow2((one - w - kf) as nat)
    }
}

/// The 8-byte stream encoding (as a big-endian 64-bit number) of an
/// IEEE-754 64-bit value.  Zero encodes with a bare bias byte; the
/// sign of a negative zero is dropped, as the sign test on the value
/// cannot see it.
pub open spec fn real64_to_gds(bits: u64) -> u64 {
    if f64_sig(bits) == 0 {
        0x4000000000000000
    } else {
        let ee: int = real64_nexp(bits);
        let kf: int = f64_k(bits) - 4 * (ee - 64);
        let man: nat = gds_mantissa(f64_sig(bits), kf, 1075, 56);
        (f64_sign(bits) * 0x8000000000000000 + ee * 0x100000000000000 + (man as int)
            % 0x100000000000000) as u64
    }
}

/// `q_num / 2^s`, rounded to nearest with ties to even.
pub open spec fn rne(q_num: nat, s: nat) -> nat {
    let d: nat = pow2(s);
    let q: nat = q_num / d;
    let r: nat = q_num % d;
    if 2 * r > d || (2 * r == d && q % 2 == 1) {
        (q + 1) as nat
    } else {
        q
    }
}

/// Sign bit of an 8-byte stream real.
pub open spec fn gds64_sign(raw: u64) -> int {
    (raw as int) / 0x8000000000000000
}

/// Excess-64 exponent field of an 8-byte stream real.
pub open spec fn gds64_exp(raw: u64) -> int {
    ((raw as int) / 0x100000000000000) % 0x80
}

/// 56-bit mantissa field of an 8-byte stream real.
pub open spec fn gds64_man(raw: u64) -> nat {
    ((raw as int) % 0x100000000000000) as nat
}

/// The IEEE-754 64-bit value (as bits) of an 8-byte stream real: the
/// mantissa rounded to 53 significant bits, ties to even, at the scale
/// `16^(exponent - 78)`.  The result is always a normal value or a
/// zero of the stored sign.
pub open spec fn real64_from_gds(raw: u64) -> u64 {
    let s: int = gds64_sign(raw);
    let ee: int = gds64_exp(raw);
    let man: nat = gds64_man(raw);
    if man == 0 {
        (s * 0x8000000000000000) as u64
    } else {
        let b: int = bitlen(man) as int;
        if b <= 53 {
            let m53: nat = man * pow2((53 - b) as nat);
            (s * 0x8000000000000000 + (4 * ee + 710 + b) * 0x10000000000000 + ((m53 as int)
                - 0x10000000000000)) as u64
        } else {
            let q: nat = rne(man, (b - 53) as nat);
            if q == 0x20000000000000 {
                (s * 0x8000000000000000 + (4 * ee + 711 + b) * 0x10000000000000) as u64
            } else {
                (s * 0x8000000000000000 + (4 * ee + 710 + b) * 0x10000000000000 + ((q as int)
                    - 0x10000000000000)) as u64
            }
        }
    }
}

/// Decodes an 8-byte stream real (given big-endian) to the IEEE-754
/// bit pattern of its value.  Total: every byte pattern decodes.
pub fn gds_real_decode(raw: u64) -> (bits: u64)
    ensures
        bits == real64_from_gds(raw),
{
    let s: u64 = raw / 0x8000000000000000;
    let ee: u64 = (raw / 0x100000000000000) % 0x80;
    let man: u64 = raw % 0x100000000000000;
    if man == 0 {
        return s * 0x8000000000000000;
    }
    let b: u64 = bitlen_u64(man);
    proof {
        lemma2_to64();
        lemma2_to64_rest();
        lemma_bitlen_bounds(man as nat);
        lemma_bitlen_le(man as nat, 56);
    }
    if b <= 53 {
        let p: u64 = pow2_u64(53 - b);
        proof {
            lemma_pow2_adds((b - 1) as nat, (53 - b) as nat);
            lemma_pow2_adds(b as nat, (53 - b) as nat);
            assert(pow2((b - 1) as nat) * pow2((53 - b) as nat) <= (man as nat) * pow2(
                (53 - b) as nat,
            )) by (nonlinear_arith)
                requires
                    pow2((b - 1) as nat) <= man as nat,
                    pow2((53 - b) as nat) >= 0,
            ;
            assert((man as nat) * pow2((53 - b) as nat) < pow2(b as nat) * pow2((53 - b) as nat))
                by (nonlinear_arith)
                requires
                    (man as nat) < pow2(b as nat),
                    pow2((53 - b) as nat) >= 1,
            ;
        }
        let m53: u64 = man * p;
        let e_u: u64 = 4 * ee + 710 + b;
        s * 0x8000000000000000 + e_u * 0x10000000000000 + (m53 - 0x10000000000000)
    } else {
        let sh: u64 = b - 53;
        let d: u64 = pow2_u64(sh);
        let q: u64 = man / d;
        let r: u64 = man % d;
        proof {
            lemma_pow2_adds(53, sh as nat);
            lemma_pow2_adds(52, sh as nat);
            lemma_pow2_pos(sh as nat);
            assert((man as nat) / pow2(sh as nat) < pow2(53)) by (nonlinear_arith)
                requires
                    (man as nat) < pow2(53) * pow2(sh as nat),
                    pow2(sh as nat) >= 1,
            ;
            assert(pow2(52) <= (man as nat) / pow2(sh as nat)) by (nonlinear_arith)
                requires
                    pow2(52) * pow2(sh as nat) <= man as nat,
                    pow2(sh as nat) >= 1,
            ;
        }
        let q2: u64 = if 2 * r > d || (2 * r == d && q % 2 == 1) {
            q + 1
        } else {
            q
        };
        if q2 == 0x20000000000000 {
            let e_u: u64 = 4 * ee + 711 + b;
            s * 0x8000000000000000 + e_u * 0x10000000000000
        } else {
            let e_u: u64 = 4 * ee + 710 + b;
            s * 0x8000000000000000 + e_u * 0x10000000000000 + (q2 - 0x10000000000000)
        }
    }
}

/// Encodes an IEEE-754 64-bit value (as bits) to its 8-byte stream
/// encoding, given as a big-endian 64-bit number.
pub fn gds_real_encode(bits: u64) -> (raw: u64)
    requires
        real64_encodable(bits),
    ensures
        raw == real64_to_gds(bits),
{
    let e_f: u64 = (bits / 0x10000000000000) % 0x800;
    let frac: u64 = bits % 0x10000000000000;
    let s: u64 = bits / 0x8000000000000000;
    let sig: u64 = if e_f > 0 {
        frac + 0x10000000000000
    } else {
        frac
    };
    if sig == 0 {
        return 0x4000000000000000;
    }
    let k0: i32 = if e_f > 0 {
        e_f as i32
    } else {
        1
    };
    let nk = norm_exp(sig, k0, 1075);
    let ee: i32 = nk.0;
    let kf: i32 = nk.1;
    proof {
        lemma2_to64_rest();
        // not below 1/16 at kf and sig < 2^53 force kf + 56 >= 1075
        if kf + 4 < 1075 {
            if (1075 - kf - 4) as nat >= 53 {
                if 53 < (1075 - kf - 4) as nat {
                    lemma_pow2_strictly_increases(53, (1075 - kf - 4) as nat);
                }
                assert(false);
            }
        }
        // not above 1 at kf bounds the mantissa by 2^56
        if kf >= 1075 {
            lemma_pow2_pos((kf - 1075) as nat);
            assert((sig as nat) * pow2((kf - 1075) as nat) >= sig as nat) by (nonlinear_arith)
                requires
                    pow2((kf - 1075) as nat) >= 1,
                    sig as nat >= 0,
            ;
        }
    }
    let sigma: u64 = (kf - 1019) as u64;
    let p: u64 = pow2_u64(sigma);
    proof {
        lemma_pow2_adds((1075 - kf) as nat, sigma as nat);
        if kf < 1075 {
            assert((sig as nat) * pow2(sigma as nat) <= pow2((1075 - kf) as nat) * pow2(
                sigma as nat,
            )) by (nonlinear_arith)
                requires
                    sig as nat <= pow2((1075 - kf) as nat),
                    pow2(sigma as nat) >= 0,
            ;
        }
    }
    let man: u64 = sig * p;
    let man_t: u64 = man % 0x100000000000000;
    s * 0x8000000000000000 + (ee as u64) * 0x100000000000000 + man_t
}

/// Whether the 64-bit value can be stored in the stream's layout.
pub fn real64_is_encodable(bits: u64) -> (r: bool)
    ensures
        r == real64_encodable(bits),
{
    let e_f: u64 = (bits / 0x10000000000000) % 0x800;
    let frac: u64 = bits % 0x10000000000000;
    if e_f == 0x7FF {
        return false;
    }
    let sig: u64 = if e_f > 0 {
        frac + 0x10000000000000
    } else {
        frac
    };
    if sig == 0 {
        return true;
    }
    let k0: i32 = if e_f > 0 {
        e_f as i32
    } else {
        1
    };
    let nk = norm_exp(sig, k0, 1075);
    0 <= nk.0 && nk.0 <= 127
}

/// Exponent field of an IEEE-754 32-bit pattern.
pub open spec fn f32_exp(bits: u32) -> int {
    ((bits as int) / 0x800000) % 0x100
}

/// Sign bit of an IEEE-754 32-bit pattern.
pub open spec fn f32_sign(bits: u32) -> int {
    (bits as int) / 0x80000000
}

/// Fraction field of an IEEE-754 32-bit pattern.
pub open spec fn f32_frac(bits: u32) -> int {
    (bits as int) % 0x800000
}

/// Significand with its hidden bit: the magnitude of the value is
/// `f32_sig * 2^(f32_k - 150)`.
pub open spec fn f32_sig(bits: u32) -> nat {
    (f32_frac(bits) + if f32_exp(bits) > 0 {
        0x800000int
    } else {
        0int
    }) as nat
}

/// Binary scale of the significand, with subnormal values shifted to
/// the scale of exponent field 1.
pub open spec fn f32_k(bits: u32) -> int {
    if f32_exp(bits) > 0 {
        f32_exp(bits)
    } else {
        1
    }
}

/// The stored base-16 exponent field that the 32-bit value normalizes
/// to.
pub open spec fn real32_nexp(bits: u32) -> int {
    nexp(f32_sig(bits), f32_k(bits), 150)
}

/// Whether the 32-bit value is finite and its magnitude fits the
/// 7-bit excess-64 exponent (or is zero).
pub open spec fn real32_encodable(bits: u32) -> bool {
    f32_exp(bits) < 0xFF && (f32_sig(bits) == 0 || (0 <= real32_nexp(bits) <= 127))
}

/// The 4-byte stream encoding (as a big-endian 32-bit number) of an
/// IEEE-754 32-bit value.  The 24-bit mantissa field can sit up to
/// three bits below the significand, so low bits may be truncated.
pub open spec fn real32_to_gds(bits: u32) -> u32 {
    if f32_sig(bits) == 0 {
        0x40000000
    } else {
        let ee: int = real32_nexp(bits);
        let kf: int = f32_k(bits) - 4 * (ee - 64);
        let man: nat = gds_mantissa(f32_sig(bits), kf, 150, 24);
        (f32_sign(bits) * 0x80000000 + ee * 0x1000000 + (man as int) % 0x1000000) as u32
    }
}

/// Sign bit of a 4-byte stream real.
pub open spec fn gds32_sign(raw: u32) -> int {
    (raw as int) / 0x80000000
}

/// Excess-64 exponent field of a 4-byte stream real.
pub open spec fn gds32_exp(raw: u32) -> int {
    ((raw as int) / 0x1000000) % 0x80
}

/// 24-bit mantissa field of a 4-byte stream real.
pub open spec fn gds32_man(raw: u32) -> nat {
    ((raw as int) % 0x1000000) as nat
}

/// Whether the value of a 4-byte stream real is zero or lands in the
/// normal range of an IEEE-754 32-bit value, where the conversion is
/// exact; the 24-bit mantissa always fits the significand, so no
/// rounding occurs.
pub open spec fn real32_decodable(raw: u32) -> bool {
    gds32_man(raw) == 0 || (1 <= 4 * gds32_exp(raw) + bitlen(gds32_man(raw)) - 154 <= 254)
}

/// The IEEE-754 32-bit value (as bits) of a 4-byte stream real whose
/// value is zero or in the normal range.
pub open spec fn real32_from_gds(raw: u32) -> u32 {
    let s: int = gds32_sign(raw);
    let ee: int = gds32_exp(raw);
    let man: nat = gds32_man(raw);
    if man == 0 {
        (s * 0x80000000) as u32
    } else {
        let b: int = bitlen(man) as int;
        let m24: nat = man * pow2((24 - b) as nat);
        (s * 0x80000000 + (4 * ee + b - 154) * 0x800000 + ((m24 as int) - 0x800000)) as u32
    }
}

/// Decodes a 4-byte stream real (given big-endian) whose value is
/// zero or in the 32-bit normal range.
pub fn gds_real32_decode(raw: u32) -> (bits: u32)
    requires
        real32_decodable(raw),
    ensures
        bits == real32_from_gds(raw),
{
    let s: u32 = raw / 0x80000000;
    let ee: u32 = (raw / 0x1000000) % 0x80;
    let man: u32 = raw % 0x1000000;
    if man == 0 {
        return s * 0x80000000;
    }
    let b: u64 = bitlen_u64(man as u64);
    proof {
        lemma2_to64();
        lemma_bitlen_bounds(man as nat);
        lemma_bitlen_le(man as nat, 24);
    }
    let p: u64 = pow2_u64(24 - b);
    proof {
        lemma_pow2_adds((b - 1) as nat, (24 - b) as nat);
        lemma_pow2_adds(b as nat, (24 - b) as nat);
        assert(pow2((b - 1) as nat) * pow2((24 - b) as nat) <= (man as nat) * pow2((24 - b) as nat))
            by (nonlinear_arith)
            requires
                pow2((b - 1) as nat) <= man as nat,
                pow2((24 - b) as nat) >= 0,
        ;
        assert((man as nat) * pow2((24 - b) as nat) < pow2(b as nat) * pow2((24 - b) as nat))
            by (nonlinear_arith)
            requires
                (man as nat) < pow2(b as nat),
                pow2((24 - b) as nat) >= 1,
        ;
    }
    let m24: u64 = (man as u64) * p;
    let e_u: u64 = 4 * (ee as u64) + b - 154;
    let out: u64 = (s as u64) * 0x80000000 + e_u * 0x800000 + (m24 - 0x800000);
    out as u32
}

/// Whether the 32-bit value can be stored in the stream's layout.
pub fn real32_is_encodable(bits: u32) -> (r: bool)
    ensures
        r == real32_encodable(bits),
{
    let e_f: u32 = (bits / 0x800000) % 0x100;
    let frac: u32 = bits % 0x800000;
    if e_f == 0xFF {
        return false;
    }
    let sig: u32 = if e_f > 0 {
        frac + 0x800000
    } else {
        frac
    };
    if sig == 0 {
        return true;
    }
    let k0: i32 = if e_f > 0 {
        e_f as i32
    } else {
        1
    };
    let nk = norm_exp(sig as u64, k0, 150);
    0 <= nk.0 && nk.0 <= 127
}

/// Encodes an IEEE-754 32-bit value (as bits) to its 4-byte stream
/// encoding, given as a big-endian 32-bit number.
pub fn gds_real32_encode(bits: u32) -> (raw: u32)
    requires
        real32_encodable(bits),
    ensures
        raw == real32_to_gds(bits),
{
    let e_f: u32 = (bits / 0x800000) % 0x100;
    let frac: u32 = bits % 0x800000;
    let s: u32 = bits / 0x80000000;
    let sig: u32 = if e_f > 0 {
        frac + 0x800000
    } else {
        frac
    };
    if sig == 0 {
        return 0x40000000;
    }
    let k0: i32 = if e_f > 0 {
        e_f as i32
    } else {
        1
    };
    let nk = norm_exp(sig as u64, k0, 150);
    let ee: i32 = nk.0;
    let kf: i32 = nk.1;
    proof {
        lemma2_to64();
        // not below 1/16 at kf and sig < 2^24 force kf + 24 >= 147
        if kf + 4 < 150 {
            if (150 - kf - 4) as nat >= 24 {
                if 24 < (150 - kf - 4) as nat {
                    lemma_pow2_strictly_increases(24, (150 - kf - 4) as nat);
                }
                assert(false);
            }
        }
        // not above 1 at kf bounds the mantissa by 2^24
        if kf >= 150 {
            lemma_pow2_pos((kf - 150) as nat);
            assert((sig as nat) * pow2((kf - 150) as nat) >= sig as nat) by (nonlinear_arith)
                requires
                    pow2((kf - 150) as nat) >= 1,
                    sig as nat >= 0,
            ;
            if kf > 150 {
                lemma_pow2_strictly_increases(0, (kf - 150) as nat);
                assert((sig as nat) * pow2((kf - 150) as nat) >= 1 * 2) by (nonlinear_arith)
                    requires
                        sig as nat >= 1,
                        pow2((kf - 150) as nat) >= 2,
                ;
                assert(false);
            }
        }
    }
    let man: u64 = if kf >= 126 {
        let p: u64 = pow2_u64((kf - 126) as u64);
        proof {
            lemma_pow2_adds((150 - kf) as nat, (kf - 126) as nat);
            if kf < 150 {
                assert((sig as nat) * pow2((kf - 126) as nat) <= pow2((150 - kf) as nat) * pow2(
                    (kf - 126) as nat,
                )) by (nonlinear_arith)
                    requires
                        sig as nat <= pow2((150 - kf) as nat),
                        pow2((kf - 126) as nat) >= 0,
                ;
            }
        }
        (sig as u64) * p
    } else {
        let p: u64 = pow2_u64((126 - kf) as u64);
        proof {
            lemma_pow2_pos((126 - kf) as nat);
        }
        (sig as u64) / p
    };
    let man_t: u64 = man % 0x1000000;
    let out: u64 = (s as u64) * 0x80000000 + (ee as u64) * 0x1000000 + man_t;
    out as u32
}

/// Reads an 8-byte stream real and returns the IEEE-754 bit pattern
/// of its 64-bit value.
pub fn bytes_to_gds_real(bytes: &[u8]) -> (r: u64)
    requires
        bytes@.len() == 8,
    ensures
        r == real64_from_gds(crate::utils::be8_val(bytes@)),
{
    let raw: u64 = (bytes[0] as u64) * 0x100000000000000 + (bytes[1] as u64) * 0x1000000000000 + (
    bytes[2] as u64) * 0x10000000000 + (bytes[3] as u64) * 0x100000000 + (bytes[4] as u64)
        * 0x1000000 + (bytes[5] as u64) * 0x10000 + (bytes[6] as u64) * 0x100 + (bytes[7] as u64);
    proof {
        assert(raw == crate::utils::be8_val(bytes@));
    }
    gds_real_decode(raw)
}

/// Writes the 64-bit value of an IEEE-754 bit pattern as its 8-byte
/// stream encoding.
pub fn gds_real_to_bytes(r: u64) -> (out: [u8; 8])
    requires
        real64_encodable(r),
    ensures
        out@ == crate::utils::be8(real64_to_gds(r)),
{
    let raw: u64 = gds_real_encode(r);
    let hi: u64 = raw / 0x100000000;
    let lo: u64 = raw % 0x100000000;
    let h1: u64 = hi / 0x10000;
    let h2: u64 = hi % 0x10000;
    let l1: u64 = lo / 0x10000;
    let l2: u64 = lo % 0x10000;
    let out: [u8; 8] = [
        (h1 / 0x100) as u8,
        (h1 % 0x100) as u8,
        (h2 / 0x100) as u8,
        (h2 % 0x100) as u8,
        (l1 / 0x100) as u8,
        (l1 % 0x100) as u8,
        (l2 / 0x100) as u8,
        (l2 % 0x100) as u8,
    ];
    proof {
        assert(out@ =~= crate::utils::be8(raw));
    }
    out
}

/// Reads a 4-byte stream real whose value is zero or in the 32-bit
/// normal range and returns the IEEE-754 bit pattern of its value.
pub fn bytes_to_gds_real32(bytes: &[u8]) -> (r: u32)
    requires
        bytes@.len() == 4,
        real32_decodable(crate::utils::be4_val(bytes@)),
    ensures
        r == real32_from_gds(crate::utils::be4_val(bytes@)),
{
    let raw: u32 = (bytes[0] as u32) * 0x1000000 + (bytes[1] as u32) * 0x10000 + (bytes[2] as u32)
        * 0x100 + (bytes[3] as u32);
    proof {
        assert(raw == crate::utils::be4_val(bytes@));
    }
    gds_real32_decode(raw)
}

/// Writes the 32-bit value of an IEEE-754 bit pattern as its 4-byte
/// stream encoding.
pub fn gds_real_32_to_bytes(r: u32) -> (out: [u8; 4])
    requires
        real32_encodable(r),
    ensures
        out@ == crate::utils::be4(real32_to_gds(r)),
{
    let raw: u32 = gds_real32_encode(r);
    let h1: u32 = raw / 0x10000;
    let h2: u32 = raw % 0x10000;
    let out: [u8; 4] = [
        (h1 / 0x100) as u8,
        (h1 % 0x100) as u8,
        (h2 / 0x100) as u8,
        (h2 % 0x100) as u8,
    ];
    proof {
        assert(out@ =~= crate::utils::be4(raw));
    }
    out
}

proof fn lemma_nexp_up_props(m: nat, k: int, one: int, e: int, fuel: nat)
    requires
        1 <= m,
        !val_lt_sixteenth(m, k, one),
        nexp_up(m, k, one, e, fuel) - e < fuel,
    ensures
        nexp_up(m, k, one, e, fuel) >= e,
        !val_gt_one(m, k - 4 * (nexp_up(m, k, one, e, fuel) - e), one),
        !val_lt_sixteenth(m, k - 4 * (nexp_up(m, k, one, e, fuel) - e), one),
    decreases fuel,
{
    if fuel == 0 {
    } else if val_gt_one(m, k, one) {
        // one step down from a value above 1 stays at or above 1/16
        if val_lt_sixteenth(m, (k - 4) as int, one) {
            if k >= one {
                lemma_pow2_pos((k - one) as nat);
                assert(m * pow2((k - one) as nat) >= 1 * 1) by (nonlinear_arith)
                    requires
                        m >= 1,
                        pow2((k - one) as nat) >= 1,
                ;
            }
            assert(false);
        }
        lemma_nexp_up_props(m, k - 4, one, e + 1, (fuel - 1) as nat);
    }
}

proof fn lemma_nexp_down_props(m: nat, k: int, one: int, e: int, fuel: nat)
    requires
        1 <= m,
        !val_gt_one(m, k, one),
        e - nexp_down(m, k, one, e, fuel) < fuel,
    ensures
        nexp_down(m, k, one, e, fuel) <= e,
        !val_gt_one(m, k + 4 * (e - nexp_down(m, k, one, e, fuel)), one),
        !val_lt_sixteenth(m, k + 4 * (e - nexp_down(m, k, one, e, fuel)), one),
    decreases fuel,
{
    if fuel == 0 {
    } else if val_lt_sixteenth(m, k, one) {
        // one step up from a value below 1/16 stays at or below 1
        if val_gt_one(m, (k + 4) as int, one) {
            if k + 4 >= one {
                lemma_pow2_pos((k + 4 - one) as nat);
                assert(m * pow2((k + 4 - one) as nat) >= 1 * 1) by (nonlinear_arith)
                    requires
                        m >= 1,
                        pow2((k + 4 - one) as nat) >= 1,
                ;
                assert(false);
            }
            lemma_pow2_strictly_increases((one - k - 4) as nat, (one - k) as nat);
            assert(false);
        }
        lemma_nexp_down_props(m, k + 4, one, e - 1, (fuel - 1) as nat);
    }
}

/// After normalization with a stored exponent in 0..=127, the value
/// sits in the interval [1/16, 1].
pub proof fn lemma_nexp_normalizes(m: nat, k: int, one: int)
    requires
        1 <= m,
        0 <= nexp(m, k, one) <= 127,
    ensures
        !val_gt_one(m, k - 4 * (nexp(m, k, one) - 64), one),
        !val_lt_sixteenth(m, k - 4 * (nexp(m, k, one) - 64), one),
{
    let ee: int = nexp(m, k, one);
    if val_lt_sixteenth(m, k, one) {
        // below 1/16 implies not above 1
        if val_gt_one(m, k, one) {
            if k + 4 >= one {
                lemma_pow2_pos((k + 4 - one) as nat);
                assert(m * pow2((k + 4 - one) as nat) >= 1 * 1) by (nonlinear_arith)
                    requires
                        m >= 1,
                        pow2((k + 4 - one) as nat) >= 1,
                ;
                assert(false);
            }
            lemma_pow2_strictly_increases((one - k - 4) as nat, (one - k) as nat);
            assert(false);
        }
        lemma_nexp_down_props(m, k, one, 64, 1000);
        assert(k - 4 * (ee - 64) == k + 4 * (64 - ee));
    } else {
        lemma_nexp_up_props(m, k, one, 64, 1000);
    }
}

/// The 64-bit values whose stream encoding decodes back to the same
/// bit pattern: zero, and every normal encodable value whose stored
/// mantissa keeps all its bits (it loses its top bit when the
/// magnitude is an exact power of 16, and up to three low bits can
/// never be lost because the mantissa field is wider than the
/// significand).
pub open spec fn real64_round_trip_safe(bits: u64) -> bool {
    bits == 0 || (1 <= f64_exp(bits) && real64_encodable(bits) && gds_mantissa(
        f64_sig(bits),
        f64_k(bits) - 4 * (real64_nexp(bits) - 64),
        1075,
        56,
    ) < 0x100000000000000)
}

/// Round trip of the 64-bit real codec: decoding an encoded value
/// restores the exact bit pattern, for every safe value.
pub proof fn lemma_real64_round_trip(bits: u64)
    requires
        real64_round_trip_safe(bits),
    ensures
        real64_from_gds(real64_to_gds(bits)) == bits,
{
    lemma2_to64();
    lemma2_to64_rest();
    if bits == 0 {
    } else {
        let s: int = f64_sign(bits);
        let e_f: int = f64_exp(bits);
        let frac: int = f64_frac(bits);
        let sig: nat = f64_sig(bits);
        let ee: int = real64_nexp(bits);
        let kf: int = f64_k(bits) - 4 * (ee - 64);
        let sigma: int = kf - 1019;
        let man: nat = gds_mantissa(sig, kf, 1075, 56);
        assert(sig >= 0x10000000000000);
        assert(sig < 0x20000000000000);
        lemma_nexp_normalizes(sig, e_f, 1075);
        // value in [1/16, 1] puts the scale within the mantissa field
        if kf + 4 < 1075 {
            if (1075 - kf - 4) as nat >= 53 {
                if 53 < (1075 - kf - 4) as nat {
                    lemma_pow2_strictly_increases(53, (1075 - kf - 4) as nat);
                }
                assert(false);
            }
        }
        assert(sigma >= 0);
        assert(man == sig * pow2(sigma as nat));
        // the mantissa keeps all 53 significand bits, so sigma <= 3
        lemma_pow2_adds(52, sigma as nat);
        assert(pow2(52) * pow2(sigma as nat) <= man) by (nonlinear_arith)
            requires
                pow2(52) <= sig,
                man == sig * pow2(sigma as nat),
                pow2(sigma as nat) >= 0,
        ;
        if sigma > 3 {
            if 56 < 52 + sigma {
                lemma_pow2_strictly_increases(56, (52 + sigma) as nat);
            }
            assert(false);
        }
        assert(man >= 0x10000000000000);
        assert(man < 0x100000000000000);
        let raw: int = s * 0x8000000000000000 + ee * 0x100000000000000 + man;
        assert(real64_to_gds(bits) == raw as u64);
        assert(0 <= ee <= 127);
        assert(0 <= s <= 1);
        // field extraction from the assembled encoding
        vstd::arithmetic::div_mod::lemma_fundamental_div_mod_converse(
            raw,
            0x100000000000000,
            s * 0x80 + ee,
            man as int,
        );
        vstd::arithmetic::div_mod::lemma_fundamental_div_mod_converse(s * 0x80 + ee, 0x80, s, ee);
        assert(gds64_man(raw as u64) == man);
        assert(gds64_exp(raw as u64) == ee);
        vstd::arithmetic::div_mod::lemma_fundamental_div_mod_converse(
            raw,
            0x8000000000000000,
            s,
            ee * 0x100000000000000 + man,
        );
        assert(gds64_sign(raw as u64) == s);
        // the mantissa's length locates the significand
        lemma_bitlen_exact(sig, 52);
        lemma_bitlen_shift(sig, sigma as nat);
        let b: int = bitlen(man) as int;
        assert(b == 53 + sigma);
        // the input bit pattern, rebuilt from its fields
        vstd::arithmetic::div_mod::lemma_fundamental_div_mod(bits as int, 0x10000000000000);
        vstd::arithmetic::div_mod::lemma_div_denominator(bits as int, 0x10000000000000, 0x800);
        vstd::arithmetic::div_mod::lemma_fundamental_div_mod(
            (bits as int) / 0x10000000000000,
            0x800,
        );
        assert(bits as int == s * 0x8000000000000000 + e_f * 0x10000000000000 + frac);
        assert(e_f == kf + 4 * (ee - 64));
        if sigma == 0 {
            assert(pow2(0) == 1);
            assert(man == sig) by (nonlinear_arith)
                requires
                    man == sig * pow2(0),
                    pow2(0) == 1,
            ;
            assert(real64_from_gds(raw as u64) == (s * 0x8000000000000000 + (4 * ee + 710 + b)
                * 0x10000000000000 + ((man * pow2(0)) as int - 0x10000000000000)) as u64);
            assert(4 * ee + 710 + b == e_f);
            assert(real64_from_gds(raw as u64) == bits);
        } else {
            // the stored mantissa is the significand shifted left, so
            // rounding removes only zero bits
            let d: nat = pow2(sigma as nat);
            vstd::arithmetic::div_mod::lemma_fundamental_div_mod_converse(
                man as int,
                d as int,
                sig as int,
                0,
            );
            assert(man / d == sig);
            assert(man % d == 0);
            assert(rne(man, sigma as nat) == sig);
            assert(4 * ee + 710 + b == e_f);
            assert(real64_from_gds(raw as u64) == (s * 0x8000000000000000 + (4 * ee + 710 + b)
                * 0x10000000000000 + (sig as int - 0x10000000000000)) as u64);
            assert(real64_from_gds(raw as u64) == bits);
        }
    }
}

} // verus!
