use vstd::arithmetic::div_mod::{lemma_fundamental_div_mod, lemma_fundamental_div_mod_converse};
use vstd::arithmetic::power2::{
    lemma2_to64,
    lemma2_to64_rest,
    lemma_pow2_pos,
    lemma_pow2_strictly_increases,
    lemma_pow2_unfold,
    pow2,
};
use vstd::prelude::*;

verus! {

/// How a real-valued amount is collapsed to a whole number of minor units.
#[derive(Debug, Clone, Copy, PartialEq, Eq, Structural)]
pub enum RoundingMode {
    /// To the nearest integer; exact halves go away from zero.
    Nearest,
    /// Toward negative infinity.
    Floor,
    /// Toward positive infinity.
    Ceil,
}

/// The quotient `n / d` (for `d > 0`) rounded to an integer under `mode`.
pub open spec fn round_ratio(n: int, d: int, mode: RoundingMode) -> int
    recommends
        d > 0,
{
    match mode {
        RoundingMode::Floor => n / d,
        RoundingMode::Ceil => -((-n) / d),
        RoundingMode::Nearest => if n >= 0 {
            (2 * n + d) / (2 * d)
        } else {
            -((-2 * n + d) / (2 * d))
        },
    }
}

/// What each policy means, for either sign of the quotient: Floor gives the
/// greatest integer not above `n / d`, Ceil the least integer not below it,
/// and Nearest an integer within one half of it, taking the one farther from
/// zero on an exact half.
pub proof fn lemma_round_ratio_meaning(n: int, d: int)
    requires
        d > 0,
    ensures
        round_ratio(n, d, RoundingMode::Floor) * d <= n < round_ratio(n, d, RoundingMode::Floor)
            * d + d,
        round_ratio(n, d, RoundingMode::Ceil) * d - d < n <= round_ratio(n, d, RoundingMode::Ceil)
            * d,
        -d <= 2 * (n - round_ratio(n, d, RoundingMode::Nearest) * d) <= d,
        2 * (n - round_ratio(n, d, RoundingMode::Nearest) * d) == d ==> n < 0,
        2 * (n - round_ratio(n, d, RoundingMode::Nearest) * d) == -d ==> n > 0,
{
    let m = if n >= 0 {
        n
    } else {
        -n
    };
    let q = m / d;
    let r = m % d;
    lemma_fundamental_div_mod(m, d);
    assert(m == q * d + r) by (nonlinear_arith)
        requires
            m == d * q + r,
    ;
    assert(q >= 0) by (nonlinear_arith)
        requires
            m >= 0,
            d > 0,
            q == m / d,
    ;
    lemma_round_split(m, d, q, r);
    assert((q + 1) * d == q * d + d) by (nonlinear_arith);
    assert((-(q + 1)) * d == -(q * d) - d) by (nonlinear_arith);
    assert((-q) * d == -(q * d)) by (nonlinear_arith);
}

/// The three policies are ordered, Floor <= Nearest <= Ceil, and Floor and
/// Ceil are at most one unit apart.
pub proof fn lemma_round_ratio_order(n: int, d: int)
    requires
        d > 0,
    ensures
        round_ratio(n, d, RoundingMode::Floor) <= round_ratio(n, d, RoundingMode::Nearest),
        round_ratio(n, d, RoundingMode::Nearest) <= round_ratio(n, d, RoundingMode::Ceil),
        round_ratio(n, d, RoundingMode::Ceil) <= round_ratio(n, d, RoundingMode::Floor) + 1,
{
    lemma_round_ratio_meaning(n, d);
    let f = round_ratio(n, d, RoundingMode::Floor);
    let c = round_ratio(n, d, RoundingMode::Ceil);
    let e = round_ratio(n, d, RoundingMode::Nearest);
    assert(f <= e) by (nonlinear_arith)
        requires
            d > 0,
            f * d <= n,
            n < f * d + d,
            2 * (n - e * d) <= d,
    ;
    assert(e <= c) by (nonlinear_arith)
        requires
            d > 0,
            c * d - d < n,
            n <= c * d,
            -d <= 2 * (n - e * d),
    ;
    assert(c <= f + 1) by (nonlinear_arith)
        requires
            d > 0,
            f * d <= n,
            n < f * d + d,
            c * d - d < n,
    ;
}

/// Negating the quotient mirrors the rounding: Floor of `-n / d` is minus
/// Ceil of `n / d`, Ceil is minus Floor, and Nearest is odd.
pub proof fn lemma_round_ratio_mirror(n: int, d: int)
    requires
        d > 0,
    ensures
        round_ratio(-n, d, RoundingMode::Floor) == -round_ratio(n, d, RoundingMode::Ceil),
        round_ratio(-n, d, RoundingMode::Ceil) == -round_ratio(n, d, RoundingMode::Floor),
        round_ratio(-n, d, RoundingMode::Nearest) == -round_ratio(n, d, RoundingMode::Nearest),
{
    if n == 0 {
        assert(0 == 0 * d + 0);
        lemma_round_split(0, d, 0, 0);
    }
}

/// The order of the policies carries over to doubles: Floor <= Nearest <=
/// Ceil, with Floor and Ceil at most one unit apart.
pub proof fn lemma_collapse_double_order(bits: u64)
    ensures
        collapse_double(bits, RoundingMode::Floor) <= collapse_double(bits, RoundingMode::Nearest),
        collapse_double(bits, RoundingMode::Nearest) <= collapse_double(bits, RoundingMode::Ceil),
        collapse_double(bits, RoundingMode::Ceil) <= collapse_double(bits, RoundingMode::Floor) + 1,
{
    if double_biased_exp(bits) != 2047 && double_exponent(bits) < 0 {
        let d = pow2((-double_exponent(bits)) as nat) as int;
        lemma_pow2_pos((-double_exponent(bits)) as nat);
        lemma_round_ratio_order(double_significand(bits), d);
    }
}

/// On a multiple of `d` every policy gives the exact quotient.
pub proof fn lemma_round_ratio_exact(k: int, d: int, mode: RoundingMode)
    requires
        d > 0,
    ensures
        round_ratio(k * d, d, mode) == k,
{
    let n = k * d;
    lemma_round_ratio_meaning(n, d);
    let f = round_ratio(n, d, RoundingMode::Floor);
    let c = round_ratio(n, d, RoundingMode::Ceil);
    let e = round_ratio(n, d, RoundingMode::Nearest);
    assert(f == k) by (nonlinear_arith)
        requires
            d > 0,
            f * d <= k * d,
            k * d < f * d + d,
    ;
    assert(c == k) by (nonlinear_arith)
        requires
            d > 0,
            c * d - d < k * d,
            k * d <= c * d,
    ;
    assert(e == k) by (nonlinear_arith)
        requires
            d > 0,
            -d <= 2 * (k * d - e * d) <= d,
            2 * (k * d - e * d) == d ==> k * d < 0,
            2 * (k * d - e * d) == -d ==> k * d > 0,
    ;
}

/// A finite double below the integer range of exponents whose value is
/// nonetheless the whole number `k` collapses to `k` (clamped to `i64`) under
/// every policy: re-rounding an amount that came back from major units
/// without error leaves it as it was. (With a non-negative exponent the value
/// is whole by construction, and `collapse_double` takes it as it is.)
pub proof fn lemma_collapse_whole_double(bits: u64, k: int, mode: RoundingMode)
    requires
        double_biased_exp(bits) != 2047,
        double_exponent(bits) < 0,
        double_significand(bits) == k * pow2((-double_exponent(bits)) as nat),
    ensures
        collapse_double(bits, mode) == saturate_i64(k),
{
    lemma_pow2_pos((-double_exponent(bits)) as nat);
    lemma_round_ratio_exact(k, pow2((-double_exponent(bits)) as nat) as int, mode);
}

/// `x` clamped to the range of `i64`, as a float-to-integer cast does.
pub open spec fn saturate_i64(x: int) -> int {
    if x < i64::MIN {
        i64::MIN as int
    } else if x > i64::MAX {
        i64::MAX as int
    } else {
        x
    }
}

/// Sign bit of an IEEE-754 double given by its bit pattern.
pub open spec fn double_sign(bits: u64) -> int {
    bits as int / 0x8000_0000_0000_0000
}

/// Biased exponent field (11 bits) of an IEEE-754 double.
pub open spec fn double_biased_exp(bits: u64) -> int {
    (bits as int / 0x10_0000_0000_0000) % 2048
}

/// Fraction field (52 bits) of an IEEE-754 double.
pub open spec fn double_fraction(bits: u64) -> int {
    bits as int % 0x10_0000_0000_0000
}

/// The signed integer significand `n` of a finite double, whose value is
/// `n * 2^double_exponent(bits)`.
pub open spec fn double_significand(bits: u64) -> int {
    let m = if double_biased_exp(bits) == 0 {
        double_fraction(bits)
    } else {
        double_fraction(bits) + 0x10_0000_0000_0000
    };
    if double_sign(bits) == 1 {
        -m
    } else {
        m
    }
}

/// The power of two that scales the significand of a finite double.
pub open spec fn double_exponent(bits: u64) -> int {
    if double_biased_exp(bits) == 0 {
        1 - 1075
    } else {
        double_biased_exp(bits) - 1075
    }
}

/// The whole number of minor units that the double with bit pattern `bits`
/// collapses to under `mode`: the exact value rounded by the policy and then
/// clamped to `i64`; NaN gives zero and an infinity the bound of its sign.
pub open spec fn collapse_double(bits: u64, mode: RoundingMode) -> int {
    if double_biased_exp(bits) == 2047 {
        if double_fraction(bits) != 0 {
            0
        } else if double_sign(bits) == 1 {
            i64::MIN as int
        } else {
            i64::MAX as int
        }
    } else if double_exponent(bits) >= 0 {
        saturate_i64(double_significand(bits) * pow2(double_exponent(bits) as nat))
    } else {
        saturate_i64(
            round_ratio(double_significand(bits), pow2((-double_exponent(bits)) as nat) as int, mode),
        )
    }
}

/// `2^k` as a machine integer.
fn pow2_u64(k: u64) -> (r: u64)
    requires
        k < 64,
    ensures
        r as nat == pow2(k as nat),
{
    let mut p: u64 = 1;
    let mut i: u64 = 0;
    proof {
        lemma2_to64();
    }
    while i < k
        invariant
            i <= k < 64,
            p as nat == pow2(i as nat),
        decreases k - i,
    {
        proof {
            lemma_pow2_unfold((i + 1) as nat);
            lemma_pow2_strictly_increases((i + 1) as nat, 64);
            lemma2_to64_rest();
        }
        p = p * 2;
        i = i + 1;
    }
    p
}

/// Rounding of a non-negative ratio `m / d` split as `m == q * d + r`.
proof fn lemma_round_split(m: int, d: int, q: int, r: int)
    requires
        d > 0,
        0 <= r < d,
        m == q * d + r,
        q >= 0,
    ensures
        round_ratio(m, d, RoundingMode::Floor) == q,
        round_ratio(m, d, RoundingMode::Ceil) == if r > 0 { q + 1 } else { q },
        round_ratio(m, d, RoundingMode::Nearest) == if 2 * r >= d { q + 1 } else { q },
        round_ratio(-m, d, RoundingMode::Floor) == if r > 0 { -(q + 1) } else { -q },
        round_ratio(-m, d, RoundingMode::Ceil) == -q,
        round_ratio(-m, d, RoundingMode::Nearest) == if m == 0 { 0 } else if 2 * r >= d {
            -(q + 1)
        } else {
            -q
        },
{
    lemma_fundamental_div_mod_converse(m, d, q, r);
    if r > 0 {
        assert(-m == (-(q + 1)) * d + (d - r)) by (nonlinear_arith)
            requires
                m == q * d + r,
        ;
        lemma_fundamental_div_mod_converse(-m, d, -(q + 1), d - r);
    } else {
        assert(-m == (-q) * d + 0) by (nonlinear_arith)
            requires
                m == q * d + r,
                r == 0,
        ;
        lemma_fundamental_div_mod_converse(-m, d, -q, 0);
    }
    if 2 * r >= d {
        assert(2 * m + d == (q + 1) * (2 * d) + (2 * r - d)) by (nonlinear_arith)
            requires
                m == q * d + r,
        ;
        lemma_fundamental_div_mod_converse(2 * m + d, 2 * d, q + 1, 2 * r - d);
    } else {
        assert(2 * m + d == q * (2 * d) + (2 * r + d)) by (nonlinear_arith)
            requires
                m == q * d + r,
        ;
        lemma_fundamental_div_mod_converse(2 * m + d, 2 * d, q, 2 * r + d);
    }
}

/// Collapses the IEEE-754 double whose bit pattern is `bits` to a whole
/// number of minor units under `mode`, with the semantics of `round`,
/// `floor` or `ceil` followed by a saturating cast to `i64`.
pub fn collapse_double_bits(bits: u64, mode: RoundingMode) -> (r: i64)
    ensures
        r as int == collapse_double(bits, mode),
{
    let negative: bool = bits / 0x8000_0000_0000_0000 == 1;
    let biased: u64 = (bits / 0x10_0000_0000_0000) % 2048;
    let fraction: u64 = bits % 0x10_0000_0000_0000;
    assert(negative == (double_sign(bits) == 1));
    if biased == 2047 {
        if fraction != 0 {
            return 0;
        } else if negative {
            return i64::MIN;
        } else {
            return i64::MAX;
        }
    }
    let m: u64 = if biased == 0 {
        fraction
    } else {
        fraction + 0x10_0000_0000_0000
    };
    let e: u64 = if biased == 0 {
        1
    } else {
        biased
    };
    assert(double_significand(bits) == if negative { -(m as int) } else { m as int });
    if e >= 1075 {
        let k: u64 = e - 1075;
        assert(double_exponent(bits) == k as int);
        if m == 0 {
            assert(double_significand(bits) == 0);
            return 0;
        }
        if k >= 11 {
            proof {
                lemma2_to64();
                if k > 11 {
                    lemma_pow2_strictly_increases(11, k as nat);
                }
                let p = pow2(k as nat) as int;
                assert(m as int * p >= 0x10_0000_0000_0000 * 0x800) by (nonlinear_arith)
                    requires
                        m as int >= 0x10_0000_0000_0000,
                        p >= 0x800,
                ;
                assert((-(m as int)) * p == -(m as int * p)) by (nonlinear_arith);
            }
            if negative {
                return i64::MIN;
            } else {
                return i64::MAX;
            }
        }
        let p: u64 = pow2_u64(k);
        proof {
            lemma2_to64();
            if k < 10 {
                lemma_pow2_strictly_increases(k as nat, 10);
            }
            assert(m * p < 0x8000_0000_0000_0000) by (nonlinear_arith)
                requires
                    m < 0x20_0000_0000_0000,
                    p <= 0x400,
            ;
            assert((-(m as int)) * p == -(m as int * p)) by (nonlinear_arith);
        }
        let v: i64 = (m * p) as i64;
        if negative {
            return -v;
        } else {
            return v;
        }
    }
    let k: u64 = 1075 - e;
    assert(double_exponent(bits) == -(k as int));
    if k >= 64 {
        proof {
            lemma2_to64();
            lemma2_to64_rest();
            if k > 64 {
                lemma_pow2_strictly_increases(64, k as nat);
            }
            lemma_round_split(m as int, pow2(k as nat) as int, 0, m as int);
        }
        match mode {
            RoundingMode::Floor => {
                if negative && m > 0 {
                    -1
                } else {
                    0
                }
            },
            RoundingMode::Ceil => {
                if !negative && m > 0 {
                    1
                } else {
                    0
                }
            },
            RoundingMode::Nearest => 0,
        }
    } else {
        let d: u64 = pow2_u64(k);
        proof {
            lemma_pow2_pos(k as nat);
        }
        let q: u64 = m / d;
        let rem: u64 = m % d;
        proof {
            lemma_fundamental_div_mod(m as int, d as int);
            lemma_round_split(m as int, d as int, q as int, rem as int);
        }
        let qi: i64 = q as i64;
        let up: bool = match mode {
            RoundingMode::Floor => negative && rem > 0,
            RoundingMode::Ceil => !negative && rem > 0,
            RoundingMode::Nearest => rem >= d - rem,
        };
        let mag: i64 = if up {
            qi + 1
        } else {
            qi
        };
        if negative {
            -mag
        } else {
            mag
        }
    }
}

} // verus!
