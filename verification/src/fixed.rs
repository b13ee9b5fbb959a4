//! Fixed-point arithmetic on sample values.
//!
//! A sample value is an `i128` counting units of `10^-15`: the value `1.5`
//! is stored as `1_500_000_000_000_000`. All derived quantities (axis
//! bounds, tick intervals, axis scales) use the same representation, so
//! rounding a value to fifteen decimal places is the identity and every
//! comparison is exact. Where a computed quantity is not an exact multiple
//! of one unit it is rounded to the nearest unit, ties away from zero.

use vstd::prelude::*;

verus! {

/// Number of fixed-point units in the value one: `10^15`.
pub const UNIT: i128 = 1_000_000_000_000_000;

/// `10^e` as a mathematical integer.
pub open spec fn pow10_spec(e: nat) -> int
    decreases e,
{
    if e == 0 {
        1
    } else {
        10 * pow10_spec((e - 1) as nat)
    }
}

pub proof fn lemma_pow10_pos(e: nat)
    ensures
        pow10_spec(e) >= 1,
    decreases e,
{
    if e > 0 {
        lemma_pow10_pos((e - 1) as nat);
    }
}

pub proof fn lemma_pow10_increases(e1: nat, e2: nat)
    requires
        e1 <= e2,
    ensures
        pow10_spec(e1) <= pow10_spec(e2),
    decreases e2,
{
    if e1 < e2 {
        lemma_pow10_increases(e1, (e2 - 1) as nat);
        lemma_pow10_pos((e2 - 1) as nat);
    }
}

pub proof fn lemma_pow10_add(e1: nat, e2: nat)
    ensures
        pow10_spec(e1 + e2) == pow10_spec(e1) * pow10_spec(e2),
    decreases e1,
{
    if e1 == 0 {
    } else {
        lemma_pow10_add((e1 - 1) as nat, e2);
        assert(pow10_spec((e1 - 1) as nat + e2) == pow10_spec(((e1 + e2) - 1) as nat));
        assert(10 * (pow10_spec((e1 - 1) as nat) * pow10_spec(e2))
            == (10 * pow10_spec((e1 - 1) as nat)) * pow10_spec(e2)) by (nonlinear_arith);
    }
}

/// Nearest-integer division of non-negative `a` by positive `b`,
/// ties rounded up.
pub open spec fn round_div_nn(a: int, b: int) -> int {
    if 2 * (a % b) >= b {
        a / b + 1
    } else {
        a / b
    }
}

/// Nearest-integer division by a positive divisor, ties away from zero.
pub open spec fn round_div_spec(a: int, b: int) -> int {
    if a >= 0 {
        round_div_nn(a, b)
    } else {
        -round_div_nn(-a, b)
    }
}

/// Floor division by a positive divisor (Euclidean division).
pub open spec fn floor_div_spec(a: int, b: int) -> int {
    a / b
}

/// Ceiling division by a positive divisor.
pub open spec fn ceil_div_spec(a: int, b: int) -> int {
    -((-a) / b)
}

/// `10^e` for exponents that fit in an `i128`.
pub fn pow10(e: u32) -> (r: i128)
    requires
        e <= 38,
    ensures
        r == pow10_spec(e as nat),
{
    proof {
        lemma_pow10_38();
    }
    let mut r: i128 = 1;
    let mut i: u32 = 0;
    while i < e
        invariant
            i <= e <= 38,
            r == pow10_spec(i as nat),
        decreases e - i,
    {
        proof {
            lemma_pow10_increases((i + 1) as nat, 38);
            lemma_pow10_38();
            lemma_pow10_pos(i as nat);
            assert(pow10_spec((i + 1) as nat) == 10 * pow10_spec(i as nat));
            assert(10 * r <= pow10_spec(38));
        }
        r = r * 10;
        i = i + 1;
    }
    r
}

/// Division of non-negative magnitudes, rounded to the nearest integer
/// with ties up.
fn round_div_mag(a: u128, b: u128) -> (r: u128)
    requires
        b > 0,
    ensures
        r == round_div_nn(a as int, b as int),
        r <= a,
{
    let q = a / b;
    let rem = a % b;
    proof {
        vstd::arithmetic::div_mod::lemma_fundamental_div_mod(a as int, b as int);
        assert(q * b <= a) by (nonlinear_arith)
            requires
                q == a as int / b as int,
                b > 0,
                a as int == b as int * (a as int / b as int) + a as int % b as int,
                a as int % b as int >= 0;
        assert(2 * (a as int % b as int) >= b ==> q + 1 <= a) by (nonlinear_arith)
            requires
                q == a as int / b as int,
                b > 0,
                a as int == b as int * (a as int / b as int) + a as int % b as int,
                a as int % b as int >= 0,
                (a as int % b as int) < b;
    }
    if rem >= b - rem {
        // A tie or more than half: round up. With b == 1 the remainder is
        // zero, so rounding up only happens for b >= 2, where q + 1 <= a.
        q + 1
    } else {
        q
    }
}

/// Nearest-integer division by a positive divisor, ties away from zero.
pub fn round_div(a: i128, b: i128) -> (r: i128)
    requires
        b > 0,
        a > i128::MIN,
    ensures
        r == round_div_spec(a as int, b as int),
        a >= 0 ==> 0 <= r <= a,
        a <= 0 ==> a <= r <= 0,
{
    if a >= 0 {
        let m = round_div_mag(a as u128, b as u128);
        m as i128
    } else {
        let m = round_div_mag((-a) as u128, b as u128);
        -(m as i128)
    }
}

/// Floor division by a positive divisor.
pub fn floor_div(a: i128, b: i128) -> (r: i128)
    requires
        b > 0,
        a > i128::MIN,
    ensures
        r == floor_div_spec(a as int, b as int),
        a >= 0 ==> 0 <= r <= a,
        a <= 0 ==> a <= r <= 0,
{
    if a >= 0 {
        let q = (a as u128) / (b as u128);
        proof {
            vstd::arithmetic::div_mod::lemma_fundamental_div_mod(a as int, b as int);
            assert(q * b <= a) by (nonlinear_arith)
                requires
                    q == a as int / b as int,
                    b > 0,
                    a as int == b as int * (a as int / b as int) + a as int % b as int,
                    a as int % b as int >= 0;
        }
        q as i128
    } else {
        let au = (-a) as u128;
        let bu = b as u128;
        let qm = au / bu;
        let rm = au % bu;
        proof {
            vstd::arithmetic::div_mod::lemma_fundamental_div_mod(au as int, bu as int);
            if rm == 0 {
                assert(a as int == (-(qm as int)) * (b as int)) by (nonlinear_arith)
                    requires
                        a as int == -(au as int),
                        au as int == bu as int * (qm as int),
                        b == bu;
                vstd::arithmetic::div_mod::lemma_fundamental_div_mod_converse(
                    a as int, b as int, -(qm as int), 0);
            } else {
                assert(a as int == (-(qm as int) - 1) * (b as int) + ((b as int) - (rm as int)))
                    by (nonlinear_arith)
                    requires
                        a as int == -(au as int),
                        au as int == bu as int * (qm as int) + rm as int,
                        b == bu;
                vstd::arithmetic::div_mod::lemma_fundamental_div_mod_converse(
                    a as int, b as int, -(qm as int) - 1, (b as int) - (rm as int));
            }
            assert(qm * bu <= au) by (nonlinear_arith)
                requires
                    au as int == bu as int * (qm as int) + rm as int,
                    rm >= 0,
                    bu > 0,
                    qm >= 0;
            assert(rm != 0 ==> qm + 1 <= au) by (nonlinear_arith)
                requires
                    au as int == bu as int * (qm as int) + rm as int,
                    rm >= 0,
                    rm < bu,
                    bu > 0,
                    qm >= 0;
        }
        if rm == 0 {
            -(qm as i128)
        } else {
            -(qm as i128) - 1
        }
    }
}

/// Ceiling division by a positive divisor.
pub fn ceil_div(a: i128, b: i128) -> (r: i128)
    requires
        b > 0,
        i128::MIN < a < i128::MAX,
    ensures
        r == ceil_div_spec(a as int, b as int),
        a >= 0 ==> 0 <= r <= a + 1,
        a <= 0 ==> a <= r <= 0,
{
    let f = floor_div(-a, b);
    proof {
        assert(ceil_div_spec(a as int, b as int) == -floor_div_spec(-(a as int), b as int));
    }
    -f
}


/// Holds when `m - 15` is the nearest integer to the base-10 logarithm of
/// the value `r / 10^15` (`r` in units, `r >= 1`); ties cannot arise since
/// no power of ten with an odd exponent is a perfect square.
pub open spec fn is_log10_round(r: int, m: int) -> bool {
    &&& 0 <= m <= 38
    &&& (m == 0 || pow10_spec((2 * m - 1) as nat) <= r * r)
    &&& r * r < pow10_spec((2 * m + 1) as nat)
}

pub proof fn lemma_log10_round_unique(r: int, m1: int, m2: int)
    requires
        r >= 1,
        is_log10_round(r, m1),
        is_log10_round(r, m2),
    ensures
        m1 == m2,
{
    if m1 < m2 {
        lemma_pow10_increases((2 * m1 + 1) as nat, (2 * m2 - 1) as nat);
    }
    if m2 < m1 {
        lemma_pow10_increases((2 * m2 + 1) as nat, (2 * m1 - 1) as nat);
    }
}

/// Literal values of the powers of ten that the logarithm search uses.
#[verifier::rlimit(100)]
pub proof fn lemma_pow10_table()
    ensures
        pow10_spec(1) == 10,
        pow10_spec(3) == 1000,
        pow10_spec(5) == 100000,
        pow10_spec(7) == 10000000,
        pow10_spec(9) == 1000000000,
        pow10_spec(11) == 100000000000,
        pow10_spec(13) == 10000000000000,
        pow10_spec(15) == 1000000000000000,
        pow10_spec(17) == 100000000000000000,
        pow10_spec(19) == 10000000000000000000,
        pow10_spec(21) == 1000000000000000000000,
        pow10_spec(23) == 100000000000000000000000,
        pow10_spec(25) == 10000000000000000000000000,
        pow10_spec(27) == 1000000000000000000000000000,
        pow10_spec(29) == 100000000000000000000000000000,
        pow10_spec(31) == 10000000000000000000000000000000,
        pow10_spec(33) == 1000000000000000000000000000000000,
        pow10_spec(35) == 100000000000000000000000000000000000,
        pow10_spec(37) == 10000000000000000000000000000000000000,
        pow10_spec(39) == 1000000000000000000000000000000000000000,
        pow10_spec(41) == 100000000000000000000000000000000000000000,
        pow10_spec(43) == 10000000000000000000000000000000000000000000,
        pow10_spec(45) == 1000000000000000000000000000000000000000000000,
        pow10_spec(47) == 100000000000000000000000000000000000000000000000,
        pow10_spec(49) == 10000000000000000000000000000000000000000000000000,
        pow10_spec(51) == 1000000000000000000000000000000000000000000000000000,
        pow10_spec(53) == 100000000000000000000000000000000000000000000000000000,
        pow10_spec(55) == 10000000000000000000000000000000000000000000000000000000,
        pow10_spec(57) == 1000000000000000000000000000000000000000000000000000000000,
        pow10_spec(59) == 100000000000000000000000000000000000000000000000000000000000,
        pow10_spec(61) == 10000000000000000000000000000000000000000000000000000000000000,
        pow10_spec(63) == 1000000000000000000000000000000000000000000000000000000000000000,
        pow10_spec(65) == 100000000000000000000000000000000000000000000000000000000000000000,
        pow10_spec(67) == 10000000000000000000000000000000000000000000000000000000000000000000,
        pow10_spec(69) == 1000000000000000000000000000000000000000000000000000000000000000000000,
        pow10_spec(71) == 100000000000000000000000000000000000000000000000000000000000000000000000,
        pow10_spec(73) == 10000000000000000000000000000000000000000000000000000000000000000000000000,
        pow10_spec(75) == 1000000000000000000000000000000000000000000000000000000000000000000000000000,
        pow10_spec(38) == 100000000000000000000000000000000000000,
        pow10_spec(39) == 1000000000000000000000000000000000000000,
        pow10_spec(75) == 1000000000000000000000000000000000000000000000000000000000000000000000000000,
        pow10_spec(76) == 10000000000000000000000000000000000000000000000000000000000000000000000000000,
        pow10_spec(77) == 100000000000000000000000000000000000000000000000000000000000000000000000000000,
{
    reveal_with_fuel(pow10_spec, 80);
}

/// The integer part of `10^f * sqrt(10)`: the largest `t` with
/// `t * t < 10^(2f+1)`.
#[verifier::rlimit(100)]
fn sqrt10_floor(f: u32) -> (t: i128)
    requires
        f <= 37,
    ensures
        t >= 1,
        t * t < pow10_spec((2 * f + 1) as nat),
        (t + 1) * (t + 1) > pow10_spec((2 * f + 1) as nat),
{
    let t: i128 = match f {
        0 => {
            proof {
                lemma_pow10_table();
                assert(3int * 3int < pow10_spec(1));
                assert(4int * 4int > pow10_spec(1));
            }
            3
        },
        1 => {
            proof {
                lemma_pow10_table();
                assert(31int * 31int < pow10_spec(3));
                assert(32int * 32int > pow10_spec(3));
            }
            31
        },
        2 => {
            proof {
                lemma_pow10_table();
                assert(316int * 316int < pow10_spec(5));
                assert(317int * 317int > pow10_spec(5));
            }
            316
        },
        3 => {
            proof {
                lemma_pow10_table();
                assert(3162int * 3162int < pow10_spec(7));
                assert(3163int * 3163int > pow10_spec(7));
            }
            3162
        },
        4 => {
            proof {
                lemma_pow10_table();
                assert(31622int * 31622int < pow10_spec(9));
                assert(31623int * 31623int > pow10_spec(9));
            }
            31622
        },
        5 => {
            proof {
                lemma_pow10_table();
                assert(316227int * 316227int < pow10_spec(11));
                assert(316228int * 316228int > pow10_spec(11));
            }
            316227
        },
        6 => {
            proof {
                lemma_pow10_table();
                assert(3162277int * 3162277int < pow10_spec(13));
                assert(3162278int * 3162278int > pow10_spec(13));
            }
            3162277
        },
        7 => {
            proof {
                lemma_pow10_table();
                assert(31622776int * 31622776int < pow10_spec(15));
                assert(31622777int * 31622777int > pow10_spec(15));
            }
            31622776
        },
        8 => {
            proof {
                lemma_pow10_table();
                assert(316227766int * 316227766int < pow10_spec(17));
                assert(316227767int * 316227767int > pow10_spec(17));
            }
            316227766
        },
        9 => {
            proof {
                lemma_pow10_table();
                assert(3162277660int * 3162277660int < pow10_spec(19));
                assert(3162277661int * 3162277661int > pow10_spec(19));
            }
            3162277660
        },
        10 => {
            proof {
                lemma_pow10_table();
                assert(31622776601int * 31622776601int < pow10_spec(21));
                assert(31622776602int * 31622776602int > pow10_spec(21));
            }
            31622776601
        },
        11 => {
            proof {
                lemma_pow10_table();
                assert(316227766016int * 316227766016int < pow10_spec(23));
                assert(316227766017int * 316227766017int > pow10_spec(23));
            }
            316227766016
        },
        12 => {
            proof {
                lemma_pow10_table();
                assert(3162277660168int * 3162277660168int < pow10_spec(25));
                assert(3162277660169int * 3162277660169int > pow10_spec(25));
            }
            3162277660168
        },
        13 => {
            proof {
                lemma_pow10_table();
                assert(31622776601683int * 31622776601683int < pow10_spec(27));
                assert(31622776601684int * 31622776601684int > pow10_spec(27));
            }
            31622776601683
        },
        14 => {
            proof {
                lemma_pow10_table();
                assert(316227766016837int * 316227766016837int < pow10_spec(29));
                assert(316227766016838int * 316227766016838int > pow10_spec(29));
            }
            316227766016837
        },
        15 => {
            proof {
                lemma_pow10_table();
                assert(3162277660168379int * 3162277660168379int < pow10_spec(31));
                assert(3162277660168380int * 3162277660168380int > pow10_spec(31));
            }
            3162277660168379
        },
        16 => {
            proof {
                lemma_pow10_table();
                assert(31622776601683793int * 31622776601683793int < pow10_spec(33));
                assert(31622776601683794int * 31622776601683794int > pow10_spec(33));
            }
            31622776601683793
        },
        17 => {
            proof {
                lemma_pow10_table();
                assert(316227766016837933int * 316227766016837933int < pow10_spec(35));
                assert(316227766016837934int * 316227766016837934int > pow10_spec(35));
            }
            316227766016837933
        },
        18 => {
            proof {
                lemma_pow10_table();
                assert(3162277660168379331int * 3162277660168379331int < pow10_spec(37));
                assert(3162277660168379332int * 3162277660168379332int > pow10_spec(37));
            }
            3162277660168379331
        },
        19 => {
            proof {
                lemma_pow10_table();
                assert(31622776601683793319int * 31622776601683793319int < pow10_spec(39));
                assert(31622776601683793320int * 31622776601683793320int > pow10_spec(39));
            }
            31622776601683793319
        },
        20 => {
            proof {
                lemma_pow10_table();
                assert(316227766016837933199int * 316227766016837933199int < pow10_spec(41));
                assert(316227766016837933200int * 316227766016837933200int > pow10_spec(41));
            }
            316227766016837933199
        },
        21 => {
            proof {
                lemma_pow10_table();
                assert(3162277660168379331998int * 3162277660168379331998int < pow10_spec(43));
                assert(3162277660168379331999int * 3162277660168379331999int > pow10_spec(43));
            }
            3162277660168379331998
        },
        22 => {
            proof {
                lemma_pow10_table();
                assert(31622776601683793319988int * 31622776601683793319988int < pow10_spec(45));
                assert(31622776601683793319989int * 31622776601683793319989int > pow10_spec(45));
            }
            31622776601683793319988
        },
        23 => {
            proof {
                lemma_pow10_table();
                assert(316227766016837933199889int * 316227766016837933199889int < pow10_spec(47));
                assert(316227766016837933199890int * 316227766016837933199890int > pow10_spec(47));
            }
            316227766016837933199889
        },
        24 => {
            proof {
                lemma_pow10_table();
                assert(3162277660168379331998893int * 3162277660168379331998893int < pow10_spec(49));
                assert(3162277660168379331998894int * 3162277660168379331998894int > pow10_spec(49));
            }
            3162277660168379331998893
        },
        25 => {
            proof {
                lemma_pow10_table();
                assert(31622776601683793319988935int * 31622776601683793319988935int < pow10_spec(51));
                assert(31622776601683793319988936int * 31622776601683793319988936int > pow10_spec(51));
            }
            31622776601683793319988935
        },
        26 => {
            proof {
                lemma_pow10_table();
                assert(316227766016837933199889354int * 316227766016837933199889354int < pow10_spec(53));
                assert(316227766016837933199889355int * 316227766016837933199889355int > pow10_spec(53));
            }
            316227766016837933199889354
        },
        27 => {
            proof {
                lemma_pow10_table();
                assert(3162277660168379331998893544int * 3162277660168379331998893544int < pow10_spec(55));
                assert(3162277660168379331998893545int * 3162277660168379331998893545int > pow10_spec(55));
            }
            3162277660168379331998893544
        },
        28 => {
            proof {
                lemma_pow10_table();
                assert(31622776601683793319988935444int * 31622776601683793319988935444int < pow10_spec(57));
                assert(31622776601683793319988935445int * 31622776601683793319988935445int > pow10_spec(57));
            }
            31622776601683793319988935444
        },
        29 => {
            proof {
                lemma_pow10_table();
                assert(316227766016837933199889354443int * 316227766016837933199889354443int < pow10_spec(59));
                assert(316227766016837933199889354444int * 316227766016837933199889354444int > pow10_spec(59));
            }
            316227766016837933199889354443
        },
        30 => {
            proof {
                lemma_pow10_table();
                assert(3162277660168379331998893544432int * 3162277660168379331998893544432int < pow10_spec(61));
                assert(3162277660168379331998893544433int * 3162277660168379331998893544433int > pow10_spec(61));
            }
            3162277660168379331998893544432
        },
        31 => {
            proof {
                lemma_pow10_table();
                assert(31622776601683793319988935444327int * 31622776601683793319988935444327int < pow10_spec(63));
                assert(31622776601683793319988935444328int * 31622776601683793319988935444328int > pow10_spec(63));
            }
            31622776601683793319988935444327
        },
        32 => {
            proof {
                lemma_pow10_table();
                assert(316227766016837933199889354443271int * 316227766016837933199889354443271int < pow10_spec(65));
                assert(316227766016837933199889354443272int * 316227766016837933199889354443272int > pow10_spec(65));
            }
            316227766016837933199889354443271
        },
        33 => {
            proof {
                lemma_pow10_table();
                assert(3162277660168379331998893544432718int * 3162277660168379331998893544432718int < pow10_spec(67));
                assert(3162277660168379331998893544432719int * 3162277660168379331998893544432719int > pow10_spec(67));
            }
            3162277660168379331998893544432718
        },
        34 => {
            proof {
                lemma_pow10_table();
                assert(31622776601683793319988935444327185int * 31622776601683793319988935444327185int < pow10_spec(69));
                assert(31622776601683793319988935444327186int * 31622776601683793319988935444327186int > pow10_spec(69));
            }
            31622776601683793319988935444327185
        },
        35 => {
            proof {
                lemma_pow10_table();
                assert(316227766016837933199889354443271853int * 316227766016837933199889354443271853int < pow10_spec(71));
                assert(316227766016837933199889354443271854int * 316227766016837933199889354443271854int > pow10_spec(71));
            }
            316227766016837933199889354443271853
        },
        36 => {
            proof {
                lemma_pow10_table();
                assert(3162277660168379331998893544432718533int * 3162277660168379331998893544432718533int < pow10_spec(73));
                assert(3162277660168379331998893544432718534int * 3162277660168379331998893544432718534int > pow10_spec(73));
            }
            3162277660168379331998893544432718533
        },
        37 => {
            proof {
                lemma_pow10_table();
                assert(31622776601683793319988935444327185337int * 31622776601683793319988935444327185337int < pow10_spec(75));
                assert(31622776601683793319988935444327185338int * 31622776601683793319988935444327185338int > pow10_spec(75));
            }
            31622776601683793319988935444327185337
        },
        _ => {
            proof {
                lemma_pow10_table();
                assert(31622776601683793319988935444327185337int * 31622776601683793319988935444327185337int < pow10_spec(75));
                assert(31622776601683793319988935444327185338int * 31622776601683793319988935444327185338int > pow10_spec(75));
            }
            31622776601683793319988935444327185337
        },
    };
    t
}

/// Shifted rounded base-10 logarithm: for `r` units of `10^-15`, returns
/// the `m` with `round(log10(r / 10^15)) == m - 15`.
pub fn log10_round(r: i128) -> (m: u32)
    requires
        r >= 1,
    ensures
        is_log10_round(r as int, m as int),
{
    let ru = r as u128;
    let mut p: u128 = 1;
    let mut f: u32 = 0;
    while f < 38 && ru / 10 >= p
        invariant
            r >= 1,
            ru == r,
            f <= 38,
            p == pow10_spec(f as nat),
            ru >= p,
        decreases 38 - f,
    {
        proof {
            vstd::arithmetic::div_mod::lemma_fundamental_div_mod(ru as int, 10);
            assert(10 * p <= ru);
        }
        p = p * 10;
        f = f + 1;
    }
    if f >= 38 {
        proof {
            lemma_pow10_table();
            assert(pow10_spec(75) <= r * r && r * r < pow10_spec(77)) by (nonlinear_arith)
                requires
                    r as int >= pow10_spec(38),
                    r <= i128::MAX,
                    pow10_spec(38) == 100000000000000000000000000000000000000,
                    pow10_spec(75) == 1000000000000000000000000000000000000000000000000000000000000000000000000000,
                    pow10_spec(77) == 100000000000000000000000000000000000000000000000000000000000000000000000000000;
        }
        38
    } else {
        // Here 10^f <= r < 10^(f+1).
        proof {
            vstd::arithmetic::div_mod::lemma_fundamental_div_mod(ru as int, 10);
            assert(ru < 10 * p);
        }
        let t = sqrt10_floor(f);
        if r > t {
            proof {
                lemma_pow10_add(1, f as nat);
                lemma_pow10_add(1, (f + 1) as nat);
                lemma_pow10_add((f + 1) as nat, (f + 2) as nat);
                lemma_pow10_table();
                lemma_pow10_pos(f as nat);
                lemma_pow10_increases((f + 1) as nat, (f + 2) as nat);
                assert(pow10_spec((2 * f + 1) as nat) <= r * r) by (nonlinear_arith)
                    requires
                        r as int >= t + 1,
                        t >= 1,
                        (t + 1) * (t + 1) > pow10_spec((2 * f + 1) as nat);
                assert(r * r < pow10_spec((2 * f + 3) as nat)) by (nonlinear_arith)
                    requires
                        1 <= r as int,
                        (r as int) < pow10_spec((f + 1) as nat),
                        pow10_spec((2 * f + 3) as nat)
                            == pow10_spec((f + 1) as nat) * pow10_spec((f + 2) as nat),
                        pow10_spec((f + 1) as nat) <= pow10_spec((f + 2) as nat);
            }
            f + 1
        } else {
            proof {
                lemma_pow10_add(f as nat, f as nat);
                lemma_pow10_pos(f as nat);
                if f > 0 {
                    lemma_pow10_increases((2 * f - 1) as nat, (2 * f) as nat);
                }
                assert(pow10_spec((2 * f) as nat) <= r * r) by (nonlinear_arith)
                    requires
                        r as int >= pow10_spec(f as nat),
                        pow10_spec(f as nat) >= 1,
                        pow10_spec((2 * f) as nat) == pow10_spec(f as nat) * pow10_spec(f as nat);
                assert(r * r < pow10_spec((2 * f + 1) as nat)) by (nonlinear_arith)
                    requires
                        1 <= r as int,
                        r as int <= t,
                        t * t < pow10_spec((2 * f + 1) as nat);
            }
            f
        }
    }
}

pub proof fn lemma_pow10_38()
    ensures
        pow10_spec(38) == 100_000_000_000_000_000_000_000_000_000_000_000_000,
{
    reveal_with_fuel(pow10_spec, 40);
}




/// Least `g <= 39` with `i <= 10^g`, searched upward from `g`.
pub open spec fn clog10_from(i: int, g: nat) -> nat
    decreases 39 - g when g <= 39
{
    if g >= 39 {
        39
    } else if i <= pow10_spec(g) {
        g
    } else {
        clog10_from(i, g + 1)
    }
}

/// Ceiling of the base-10 logarithm of a positive amount of units,
/// shifted by 15: for `i` units, `ceil(log10(i / 10^15)) == clog10_spec(i) - 15`
/// (whenever the result is below the `39` cut-off).
pub open spec fn clog10_spec(i: int) -> nat {
    clog10_from(i, 0)
}

proof fn lemma_clog10_from_char(i: int, k: nat, g: nat)
    requires
        k <= g <= 39,
        forall|g2: nat| k <= g2 < g ==> i > pow10_spec(g2),
        g == 39 || i <= pow10_spec(g),
    ensures
        clog10_from(i, k) == g,
    decreases g - k,
{
    if k < g {
        assert(i > pow10_spec(k));
        lemma_clog10_from_char(i, (k + 1) as nat, g);
    }
}

/// Exec search for `clog10_spec`.
pub fn clog10(i: i128) -> (g: u32)
    requires
        i >= 1,
    ensures
        g == clog10_spec(i as int),
        g <= 39,
        g <= 38 ==> i <= pow10_spec(g as nat),
        g >= 1 ==> i > pow10_spec((g - 1) as nat),
{
    let iu = i as u128;
    let mut p: u128 = 1;
    let mut g: u32 = 0;
    while g < 39 && p < iu
        invariant
            i >= 1,
            iu == i,
            g <= 39,
            g <= 38 ==> p == pow10_spec(g as nat),
            forall|g2: nat| g2 < g ==> iu > pow10_spec(g2),
        decreases 39 - g,
    {
        proof {
            lemma_pow10_table();
            lemma_pow10_increases(g as nat, 38);
            if g < 38 {
                assert(pow10_spec((g + 1) as nat) == 10 * pow10_spec(g as nat));
            }
        }
        p = if g < 38 { p * 10 } else { p };
        g = g + 1;
    }
    proof {
        if g < 39 {
            lemma_clog10_from_char(i as int, 0, g as nat);
        } else {
            lemma_clog10_from_char(i as int, 0, 39);
        }
        if g >= 1 {
            assert(iu > pow10_spec((g - 1) as nat));
        }
    }
    g
}

/// Whether the product of two values stays within the symmetric `i128`
/// range, so that rounding division can follow it.
pub open spec fn mul_in_range(a: int, b: int) -> bool {
    -(i128::MAX as int) <= a * b <= i128::MAX as int
}

/// `round(a * b / den)` computed exactly, or `None` when the intermediate
/// product leaves the `i128` range.
pub fn mul_div_round(a: i128, b: i128, den: i128) -> (r: Option<i128>)
    requires
        den > 0,
    ensures
        r is Some <==> mul_in_range(a as int, b as int),
        r is Some ==> r->0 == round_div_spec((a as int) * (b as int), den as int),
{
    match a.checked_mul(b) {
        Some(p) => {
            if p == i128::MIN {
                None
            } else {
                Some(round_div(p, den))
            }
        },
        None => None,
    }
}

/// Error of nearest-integer division: the rounded quotient times the
/// divisor stays within half a divisor of the dividend.
pub proof fn lemma_round_div_close(a: int, b: int)
    requires
        b > 0,
    ensures
        -b <= 2 * (round_div_spec(a, b) * b - a) <= b,
{
    lemma_round_div_close_nn(if a >= 0 { a } else { -a }, b);
    if a < 0 {
        assert((-round_div_nn(-a, b)) * b == -(round_div_nn(-a, b) * b)) by (nonlinear_arith);
    }
}

proof fn lemma_round_div_close_nn(a: int, b: int)
    requires
        a >= 0,
        b > 0,
    ensures
        -b <= 2 * (round_div_nn(a, b) * b - a) <= b,
{
    vstd::arithmetic::div_mod::lemma_fundamental_div_mod(a, b);
    assert((a / b + 1) * b == (a / b) * b + b) by (nonlinear_arith);
    assert((a / b) * b == b * (a / b)) by (nonlinear_arith);
}

/// Rounding monotonicity: a larger dividend never rounds lower.
pub proof fn lemma_round_div_mono(a1: int, a2: int, b: int)
    requires
        b > 0,
        a1 <= a2,
    ensures
        round_div_spec(a1, b) <= round_div_spec(a2, b),
{
    lemma_round_div_close(a1, b);
    lemma_round_div_close(a2, b);
    let r1 = round_div_spec(a1, b);
    let r2 = round_div_spec(a2, b);
    if r1 > r2 {
        assert(r1 * b >= r2 * b + b) by (nonlinear_arith)
            requires
                r1 >= r2 + 1,
                b > 0;
    }
}

/// An exact multiple divides back to its factor.
pub proof fn lemma_round_div_exact(k: int, b: int)
    requires
        b > 0,
    ensures
        round_div_spec(k * b, b) == k,
{
    lemma_round_div_close(k * b, b);
    let r = round_div_spec(k * b, b);
    if r != k {
        assert(r * b - k * b >= b || k * b - r * b >= b) by (nonlinear_arith)
            requires
                r != k,
                b > 0;
    }
}

/// A value rounded to twelve decimal places: the nearest multiple of
/// `1000` units, ties away from zero.
pub open spec fn round12_spec(x: int) -> int {
    1000 * round_div_spec(x, 1000)
}

/// Rounds a value to twelve decimal places.
pub fn round12(x: i128) -> (r: i128)
    requires
        i128::MIN + 500 <= x <= i128::MAX - 500,
    ensures
        r == round12_spec(x as int),
        -500 <= r - x <= 500,
        x >= 0 ==> r >= 0,
        x <= 0 ==> r <= 0,
{
    let q = round_div(x, 1000);
    proof {
        lemma_round_div_close(x as int, 1000);
    }
    q * 1000
}

} // verus!
