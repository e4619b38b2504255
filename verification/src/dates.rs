//! Rendering of millisecond UNIX timestamps as ISO-8601 UTC text.
//!
//! The formatter is total on the signed 64-bit milliseconds: the value
//! is split into days, seconds of day and milliseconds, the day number
//! is turned into a proleptic Gregorian date, and the fields are
//! rendered as `YYYY-MM-DDTHH:MM:SSZ`, with `.fff` before the `Z` when
//! the milliseconds are not zero.
use vstd::arithmetic::div_mod::{
    lemma_fundamental_div_mod, lemma_fundamental_div_mod_converse_mod, lemma_mod_multiples_vanish,
};
use vstd::prelude::*;

use crate::bytes::{dec_u, push_ascii, push_dec_padded, sb, zero_pad};

verus! {

/// A proleptic Gregorian leap year.
pub open spec fn is_leap(y: int) -> bool {
    (y % 4 == 0 && y % 100 != 0) || y % 400 == 0
}

/// The number of days of year `y`.
pub open spec fn days_in_year(y: int) -> int {
    if is_leap(y) {
        366
    } else {
        365
    }
}

/// Days from the epoch day 1970-01-01 to the first day of year `y`;
/// negative for earlier years.
pub open spec fn days_before_year(y: int) -> int
    decreases (if y >= 1970 {
        y - 1970
    } else {
        1970 - y
    }),
{
    if y == 1970 {
        0
    } else if y > 1970 {
        days_before_year(y - 1) + days_in_year(y - 1)
    } else {
        days_before_year(y + 1) - days_in_year(y)
    }
}

/// The number of days of month `m` in year `y` (months count from one).
pub open spec fn days_in_month(y: int, m: int) -> int {
    if m == 1 {
        31
    } else if m == 2 {
        if is_leap(y) {
            29
        } else {
            28
        }
    } else if m == 3 {
        31
    } else if m == 4 {
        30
    } else if m == 5 {
        31
    } else if m == 6 {
        30
    } else if m == 7 {
        31
    } else if m == 8 {
        31
    } else if m == 9 {
        30
    } else if m == 10 {
        31
    } else if m == 11 {
        30
    } else {
        31
    }
}

/// Days from the first day of year `y` to the first day of its month `m`.
pub open spec fn days_before_month(y: int, m: int) -> int
    decreases m,
{
    if m <= 1 {
        0
    } else {
        days_before_month(y, m - 1) + days_in_month(y, m - 1)
    }
}

/// A valid calendar date.
pub open spec fn valid_ymd(y: int, m: int, d: int) -> bool {
    1 <= m <= 12 && 1 <= d <= days_in_month(y, m)
}

/// The day number of the date `y-m-d`, with 1970-01-01 as day zero.
pub open spec fn days_from_civil(y: int, m: int, d: int) -> int {
    days_before_year(y) + days_before_month(y, m) + (d - 1)
}

/// Years after the epoch put at least 365 days each between the epoch
/// and their first day; years before, likewise in the other direction.
proof fn lemma_dby_growth(y: int)
    ensures
        y >= 1970 ==> days_before_year(y) >= (y - 1970) * 365,
        y <= 1970 ==> days_before_year(y) <= (y - 1970) * 365,
    decreases (if y >= 1970 {
        y - 1970
    } else {
        1970 - y
    }),
{
    if y > 1970 {
        lemma_dby_growth(y - 1);
    } else if y < 1970 {
        lemma_dby_growth(y + 1);
    }
}

/// Twelve months make the year.
proof fn lemma_dbm_full_year(y: int)
    ensures
        days_before_month(y, 13) == days_in_year(y),
{
    reveal_with_fuel(days_before_month, 14);
}

/// Euclidean division of `n` by the small positive divisor `d`: the
/// remainder is never negative.
pub fn div_mod_euclid(n: i64, d: u64) -> (r: (i64, u64))
    requires
        1 <= d <= 86400000,
    ensures
        r.0 * d + r.1 == n as int,
        0 <= r.1 < d,
{
    if n >= 0 {
        let nu: u64 = n as u64;
        let q: u64 = nu / d;
        let rem: u64 = nu % d;
        proof {
            lemma_fundamental_div_mod(nu as int, d as int);
            assert(q as int * d as int == d as int * q as int) by (nonlinear_arith);
            assert(q as int <= nu as int) by (nonlinear_arith)
                requires
                    nu as int == d as int * q as int + rem as int,
                    d as int >= 1,
                    q as int >= 0,
                    rem as int >= 0,
            ;
        }
        (q as i64, rem)
    } else {
        let mag: u64 = if n == i64::MIN {
            9223372036854775808u64
        } else {
            (-n) as u64
        };
        let q0: u64 = mag / d;
        let r0: u64 = mag % d;
        proof {
            lemma_fundamental_div_mod(mag as int, d as int);
            assert(n as int == -(mag as int));
        }
        if r0 == 0 {
            let qi: i64 = if q0 == 9223372036854775808u64 {
                i64::MIN
            } else {
                proof {
                    assert(q0 as int <= 9223372036854775808) by (nonlinear_arith)
                        requires
                            d as int * q0 as int <= 9223372036854775808,
                            d as int >= 1,
                            q0 as int >= 0,
                    ;
                }
                -(q0 as i64)
            };
            proof {
                assert(qi as int == -(q0 as int));
                assert((-(q0 as int)) * d as int == -(d as int * q0 as int)) by (nonlinear_arith);
            }
            (qi, 0)
        } else {
            proof {
                assert(d as int >= 2);
                assert(q0 as int <= 4611686018427387904) by (nonlinear_arith)
                    requires
                        d as int * q0 as int <= 9223372036854775808,
                        d as int >= 2,
                        q0 as int >= 0,
                ;
            }
            let qi: i64 = -(q0 as i64) - 1;
            proof {
                assert((-(q0 as int) - 1) * d as int == -(d as int * q0 as int) - d as int)
                    by (nonlinear_arith);
            }
            (qi, d - r0)
        }
    }
}

/// Executable leap-year test.
pub fn leap_year(y: i64) -> (r: bool)
    ensures
        r == is_leap(y as int),
{
    let (q, r400) = div_mod_euclid(y, 400);
    proof {
        lemma_fundamental_div_mod_converse_mod(y as int, 400, q as int, r400 as int);
        assert(y as int == 4 * (100 * q as int) + r400 as int) by (nonlinear_arith)
            requires
                y as int == q as int * 400 + r400 as int,
        ;
        lemma_mod_multiples_vanish(100 * q as int, r400 as int, 4);
        assert(y as int == 100 * (4 * q as int) + r400 as int) by (nonlinear_arith)
            requires
                y as int == q as int * 400 + r400 as int,
        ;
        lemma_mod_multiples_vanish(4 * q as int, r400 as int, 100);
    }
    (r400 % 4 == 0 && r400 % 100 != 0) || r400 == 0
}

/// Executable year length.
pub fn days_in_year_exec(y: i64) -> (r: i64)
    ensures
        r == days_in_year(y as int),
{
    if leap_year(y) {
        366
    } else {
        365
    }
}

/// Executable month length.
pub fn days_in_month_exec(y: i64, m: u8) -> (r: i64)
    requires
        1 <= m <= 12,
    ensures
        r == days_in_month(y as int, m as int),
{
    if m == 1 {
        31
    } else if m == 2 {
        if leap_year(y) {
            29
        } else {
            28
        }
    } else if m == 3 {
        31
    } else if m == 4 {
        30
    } else if m == 5 {
        31
    } else if m == 6 {
        30
    } else if m == 7 {
        31
    } else if m == 8 {
        31
    } else if m == 9 {
        30
    } else if m == 10 {
        31
    } else if m == 11 {
        30
    } else {
        31
    }
}

/// Turn a day number (1970-01-01 is day zero) into the calendar date
/// that holds it.
pub fn civil_from_days(z: i64) -> (r: (i64, u8, u8))
    ensures
        valid_ymd(r.0 as int, r.1 as int, r.2 as int),
        days_from_civil(r.0 as int, r.1 as int, r.2 as int) == z as int,
        1970 - 30000000000000000 <= r.0 <= 1970 + 30000000000000000,
{
    let mut y: i64 = 1970;
    let mut rem: i64 = z;
    if rem >= 0 {
        loop
            invariant
                y >= 1970,
                rem >= 0,
                days_before_year(y as int) + rem == z as int,
            ensures
                y >= 1970,
                0 <= rem < days_in_year(y as int),
                days_before_year(y as int) + rem == z as int,
            decreases rem,
        {
            let diy = days_in_year_exec(y);
            if rem < diy {
                break ;
            }
            proof {
                lemma_dby_growth(y as int);
                assert(y as int - 1970 <= 30000000000000000) by (nonlinear_arith)
                    requires
                        (y as int - 1970) * 365 <= 9223372036854775807,
                        y as int - 1970 >= 0,
                ;
            }
            rem = rem - diy;
            y = y + 1;
        }
    } else {
        while rem < 0
            invariant
                y <= 1970,
                rem < days_in_year(y as int),
                days_before_year(y as int) + rem == z as int,
            decreases (if rem < 0 {
                0int - rem
            } else {
                0int
            }),
        {
            proof {
                lemma_dby_growth(y as int);
                assert(1970 - y as int <= 30000000000000000) by (nonlinear_arith)
                    requires
                        (y as int - 1970) * 365 >= -9223372036854775807,
                        1970 - y as int >= 0,
                ;
            }
            let diy = days_in_year_exec(y - 1);
            y = y - 1;
            rem = rem + diy;
        }
    }
    let mut mo: u8 = 1;
    loop
        invariant
            1 <= mo <= 12,
            rem >= 0,
            days_before_year(y as int) + days_before_month(y as int, mo as int) + rem == z as int,
            days_before_month(y as int, mo as int) + rem < days_in_year(y as int),
        ensures
            1 <= mo <= 12,
            0 <= rem < days_in_month(y as int, mo as int),
            days_before_year(y as int) + days_before_month(y as int, mo as int) + rem == z as int,
            days_before_month(y as int, mo as int) + rem <= 365,
        decreases 12 - mo,
    {
        let dim = days_in_month_exec(y, mo);
        if rem < dim {
            break ;
        }
        proof {
            lemma_dbm_full_year(y as int);
            assert(mo < 12);
        }
        rem = rem - dim;
        mo = mo + 1;
    }
    proof {
        lemma_dby_growth(y as int);
        if y >= 1970 {
            assert(y as int - 1970 <= 30000000000000000) by (nonlinear_arith)
                requires
                    (y as int - 1970) * 365 <= 9223372036854776173,
                    y as int - 1970 >= 0,
            ;
        } else {
            assert(1970 - y as int <= 30000000000000000) by (nonlinear_arith)
                requires
                    (y as int - 1970) * 365 >= -9223372036854776174,
                    1970 - y as int >= 0,
            ;
        }
    }
    (y, mo, (rem + 1) as u8)
}

/// The year field: the absolute year zero-padded to four digits, with
/// a leading minus sign for years before year zero.
pub open spec fn render_year(y: int) -> Seq<u8> {
    if y < 0 {
        seq!['-' as u8] + zero_pad(dec_u((-y) as nat), 4)
    } else {
        zero_pad(dec_u(y as nat), 4)
    }
}

/// Everything a rendered timestamp holds after its year digits.
pub open spec fn clock_tail(mo: int, d: int, h: int, mi: int, s: int, fr: int) -> Seq<u8> {
    sb("-") + zero_pad(dec_u(mo as nat), 2) + sb("-") + zero_pad(dec_u(d as nat), 2) + sb("T")
        + zero_pad(dec_u(h as nat), 2) + sb(":") + zero_pad(dec_u(mi as nat), 2) + sb(":")
        + zero_pad(dec_u(s as nat), 2) + (if fr == 0 {
        Seq::<u8>::empty()
    } else {
        sb(".") + zero_pad(dec_u(fr as nat), 3)
    }) + sb("Z")
}

/// The full rendering of a timestamp from its calendar fields.
pub open spec fn render_ts_fields(
    y: int,
    mo: int,
    d: int,
    h: int,
    mi: int,
    s: int,
    fr: int,
) -> Seq<u8> {
    render_year(y) + clock_tail(mo, d, h, mi, s, fr)
}

/// The fields lie in their calendar and clock ranges.
pub open spec fn valid_ts_fields(y: int, mo: int, d: int, h: int, mi: int, s: int, fr: int) -> bool {
    valid_ymd(y, mo, d) && 0 <= h < 24 && 0 <= mi < 60 && 0 <= s < 60 && 0 <= fr < 1000
}

/// The milliseconds a set of fields stands for.
pub open spec fn ts_fields_value(y: int, mo: int, d: int, h: int, mi: int, s: int, fr: int) -> int {
    (days_from_civil(y, mo, d) * 86400 + h * 3600 + mi * 60 + s) * 1000 + fr
}

/// `out` is the rendering of the millisecond timestamp `ms`: there are
/// valid fields worth `ms` whose rendering is `out`.
pub open spec fn is_ts_render(ms: int, out: Seq<u8>) -> bool {
    exists|y: int, mo: int, d: int, h: int, mi: int, s: int, fr: int|
        valid_ts_fields(y, mo, d, h, mi, s, fr) && ts_fields_value(y, mo, d, h, mi, s, fr) == ms
            && out == #[trigger] render_ts_fields(y, mo, d, h, mi, s, fr)
}

/// The rendering, written out as one left-to-right chain of parts.
#[verifier::rlimit(100)]
proof fn lemma_render_flat(y: int, mo: int, d: int, h: int, mi: int, s: int, fr: int)
    ensures
        render_ts_fields(y, mo, d, h, mi, s, fr) == render_year(y) + sb("-") + zero_pad(
            dec_u(mo as nat),
            2,
        ) + sb("-") + zero_pad(dec_u(d as nat), 2) + sb("T") + zero_pad(dec_u(h as nat), 2) + sb(
            ":",
        ) + zero_pad(dec_u(mi as nat), 2) + sb(":") + zero_pad(dec_u(s as nat), 2) + (if fr == 0 {
            Seq::<u8>::empty()
        } else {
            sb(".") + zero_pad(dec_u(fr as nat), 3)
        }) + sb("Z"),
{
    assert(render_ts_fields(y, mo, d, h, mi, s, fr) =~= render_year(y) + sb("-") + zero_pad(
        dec_u(mo as nat),
        2,
    ) + sb("-") + zero_pad(dec_u(d as nat), 2) + sb("T") + zero_pad(dec_u(h as nat), 2) + sb(":")
        + zero_pad(dec_u(mi as nat), 2) + sb(":") + zero_pad(dec_u(s as nat), 2) + (if fr == 0 {
        Seq::<u8>::empty()
    } else {
        sb(".") + zero_pad(dec_u(fr as nat), 3)
    }) + sb("Z"));
}

/// Render the millisecond timestamp `ms` as ISO-8601 UTC text, total
/// on the whole signed 64-bit range.
#[verifier::rlimit(100)]
pub fn format_ts(ms: i64) -> (r: Vec<u8>)
    ensures
        is_ts_render(ms as int, r@),
{
    let (secs, fr) = div_mod_euclid(ms, 1000);
    let (day, sod) = div_mod_euclid(secs, 86400);
    let (y, mo, d) = civil_from_days(day);
    let h: u64 = sod / 3600;
    let rem: u64 = sod % 3600;
    let mi: u64 = rem / 60;
    let s: u64 = rem % 60;
    proof {
        lemma_fundamental_div_mod(sod as int, 3600);
        lemma_fundamental_div_mod(rem as int, 60);
        assert(h < 24 && mi < 60 && s < 60);
        assert(ts_fields_value(
            y as int,
            mo as int,
            d as int,
            h as int,
            mi as int,
            s as int,
            fr as int,
        ) == ms as int);
        reveal_strlit("-");
        reveal_strlit("T");
        reveal_strlit(":");
        reveal_strlit(".");
        reveal_strlit("Z");
    }
    let mut out: Vec<u8> = Vec::new();
    if y < 0 {
        push_ascii(&mut out, "-");
        push_dec_padded(&mut out, (-y) as u64, 4);
    } else {
        push_dec_padded(&mut out, y as u64, 4);
    }
    push_ascii(&mut out, "-");
    push_dec_padded(&mut out, mo as u64, 2);
    push_ascii(&mut out, "-");
    push_dec_padded(&mut out, d as u64, 2);
    push_ascii(&mut out, "T");
    push_dec_padded(&mut out, h, 2);
    push_ascii(&mut out, ":");
    push_dec_padded(&mut out, mi, 2);
    push_ascii(&mut out, ":");
    push_dec_padded(&mut out, s, 2);
    if fr > 0 {
        push_ascii(&mut out, ".");
        push_dec_padded(&mut out, fr, 3);
    }
    push_ascii(&mut out, "Z");
    proof {
        if y < 0 {
            assert(sb("-") =~= seq!['-' as u8]);
        }
        lemma_render_flat(y as int, mo as int, d as int, h as int, mi as int, s as int, fr as int);
        assert(out@ =~= render_year(y as int) + sb("-") + zero_pad(dec_u(mo as nat), 2) + sb("-")
            + zero_pad(dec_u(d as nat), 2) + sb("T") + zero_pad(dec_u(h as nat), 2) + sb(":")
            + zero_pad(dec_u(mi as nat), 2) + sb(":") + zero_pad(dec_u(s as nat), 2) + (if fr == 0 {
            Seq::<u8>::empty()
        } else {
            sb(".") + zero_pad(dec_u(fr as nat), 3)
        }) + sb("Z"));
        assert(out@ == render_ts_fields(
            y as int,
            mo as int,
            d as int,
            h as int,
            mi as int,
            s as int,
            fr as int,
        ));
    }
    out
}

/// An ASCII digit byte.
pub open spec fn digit(b: u8) -> bool {
    0x30 <= b <= 0x39
}

/// The value of a run of decimal digits, most significant first.
pub open spec fn parse_dec(s: Seq<u8>) -> int
    decreases s.len(),
{
    if s.len() == 0 {
        0
    } else {
        parse_dec(s.drop_last()) * 10 + (s.last() - 0x30)
    }
}

/// How many leading bytes of `s` are digits.
pub open spec fn digits_end(s: Seq<u8>) -> int
    decreases s.len(),
{
    if s.len() == 0 {
        0
    } else if !digit(s[0]) {
        0
    } else {
        1 + digits_end(s.drop_first())
    }
}

/// Parsing the decimal rendering of a natural number gives it back.
pub proof fn lemma_parse_dec_u(n: nat)
    ensures
        parse_dec(dec_u(n)) == n,
    decreases n,
{
    if n < 10 {
        assert(dec_u(n).drop_last() =~= Seq::<u8>::empty());
        assert(parse_dec(dec_u(n).drop_last()) == 0);
        assert(dec_u(n).last() == crate::bytes::dec_digit(n));
        assert(crate::bytes::dec_digit(n) - 0x30 == n);
    } else {
        lemma_parse_dec_u(n / 10);
        assert(dec_u(n).drop_last() =~= dec_u(n / 10));
        assert(dec_u(n).last() == crate::bytes::dec_digit(n % 10));
        assert(crate::bytes::dec_digit(n % 10) - 0x30 == n % 10);
        lemma_fundamental_div_mod(n as int, 10);
        assert((n as int / 10) * 10 == 10 * (n as int / 10)) by (nonlinear_arith);
    }
}

/// Leading zeroes do not change a parsed value.
pub proof fn lemma_parse_dec_zeroes(k: nat, s: Seq<u8>)
    ensures
        parse_dec(crate::bytes::zeroes(k) + s) == parse_dec(s),
    decreases s.len(),
{
    if s.len() == 0 {
        assert(crate::bytes::zeroes(k) + s =~= crate::bytes::zeroes(k));
        lemma_parse_zeroes(k);
    } else {
        assert((crate::bytes::zeroes(k) + s).drop_last() =~= crate::bytes::zeroes(k)
            + s.drop_last());
        assert((crate::bytes::zeroes(k) + s).last() == s.last());
        lemma_parse_dec_zeroes(k, s.drop_last());
    }
}

proof fn lemma_parse_zeroes(k: nat)
    ensures
        parse_dec(crate::bytes::zeroes(k)) == 0,
    decreases k,
{
    if k > 0 {
        assert(crate::bytes::zeroes(k).drop_last() =~= crate::bytes::zeroes((k - 1) as nat));
        lemma_parse_zeroes((k - 1) as nat);
    }
}

/// Parsing survives zero padding.
pub proof fn lemma_parse_zero_pad(n: nat, w: nat)
    ensures
        parse_dec(zero_pad(dec_u(n), w)) == n,
{
    lemma_parse_dec_u(n);
    if dec_u(n).len() < w {
        lemma_parse_dec_zeroes((w - dec_u(n).len()) as nat, dec_u(n));
    }
}

/// A zero-padded rendering is all digits, at least `w` long.
pub proof fn lemma_zero_pad_digits(n: nat, w: nat)
    ensures
        zero_pad(dec_u(n), w).len() >= w,
        zero_pad(dec_u(n), w).len() >= 1,
        forall|i: int|
            0 <= i < zero_pad(dec_u(n), w).len() ==> digit(#[trigger] zero_pad(dec_u(n), w)[i]),
{
    crate::bytes::lemma_dec_u_digits(n);
}

/// A rendering shorter than one hundred takes exactly two padded
/// digits; shorter than one thousand, three.
proof fn lemma_dec_u_len_small(n: nat)
    ensures
        n < 10 ==> dec_u(n).len() == 1,
        n < 100 ==> dec_u(n).len() <= 2,
        n < 1000 ==> dec_u(n).len() <= 3,
{
    if 10 <= n < 100 {
        assert(dec_u(n / 10).len() == 1);
    } else if 100 <= n < 1000 {
        assert(dec_u(n / 100).len() == 1);
        assert(dec_u(n / 10).len() == 2);
    }
}

/// The first run of digits of a sequence that starts with `k` digits
/// and then something else is exactly `k` long.
proof fn lemma_digits_end_is(s: Seq<u8>, k: int)
    requires
        0 <= k <= s.len(),
        forall|i: int| 0 <= i < k ==> digit(#[trigger] s[i]),
        k < s.len() ==> !digit(s[k]),
    ensures
        digits_end(s) == k,
    decreases s.len(),
{
    if s.len() > 0 && digit(s[0]) {
        assert(k >= 1);
        assert forall|i: int| 0 <= i < k - 1 implies digit(#[trigger] s.drop_first()[i]) by {
            assert(s.drop_first()[i] == s[i + 1]);
        }
        lemma_digits_end_is(s.drop_first(), k - 1);
    }
}

/// The canonical parser for the formatter's output: an optional minus,
/// a run of year digits, then `-MM-DDTHH:MM:SS`, an optional `.fff`,
/// and `Z`. Yields the milliseconds the fields stand for.
pub open spec fn parse_ts(s: Seq<u8>) -> Option<int> {
    let neg = s.len() > 0 && s[0] == '-' as u8;
    let r = if neg {
        s.drop_first()
    } else {
        s
    };
    let e = digits_end(r);
    if e < 1 || (r.len() != e + 16 && r.len() != e + 20) {
        None
    } else if !(r[e] == '-' as u8 && digit(r[e + 1]) && digit(r[e + 2]) && r[e + 3] == '-' as u8
        && digit(r[e + 4]) && digit(r[e + 5]) && r[e + 6] == 'T' as u8 && digit(r[e + 7]) && digit(
        r[e + 8],
    ) && r[e + 9] == ':' as u8 && digit(r[e + 10]) && digit(r[e + 11]) && r[e + 12] == ':' as u8
        && digit(r[e + 13]) && digit(r[e + 14])) {
        None
    } else if r.len() == e + 16 && r[e + 15] != 'Z' as u8 {
        None
    } else if r.len() == e + 20 && !(r[e + 15] == '.' as u8 && digit(r[e + 16]) && digit(r[e + 17])
        && digit(r[e + 18]) && r[e + 19] == 'Z' as u8) {
        None
    } else {
        let y0 = parse_dec(r.take(e));
        let y = if neg {
            -y0
        } else {
            y0
        };
        let mo = parse_dec(r.subrange(e + 1, e + 3));
        let d = parse_dec(r.subrange(e + 4, e + 6));
        let h = parse_dec(r.subrange(e + 7, e + 9));
        let mi = parse_dec(r.subrange(e + 10, e + 12));
        let sec = parse_dec(r.subrange(e + 13, e + 15));
        let fr = if r.len() == e + 20 {
            parse_dec(r.subrange(e + 16, e + 19))
        } else {
            0
        };
        Some(ts_fields_value(y, mo, d, h, mi, sec, fr))
    }
}

/// Where every separator and digit group of the clock tail sits, and
/// what its groups parse to.
#[verifier::rlimit(100)]
proof fn lemma_clock_tail_layout(mo: int, d: int, h: int, mi: int, s: int, fr: int)
    requires
        0 <= mo < 100,
        0 <= d < 100,
        0 <= h < 100,
        0 <= mi < 100,
        0 <= s < 100,
        0 <= fr < 1000,
    ensures
        clock_tail(mo, d, h, mi, s, fr).len() == (if fr == 0 {
            16int
        } else {
            20int
        }),
        clock_tail(mo, d, h, mi, s, fr)[0] == '-' as u8,
        clock_tail(mo, d, h, mi, s, fr)[3] == '-' as u8,
        clock_tail(mo, d, h, mi, s, fr)[6] == 'T' as u8,
        clock_tail(mo, d, h, mi, s, fr)[9] == ':' as u8,
        clock_tail(mo, d, h, mi, s, fr)[12] == ':' as u8,
        forall|i: int|
            (1 <= i <= 2 || 4 <= i <= 5 || 7 <= i <= 8 || 10 <= i <= 11 || 13 <= i <= 14) ==> digit(
                #[trigger] clock_tail(mo, d, h, mi, s, fr)[i],
            ),
        parse_dec(clock_tail(mo, d, h, mi, s, fr).subrange(1, 3)) == mo,
        parse_dec(clock_tail(mo, d, h, mi, s, fr).subrange(4, 6)) == d,
        parse_dec(clock_tail(mo, d, h, mi, s, fr).subrange(7, 9)) == h,
        parse_dec(clock_tail(mo, d, h, mi, s, fr).subrange(10, 12)) == mi,
        parse_dec(clock_tail(mo, d, h, mi, s, fr).subrange(13, 15)) == s,
        fr == 0 ==> clock_tail(mo, d, h, mi, s, fr)[15] == 'Z' as u8,
        fr != 0 ==> clock_tail(mo, d, h, mi, s, fr)[15] == '.' as u8 && clock_tail(
            mo,
            d,
            h,
            mi,
            s,
            fr,
        )[19] == 'Z' as u8 && digit(clock_tail(mo, d, h, mi, s, fr)[16]) && digit(
            clock_tail(mo, d, h, mi, s, fr)[17],
        ) && digit(clock_tail(mo, d, h, mi, s, fr)[18]) && parse_dec(
            clock_tail(mo, d, h, mi, s, fr).subrange(16, 19),
        ) == fr,
{
    reveal_strlit("-");
    reveal_strlit("T");
    reveal_strlit(":");
    reveal_strlit(".");
    reveal_strlit("Z");
    lemma_zero_pad_digits(mo as nat, 2);
    lemma_zero_pad_digits(d as nat, 2);
    lemma_zero_pad_digits(h as nat, 2);
    lemma_zero_pad_digits(mi as nat, 2);
    lemma_zero_pad_digits(s as nat, 2);
    lemma_zero_pad_digits(fr as nat, 3);
    lemma_dec_u_len_small(mo as nat);
    lemma_dec_u_len_small(d as nat);
    lemma_dec_u_len_small(h as nat);
    lemma_dec_u_len_small(mi as nat);
    lemma_dec_u_len_small(s as nat);
    lemma_dec_u_len_small(fr as nat);
    lemma_parse_zero_pad(mo as nat, 2);
    lemma_parse_zero_pad(d as nat, 2);
    lemma_parse_zero_pad(h as nat, 2);
    lemma_parse_zero_pad(mi as nat, 2);
    lemma_parse_zero_pad(s as nat, 2);
    lemma_parse_zero_pad(fr as nat, 3);
    let t = clock_tail(mo, d, h, mi, s, fr);
    assert(t.subrange(1, 3) =~= zero_pad(dec_u(mo as nat), 2));
    assert(t.subrange(4, 6) =~= zero_pad(dec_u(d as nat), 2));
    assert(t.subrange(7, 9) =~= zero_pad(dec_u(h as nat), 2));
    assert(t.subrange(10, 12) =~= zero_pad(dec_u(mi as nat), 2));
    assert(t.subrange(13, 15) =~= zero_pad(dec_u(s as nat), 2));
    if fr != 0 {
        assert(t.subrange(16, 19) =~= zero_pad(dec_u(fr as nat), 3));
    }
}

/// The round trip: parsing any rendering of a millisecond timestamp
/// gives that timestamp back. With the formatter total on the signed
/// 64-bit milliseconds, the two functions are inverse on its range.
#[verifier::rlimit(100)]
pub proof fn lemma_format_parse_round_trip(ms: int, out: Seq<u8>)
    requires
        is_ts_render(ms, out),
    ensures
        parse_ts(out) == Some(ms),
{
    let (y, mo, d, h, mi, s, fr) = choose|y: int, mo: int, d: int, h: int, mi: int, s: int, fr: int|
        valid_ts_fields(y, mo, d, h, mi, s, fr) && ts_fields_value(y, mo, d, h, mi, s, fr) == ms
            && out == #[trigger] render_ts_fields(y, mo, d, h, mi, s, fr);
    let ya = if y < 0 {
        -y
    } else {
        y
    };
    let ypart = zero_pad(dec_u(ya as nat), 4);
    let yl = ypart.len() as int;
    lemma_zero_pad_digits(ya as nat, 4);
    lemma_parse_zero_pad(ya as nat, 4);
    lemma_clock_tail_layout(mo, d, h, mi, s, fr);
    let tail = clock_tail(mo, d, h, mi, s, fr);
    reveal_strlit("-");
    let r = if y < 0 {
        out.drop_first()
    } else {
        out
    };
    assert(r =~= ypart + tail);
    // The minus sign is recognized exactly for negative years.
    assert(digit(ypart[0]) && ypart[0] != '-' as u8);
    if y < 0 {
        assert(out[0] == '-' as u8);
    } else {
        assert(out[0] == ypart[0]);
    }
    // Everything after the year digits is the clock tail, in place.
    assert forall|k: int| 0 <= k < tail.len() implies r[yl + k] == tail[k] by {}
    assert forall|i: int| 0 <= i < yl implies digit(#[trigger] r[i]) by {
        assert(r[i] == ypart[i]);
    }
    assert(r[yl] == tail[0]);
    assert(!digit('-' as u8));
    lemma_digits_end_is(r, yl);
    assert(r.take(yl) =~= ypart);
    assert(r.subrange(yl + 1, yl + 3) =~= tail.subrange(1, 3));
    assert(r.subrange(yl + 4, yl + 6) =~= tail.subrange(4, 6));
    assert(r.subrange(yl + 7, yl + 9) =~= tail.subrange(7, 9));
    assert(r.subrange(yl + 10, yl + 12) =~= tail.subrange(10, 12));
    assert(r.subrange(yl + 13, yl + 15) =~= tail.subrange(13, 15));
    if fr != 0 {
        assert(r.subrange(yl + 16, yl + 19) =~= tail.subrange(16, 19));
    }
}

} // verus!
