//! The layout of a UTC timestamp, and why timestamps sort as text in the
//! order of the instants they name.
use vstd::prelude::*;

use crate::loss_file::{
    civil_date, days_before_month, days_before_year, is_civil_date, lemma_civil_date_exists,
    lemma_civil_dates_advance, lemma_days_before_month_grow, lemma_days_before_year_increase,
    lemma_year_len_bounds, law_years_advance_by_their_length, month_len, timestamp_text,
};
use crate::text::{decimal, digit_char, padded};

verus! {

/// `a` sorts before `b` as text: they agree up to some position, where `a`
/// holds the smaller character.
pub open spec fn text_before(a: Seq<char>, b: Seq<char>) -> bool {
    exists|i: int|
        #![trigger a[i], b[i]]
        0 <= i < a.len() && i < b.len() && a.subrange(0, i) == b.subrange(0, i) && a[i] < b[i]
}

proof fn lemma_text_before_extend(a: Seq<char>, b: Seq<char>, c: Seq<char>, d: Seq<char>)
    requires
        text_before(a, b),
        a.len() == b.len(),
    ensures
        text_before(a + c, b + d),
{
    let i = choose|i: int|
        #![trigger a[i], b[i]]
        0 <= i < a.len() && i < b.len() && a.subrange(0, i) == b.subrange(0, i) && a[i] < b[i];
    assert((a + c).subrange(0, i) =~= a.subrange(0, i));
    assert((b + d).subrange(0, i) =~= b.subrange(0, i));
    assert((a + c)[i] == a[i] && (b + d)[i] == b[i]);
}

proof fn lemma_text_before_after(p: Seq<char>, c: Seq<char>, d: Seq<char>)
    requires
        text_before(c, d),
    ensures
        text_before(p + c, p + d),
{
    let i = choose|i: int|
        #![trigger c[i], d[i]]
        0 <= i < c.len() && i < d.len() && c.subrange(0, i) == d.subrange(0, i) && c[i] < d[i];
    let k = p.len() + i;
    assert((p + c).subrange(0, k) =~= p + c.subrange(0, i));
    assert((p + d).subrange(0, k) =~= p + d.subrange(0, i));
    assert((p + c)[k] == c[i] && (p + d)[k] == d[i]);
}

pub open spec fn pow10(k: nat) -> nat
    decreases k,
{
    if k == 0 {
        1
    } else {
        10 * pow10((k - 1) as nat)
    }
}

/// `n`'s last `w` decimal digits, most significant first.
spec fn fixed_digits(n: nat, w: nat) -> Seq<char>
    decreases w,
{
    if w == 0 {
        Seq::empty()
    } else {
        fixed_digits(n / 10, (w - 1) as nat).push(digit_char(n % 10))
    }
}

proof fn lemma_decimal_len(n: nat, k: nat)
    requires
        n < pow10(k),
        k >= 1,
    ensures
        decimal(n).len() <= k,
    decreases k,
{
    if n >= 10 {
        assert(n / 10 < pow10((k - 1) as nat)) by (nonlinear_arith)
            requires
                n < pow10(k),
                pow10(k) == 10 * pow10((k - 1) as nat),
        ;
        assert(k >= 2) by {
            if k == 1 {
                assert(pow10(0) == 1);
            }
        }
        lemma_decimal_len(n / 10, (k - 1) as nat);
    }
}

proof fn lemma_fixed_zero(w: nat)
    ensures
        fixed_digits(0, w) =~= Seq::new(w, |i: int| '0'),
    decreases w,
{
    if w > 0 {
        lemma_fixed_zero((w - 1) as nat);
    }
}

proof fn lemma_padded_is_fixed(n: nat, w: nat)
    requires
        w >= 1,
        n < pow10(w),
    ensures
        padded(n, w) == fixed_digits(n, w),
    decreases w,
{
    if n < 10 {
        assert(decimal(n) == seq![digit_char(n)]);
        lemma_fixed_zero((w - 1) as nat);
        assert(n / 10 == 0 && n % 10 == n);
        assert(padded(n, w) =~= fixed_digits(n, w));
    } else {
        assert(n / 10 < pow10((w - 1) as nat)) by (nonlinear_arith)
            requires
                n < pow10(w),
                pow10(w) == 10 * pow10((w - 1) as nat),
        ;
        assert(w >= 2) by {
            if w == 1 {
                assert(pow10(0) == 1);
            }
        }
        lemma_decimal_len(n / 10, (w - 1) as nat);
        lemma_padded_is_fixed(n / 10, (w - 1) as nat);
        assert(decimal(n) == decimal(n / 10).push(digit_char(n % 10)));
        assert(padded(n, w) =~= padded(n / 10, (w - 1) as nat).push(digit_char(n % 10)));
    }
}

proof fn lemma_fixed_len(n: nat, w: nat)
    ensures
        fixed_digits(n, w).len() == w,
    decreases w,
{
    if w > 0 {
        lemma_fixed_len(n / 10, (w - 1) as nat);
    }
}

proof fn lemma_fixed_order(a: nat, b: nat, w: nat)
    requires
        a < b < pow10(w),
    ensures
        text_before(fixed_digits(a, w), fixed_digits(b, w)),
    decreases w,
{
    if w == 0 {
        assert(pow10(0) == 1);
    } else {
        let pa = fixed_digits(a / 10, (w - 1) as nat);
        let pb = fixed_digits(b / 10, (w - 1) as nat);
        lemma_fixed_len(a / 10, (w - 1) as nat);
        lemma_fixed_len(b / 10, (w - 1) as nat);
        assert(a / 10 <= b / 10) by (nonlinear_arith)
            requires
                a < b,
        ;
        if a / 10 < b / 10 {
            assert(b / 10 < pow10((w - 1) as nat)) by (nonlinear_arith)
                requires
                    b < pow10(w),
                    pow10(w) == 10 * pow10((w - 1) as nat),
            ;
            lemma_fixed_order(a / 10, b / 10, (w - 1) as nat);
            lemma_text_before_extend(pa, pb, seq![digit_char(a % 10)], seq![digit_char(b % 10)]);
            assert(fixed_digits(a, w) =~= pa + seq![digit_char(a % 10)]);
            assert(fixed_digits(b, w) =~= pb + seq![digit_char(b % 10)]);
        } else {
            assert(a % 10 < b % 10) by (nonlinear_arith)
                requires
                    a < b,
                    a / 10 == b / 10,
            ;
            let ca = seq![digit_char(a % 10)];
            let cb = seq![digit_char(b % 10)];
            assert(ca[0] < cb[0]);
            assert(text_before(ca, cb)) by {
                assert(ca.subrange(0, 0) =~= cb.subrange(0, 0));
            }
            lemma_text_before_after(pa, ca, cb);
            assert(fixed_digits(a, w) =~= pa + ca);
            assert(fixed_digits(b, w) =~= pa + cb);
        }
    }
}

/// Zero-padded numbers of one width sort as text the way they sort as
/// numbers.
proof fn lemma_padded_order(a: nat, b: nat, w: nat)
    requires
        w >= 1,
        a < b < pow10(w),
    ensures
        text_before(padded(a, w), padded(b, w)),
        padded(a, w).len() == w,
        padded(b, w).len() == w,
{
    lemma_padded_is_fixed(a, w);
    lemma_padded_is_fixed(b, w);
    lemma_fixed_len(a, w);
    lemma_fixed_len(b, w);
    lemma_fixed_order(a, b, w);
}

/// The text of a UTC date and time, its fields zero-padded.
spec fn stamp(y: nat, mo: nat, d: nat, hh: nat, mi: nat, ss: nat) -> Seq<char> {
    padded(y, 4) + "-"@ + padded(mo, 2) + "-"@ + padded(d, 2) + "T"@ + padded(hh, 2) + ":"@ + padded(
        mi,
        2,
    ) + ":"@ + padded(ss, 2) + "Z"@
}

/// One padded field decides the order of two stamps that agree before it.
proof fn lemma_field_decides(q: Seq<char>, a: nat, b: nat, w: nat, r1: Seq<char>, r2: Seq<char>)
    requires
        w >= 1,
        a < b < pow10(w),
    ensures
        text_before(q + padded(a, w) + r1, q + padded(b, w) + r2),
{
    lemma_padded_order(a, b, w);
    lemma_text_before_after(q, padded(a, w), padded(b, w));
    lemma_text_before_extend(q + padded(a, w), q + padded(b, w), r1, r2);
}

spec fn fields_ok(y: nat, mo: nat, d: nat, hh: nat, mi: nat, ss: nat) -> bool {
    y < 10000 && mo < 100 && d < 100 && hh < 100 && mi < 100 && ss < 100
}

proof fn lemma_pow10_values()
    ensures
        pow10(2) == 100,
        pow10(4) == 10000,
{
    reveal_with_fuel(pow10, 5);
}

proof fn lemma_padded_len(n: nat, w: nat)
    requires
        w >= 1,
        n < pow10(w),
    ensures
        padded(n, w).len() == w,
{
    lemma_padded_is_fixed(n, w);
    lemma_fixed_len(n, w);
}

/// Appending pieces of equal length keeps an order already decided.
proof fn lemma_step(a: Seq<char>, b: Seq<char>, c: Seq<char>, d: Seq<char>)
    requires
        text_before(a, b),
        a.len() == b.len(),
        c.len() == d.len(),
    ensures
        text_before(a + c, b + d),
        (a + c).len() == (b + d).len(),
{
    lemma_text_before_extend(a, b, c, d);
}

/// Once the date decides, the time of day cannot undo it.
proof fn lemma_time_keeps_order(a: Seq<char>, b: Seq<char>, h1: nat, mi1: nat, s1: nat, h2: nat, mi2: nat, s2: nat)
    requires
        text_before(a, b),
        a.len() == b.len(),
        h1 < 100 && h2 < 100 && mi1 < 100 && mi2 < 100 && s1 < 100 && s2 < 100,
    ensures
        text_before(
            a + "T"@ + padded(h1, 2) + ":"@ + padded(mi1, 2) + ":"@ + padded(s1, 2) + "Z"@,
            b + "T"@ + padded(h2, 2) + ":"@ + padded(mi2, 2) + ":"@ + padded(s2, 2) + "Z"@,
        ),
{
    lemma_pow10_values();
    lemma_padded_len(h1, 2);
    lemma_padded_len(h2, 2);
    lemma_padded_len(mi1, 2);
    lemma_padded_len(mi2, 2);
    lemma_padded_len(s1, 2);
    lemma_padded_len(s2, 2);
    lemma_step(a, b, "T"@, "T"@);
    let a = a + "T"@;
    let b = b + "T"@;
    lemma_step(a, b, padded(h1, 2), padded(h2, 2));
    let a = a + padded(h1, 2);
    let b = b + padded(h2, 2);
    lemma_step(a, b, ":"@, ":"@);
    let a = a + ":"@;
    let b = b + ":"@;
    lemma_step(a, b, padded(mi1, 2), padded(mi2, 2));
    let a = a + padded(mi1, 2);
    let b = b + padded(mi2, 2);
    lemma_step(a, b, ":"@, ":"@);
    let a = a + ":"@;
    let b = b + ":"@;
    lemma_step(a, b, padded(s1, 2), padded(s2, 2));
    let a = a + padded(s1, 2);
    let b = b + padded(s2, 2);
    lemma_step(a, b, "Z"@, "Z"@);
}

proof fn lemma_year_decides(y1: nat, mo1: nat, d1: nat, h1: nat, mi1: nat, s1: nat, y2: nat, mo2: nat, d2: nat, h2: nat, mi2: nat, s2: nat)
    requires
        fields_ok(y1, mo1, d1, h1, mi1, s1),
        fields_ok(y2, mo2, d2, h2, mi2, s2),
        y1 < y2,
    ensures
        text_before(stamp(y1, mo1, d1, h1, mi1, s1), stamp(y2, mo2, d2, h2, mi2, s2)),
{
    lemma_pow10_values();
    lemma_padded_order(y1, y2, 4);
    lemma_padded_len(mo1, 2);
    lemma_padded_len(mo2, 2);
    lemma_padded_len(d1, 2);
    lemma_padded_len(d2, 2);
    let a = padded(y1, 4);
    let b = padded(y2, 4);
    lemma_step(a, b, "-"@, "-"@);
    let a = a + "-"@;
    let b = b + "-"@;
    lemma_step(a, b, padded(mo1, 2), padded(mo2, 2));
    let a = a + padded(mo1, 2);
    let b = b + padded(mo2, 2);
    lemma_step(a, b, "-"@, "-"@);
    let a = a + "-"@;
    let b = b + "-"@;
    lemma_step(a, b, padded(d1, 2), padded(d2, 2));
    let a = a + padded(d1, 2);
    let b = b + padded(d2, 2);
    lemma_time_keeps_order(a, b, h1, mi1, s1, h2, mi2, s2);
}

proof fn lemma_month_decides(y: nat, mo1: nat, d1: nat, h1: nat, mi1: nat, s1: nat, mo2: nat, d2: nat, h2: nat, mi2: nat, s2: nat)
    requires
        fields_ok(y, mo1, d1, h1, mi1, s1),
        fields_ok(y, mo2, d2, h2, mi2, s2),
        mo1 < mo2,
    ensures
        text_before(stamp(y, mo1, d1, h1, mi1, s1), stamp(y, mo2, d2, h2, mi2, s2)),
{
    lemma_pow10_values();
    lemma_padded_order(mo1, mo2, 2);
    lemma_padded_len(d1, 2);
    lemma_padded_len(d2, 2);
    let q = padded(y, 4) + "-"@;
    lemma_text_before_after(q, padded(mo1, 2), padded(mo2, 2));
    let a = q + padded(mo1, 2);
    let b = q + padded(mo2, 2);
    lemma_step(a, b, "-"@, "-"@);
    let a = a + "-"@;
    let b = b + "-"@;
    lemma_step(a, b, padded(d1, 2), padded(d2, 2));
    let a = a + padded(d1, 2);
    let b = b + padded(d2, 2);
    lemma_time_keeps_order(a, b, h1, mi1, s1, h2, mi2, s2);
}

proof fn lemma_day_decides(y: nat, mo: nat, d1: nat, h1: nat, mi1: nat, s1: nat, d2: nat, h2: nat, mi2: nat, s2: nat)
    requires
        fields_ok(y, mo, d1, h1, mi1, s1),
        fields_ok(y, mo, d2, h2, mi2, s2),
        d1 < d2,
    ensures
        text_before(stamp(y, mo, d1, h1, mi1, s1), stamp(y, mo, d2, h2, mi2, s2)),
{
    lemma_pow10_values();
    lemma_padded_order(d1, d2, 2);
    let q = padded(y, 4) + "-"@ + padded(mo, 2) + "-"@;
    lemma_text_before_after(q, padded(d1, 2), padded(d2, 2));
    lemma_time_keeps_order(q + padded(d1, 2), q + padded(d2, 2), h1, mi1, s1, h2, mi2, s2);
}

proof fn lemma_hour_decides(y: nat, mo: nat, d: nat, h1: nat, mi1: nat, s1: nat, h2: nat, mi2: nat, s2: nat)
    requires
        fields_ok(y, mo, d, h1, mi1, s1),
        fields_ok(y, mo, d, h2, mi2, s2),
        h1 < h2,
    ensures
        text_before(stamp(y, mo, d, h1, mi1, s1), stamp(y, mo, d, h2, mi2, s2)),
{
    lemma_pow10_values();
    let q = padded(y, 4) + "-"@ + padded(mo, 2) + "-"@ + padded(d, 2) + "T"@;
    let r1 = ":"@ + padded(mi1, 2) + ":"@ + padded(s1, 2) + "Z"@;
    let r2 = ":"@ + padded(mi2, 2) + ":"@ + padded(s2, 2) + "Z"@;
    lemma_field_decides(q, h1, h2, 2, r1, r2);
    assert(stamp(y, mo, d, h1, mi1, s1) =~= q + padded(h1, 2) + r1);
    assert(stamp(y, mo, d, h2, mi2, s2) =~= q + padded(h2, 2) + r2);
}

proof fn lemma_minute_decides(y: nat, mo: nat, d: nat, h: nat, mi1: nat, s1: nat, mi2: nat, s2: nat)
    requires
        fields_ok(y, mo, d, h, mi1, s1),
        fields_ok(y, mo, d, h, mi2, s2),
        mi1 < mi2,
    ensures
        text_before(stamp(y, mo, d, h, mi1, s1), stamp(y, mo, d, h, mi2, s2)),
{
    lemma_pow10_values();
    let q = padded(y, 4) + "-"@ + padded(mo, 2) + "-"@ + padded(d, 2) + "T"@ + padded(h, 2) + ":"@;
    let r1 = ":"@ + padded(s1, 2) + "Z"@;
    let r2 = ":"@ + padded(s2, 2) + "Z"@;
    lemma_field_decides(q, mi1, mi2, 2, r1, r2);
    assert(stamp(y, mo, d, h, mi1, s1) =~= q + padded(mi1, 2) + r1);
    assert(stamp(y, mo, d, h, mi2, s2) =~= q + padded(mi2, 2) + r2);
}

proof fn lemma_second_decides(y: nat, mo: nat, d: nat, h: nat, mi: nat, s1: nat, s2: nat)
    requires
        fields_ok(y, mo, d, h, mi, s1),
        fields_ok(y, mo, d, h, mi, s2),
        s1 < s2,
    ensures
        text_before(stamp(y, mo, d, h, mi, s1), stamp(y, mo, d, h, mi, s2)),
{
    lemma_pow10_values();
    let q = padded(y, 4) + "-"@ + padded(mo, 2) + "-"@ + padded(d, 2) + "T"@ + padded(h, 2) + ":"@ + padded(mi, 2) + ":"@;
    lemma_field_decides(q, s1, s2, 2, "Z"@, "Z"@);
}

proof fn lemma_stamps_order(
    y1: nat, mo1: nat, d1: nat, h1: nat, mi1: nat, s1: nat,
    y2: nat, mo2: nat, d2: nat, h2: nat, mi2: nat, s2: nat,
)
    requires
        fields_ok(y1, mo1, d1, h1, mi1, s1),
        fields_ok(y2, mo2, d2, h2, mi2, s2),
        ({
            ||| y1 < y2
            ||| (y1 == y2 && mo1 < mo2)
            ||| (y1 == y2 && mo1 == mo2 && d1 < d2)
            ||| (y1 == y2 && mo1 == mo2 && d1 == d2 && h1 < h2)
            ||| (y1 == y2 && mo1 == mo2 && d1 == d2 && h1 == h2 && mi1 < mi2)
            ||| (y1 == y2 && mo1 == mo2 && d1 == d2 && h1 == h2 && mi1 == mi2 && s1 < s2)
        }),
    ensures
        text_before(stamp(y1, mo1, d1, h1, mi1, s1), stamp(y2, mo2, d2, h2, mi2, s2)),
{
    if y1 < y2 {
        lemma_year_decides(y1, mo1, d1, h1, mi1, s1, y2, mo2, d2, h2, mi2, s2);
    } else if mo1 < mo2 {
        lemma_month_decides(y1, mo1, d1, h1, mi1, s1, mo2, d2, h2, mi2, s2);
    } else if d1 < d2 {
        lemma_day_decides(y1, mo1, d1, h1, mi1, s1, d2, h2, mi2, s2);
    } else if h1 < h2 {
        lemma_hour_decides(y1, mo1, d1, h1, mi1, s1, h2, mi2, s2);
    } else if mi1 < mi2 {
        lemma_minute_decides(y1, mo1, d1, h1, mi1, s1, mi2, s2);
    } else {
        lemma_second_decides(y1, mo1, d1, h1, mi1, s1, s2);
    }
}

/// Years up to 9999 are the ones a day count below 2932897 reaches.
proof fn lemma_year_range(days: int, y: int, m: int, d: int)
    requires
        0 <= days < 2932897,
        is_civil_date(days, y, m, d),
    ensures
        1970 <= y <= 9999,
{
    lemma_year_len_bounds(y);
    lemma_days_before_month_grow(y, m);
    assert(days_before_month(y, m) >= 0);
    if y < 1970 {
        lemma_days_before_year_increase(y + 1, 1970);
        law_years_advance_by_their_length(y);
        crate::loss_file::lemma_days_before_month_increase(y, m + 1, 13);
        assert(days_before_year(1970) == 0);
    }
    if y > 9999 {
        lemma_days_before_year_increase(10000, y);
        assert(days_before_year(10000) == 2932897);
    }
}

/// A later instant, up to the end of the year 9999, is written as a later
/// timestamp: the texts sort, as text, in the order of the instants they
/// name.
pub proof fn law_timestamps_sort_in_time_order(s1: nat, s2: nat)
    requires
        s1 < s2 < 253402300800,
    ensures
        text_before(timestamp_text(s1), timestamp_text(s2)),
{
    let days1 = s1 / 86400;
    let days2 = s2 / 86400;
    let sod1 = s1 % 86400;
    let sod2 = s2 % 86400;
    assert(days1 <= days2 && days2 < 2932897) by (nonlinear_arith)
        requires
            s1 < s2 < 253402300800,
            days1 == s1 / 86400,
            days2 == s2 / 86400,
    ;
    lemma_civil_date_exists(days1);
    lemma_civil_date_exists(days2);
    let (y1, m1, d1) = civil_date(days1 as int);
    let (y2, m2, d2) = civil_date(days2 as int);
    lemma_year_range(days1 as int, y1, m1, d1);
    lemma_year_range(days2 as int, y2, m2, d2);
    assert(month_len(y1, m1) <= 31 && month_len(y2, m2) <= 31);
    let h1 = sod1 / 3600;
    let h2 = sod2 / 3600;
    let mi1 = (sod1 / 60) % 60;
    let mi2 = (sod2 / 60) % 60;
    let ss1 = sod1 % 60;
    let ss2 = sod2 % 60;
    assert(h1 < 24 && h2 < 24 && mi1 < 60 && mi2 < 60 && ss1 < 60 && ss2 < 60) by (nonlinear_arith)
        requires
            sod1 < 86400,
            sod2 < 86400,
            h1 == sod1 / 3600,
            h2 == sod2 / 3600,
            mi1 == (sod1 / 60) % 60,
            mi2 == (sod2 / 60) % 60,
            ss1 == sod1 % 60,
            ss2 == sod2 % 60,
    ;
    if days1 < days2 {
        lemma_civil_dates_advance(days1 as int, y1, m1, d1, days2 as int, y2, m2, d2);
    } else {
        assert(sod1 < sod2) by (nonlinear_arith)
            requires
                s1 < s2,
                s1 / 86400 == s2 / 86400,
                sod1 == s1 % 86400,
                sod2 == s2 % 86400,
        ;
        assert({
            ||| h1 < h2
            ||| (h1 == h2 && mi1 < mi2)
            ||| (h1 == h2 && mi1 == mi2 && ss1 < ss2)
        }) by (nonlinear_arith)
            requires
                sod1 < sod2 < 86400,
                h1 == sod1 / 3600,
                h2 == sod2 / 3600,
                mi1 == (sod1 / 60) % 60,
                mi2 == (sod2 / 60) % 60,
                ss1 == sod1 % 60,
                ss2 == sod2 % 60,
        ;
    }
    lemma_stamps_order(
        y1 as nat, m1 as nat, d1 as nat, h1, mi1, ss1,
        y2 as nat, m2 as nat, d2 as nat, h2, mi2, ss2,
    );
}

/// A timestamp, up to the end of the year 9999, is twenty characters laid
/// out `YYYY-MM-DDTHH:MM:SSZ`: the year, month and day of the proleptic
/// Gregorian calendar date `s / 86400` days after 1970-01-01, then the
/// hour `(s % 86400) / 3600`, the minute `(s / 60) % 60` and the second
/// `s % 60`, each zero-padded to its width.
pub proof fn law_timestamp_layout(s: nat)
    requires
        s < 253402300800,
    ensures
        ({
            let (y, mo, d) = civil_date((s / 86400) as int);
            let t = timestamp_text(s);
            &&& is_civil_date((s / 86400) as int, y, mo, d)
            &&& 1970 <= y <= 9999
            &&& t.len() == 20
            &&& t == padded(y as nat, 4) + "-"@ + padded(mo as nat, 2) + "-"@ + padded(d as nat, 2)
                + "T"@ + padded((s % 86400) / 3600, 2) + ":"@ + padded((s / 60) % 60, 2) + ":"@
                + padded(s % 60, 2) + "Z"@
            &&& t.subrange(0, 4) == padded(y as nat, 4)
            &&& t[4] == '-' && t[7] == '-' && t[10] == 'T' && t[13] == ':' && t[16] == ':' && t[19] == 'Z'
            &&& t.subrange(5, 7) == padded(mo as nat, 2)
            &&& t.subrange(8, 10) == padded(d as nat, 2)
            &&& t.subrange(11, 13) == padded((s % 86400) / 3600, 2)
            &&& t.subrange(14, 16) == padded((s / 60) % 60, 2)
            &&& t.subrange(17, 19) == padded(s % 60, 2)
        }),
{
    let days = s / 86400;
    let sod = s % 86400;
    assert(days < 2932897) by (nonlinear_arith)
        requires
            s < 253402300800,
            days == s / 86400,
    ;
    lemma_civil_date_exists(days);
    let (y, mo, d) = civil_date(days as int);
    lemma_year_range(days as int, y, mo, d);
    assert(month_len(y, mo) <= 31);
    let hh = sod / 3600;
    let mi = (sod / 60) % 60;
    let ss = sod % 60;
    assert(hh < 24 && mi < 60 && ss < 60) by (nonlinear_arith)
        requires
            sod < 86400,
            hh == sod / 3600,
            mi == (sod / 60) % 60,
            ss == sod % 60,
    ;
    assert(mi == (s / 60) % 60 && ss == s % 60) by (nonlinear_arith)
        requires
            sod == s % 86400,
            mi == (sod / 60) % 60,
            ss == sod % 60,
    {
        assert(s == 86400 * (s / 86400) + sod);
        assert(s / 60 == 1440 * (s / 86400) + sod / 60);
        assert((s / 60) % 60 == (sod / 60) % 60);
    }
    lemma_pow10_values();
    lemma_padded_len(y as nat, 4);
    lemma_padded_len(mo as nat, 2);
    lemma_padded_len(d as nat, 2);
    lemma_padded_len(hh, 2);
    lemma_padded_len(mi, 2);
    lemma_padded_len(ss, 2);
    reveal_strlit("-");
    reveal_strlit("T");
    reveal_strlit(":");
    reveal_strlit("Z");
    assert("-"@ =~= seq!['-'] && "T"@ =~= seq!['T'] && ":"@ =~= seq![':'] && "Z"@ =~= seq!['Z']);
    let t = timestamp_text(s);
    let py = padded(y as nat, 4);
    let pm = padded(mo as nat, 2);
    let pd = padded(d as nat, 2);
    let ph = padded(hh, 2);
    let pi = padded(mi, 2);
    let ps = padded(ss, 2);
    assert(t == py + seq!['-'] + pm + seq!['-'] + pd + seq!['T'] + ph + seq![':'] + pi + seq![':'] + ps
        + seq!['Z']);
    assert(t.subrange(0, 4) =~= py);
    assert(t.subrange(5, 7) =~= pm);
    assert(t.subrange(8, 10) =~= pd);
    assert(t.subrange(11, 13) =~= ph);
    assert(t.subrange(14, 16) =~= pi);
    assert(t.subrange(17, 19) =~= ps);
}

} // verus!
