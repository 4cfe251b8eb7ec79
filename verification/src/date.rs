//! Civil dates in UTC and epoch milliseconds.
use vstd::prelude::*;

use crate::DAY_MS;
use vstd::arithmetic::div_mod::{lemma_fundamental_div_mod, lemma_fundamental_div_mod_converse};
use crate::text::{
    all_digits, chars_of, decimal, digit_char, digits_value, first_of, first_of_exec, is_digit, padded, parse_i64,
    parse_int, piece, piece_exec, push_all,
    push_padded, slice_vec, string_of, trim, trim_chars, trim_end_of, trim_end_of_exec, white_end, white_start,
};

verus! {

broadcast use vstd::string::group_string_axioms;


/// The civil date (year, month, day) of a day number, where day 0 is 1970-01-01.
/// Days of an era of 400 years are counted from March 1, so that the leap day is the last day of a year.
pub open spec fn civil_from_days(days: int) -> (int, int, int) {
    let z = days + 719468;
    let era = z / 146097;
    let doe = z - era * 146097;
    let yoe = (doe - doe / 1460 + doe / 36524 - doe / 146096) / 365;
    let doy = doe - (365 * yoe + yoe / 4 - yoe / 100);
    let mp = (5 * doy + 2) / 153;
    let d = doy - (153 * mp + 2) / 5 + 1;
    let m = if mp < 10 {
        mp + 3
    } else {
        mp - 9
    };
    let y = yoe + era * 400;
    (if m <= 2 {
        y + 1
    } else {
        y
    }, m, d)
}

/// The day number of a civil date, where day 0 is 1970-01-01: the days of the whole 400-year eras
/// since March 1 of year 0, the days of the whole years of the era, and the days of the year from March 1.
pub open spec fn days_from_civil(y: int, m: int, d: int) -> int {
    let y = if m <= 2 {
        y - 1
    } else {
        y
    };
    let era = y / 400;
    let yoe = y - era * 400;
    let mp = trem(m + 9, 12);
    let doy = tdiv(153 * mp + 2, 5) + d - 1;
    let doe = yoe * 365 + yoe / 4 - yoe / 100 + doy;
    era * 146097 + doe - 719468
}

/// Division that rounds toward zero, as `/` on Rust integers, for a positive divisor.
pub open spec fn tdiv(a: int, b: int) -> int {
    if a >= 0 {
        a / b
    } else {
        -((-a) / b)
    }
}

/// The remainder of `tdiv`, as `%` on Rust integers.
pub open spec fn trem(a: int, b: int) -> int {
    a - tdiv(a, b) * b
}

/// The text of a time in epoch milliseconds: "YYYY-MM-DD HH:MM UTC".
pub open spec fn date_text(ms: int) -> Seq<char> {
    let days = ms / (DAY_MS as int);
    let secs = (ms % (DAY_MS as int)) / 1000;
    let (y, m, d) = civil_from_days(days);
    padded(y, 4) + "-"@ + padded(m, 2) + "-"@ + padded(d, 2) + " "@ + padded(secs / 3600, 2) + ":"@
        + padded((secs / 60) % 60, 2) + " UTC"@
}

proof fn lemma_era_bounds(z: int)
    ensures
        0 <= z - (z / 146097) * 146097 < 146097,
{
}

proof fn lemma_year_of_era(doe: int)
    requires
        0 <= doe < 146097,
    ensures
        0 <= (doe - doe / 1460 + doe / 36524 - doe / 146096) / 365 < 400,
{
    assert(0 <= doe - doe / 1460 + doe / 36524 - doe / 146096 < 146000) by (nonlinear_arith)
        requires
            0 <= doe < 146097,
    ;
}

/// Reading back the date of a day number gives the day number: `civil_from_days` is a right
/// inverse of `days_from_civil`, so a date that `format_date` writes is the date of its day.
pub proof fn law_civil_round_trip(days: int)
    ensures
        days_from_civil(civil_from_days(days).0, civil_from_days(days).1, civil_from_days(days).2)
            == days,
{
    let z = days + 719468;
    let era = z / 146097;
    let doe = z - era * 146097;
    lemma_era_bounds(z);
    let yoe = (doe - doe / 1460 + doe / 36524 - doe / 146096) / 365;
    lemma_year_of_era(doe);
    let y0 = yoe + era * 400;
    assert(y0 / 400 == era && y0 - (y0 / 400) * 400 == yoe) by (nonlinear_arith)
        requires
            y0 == yoe + era * 400,
            0 <= yoe < 400,
    ;
    let doy = doe - (365 * yoe + yoe / 4 - yoe / 100);
    let mp = (5 * doy + 2) / 153;
    let m = if mp < 10 {
        mp + 3
    } else {
        mp - 9
    };
    lemma_day_of_year(doe);
    assert(0 <= mp < 12) by (nonlinear_arith)
        requires
            0 <= doy <= 365,
            mp == (5 * doy + 2) / 153,
    ;
}

/// A date shows the minute: every time within a minute has the text of the start of the minute.
pub proof fn law_date_to_the_minute(ms: int)
    ensures
        date_text(ms) == date_text(ms - ms % 60000),
{
    let dd = DAY_MS as int;
    let a = ms / dd;
    let r = ms % dd;
    lemma_fundamental_div_mod(ms, dd);
    let b = r / 60000;
    let c = r % 60000;
    lemma_fundamental_div_mod(r, 60000);
    assert(0 <= b < 1440) by (nonlinear_arith)
        requires
            r == 60000 * b + c,
            0 <= c < 60000,
            0 <= r < 86400000,
    ;
    assert(ms == (1440 * a + b) * 60000 + c) by (nonlinear_arith)
        requires
            ms == 86400000 * a + r,
            r == 60000 * b + c,
    ;
    lemma_fundamental_div_mod_converse(ms, 60000, 1440 * a + b, c);
    let q = ms - ms % 60000;
    assert(q == a * 86400000 + 60000 * b);
    lemma_fundamental_div_mod_converse(q, dd, a, 60000 * b);
    // The seconds of the day, and the hour and the minute that they show.
    let e = c / 1000;
    lemma_fundamental_div_mod(c, 1000);
    assert(0 <= e < 60) by (nonlinear_arith)
        requires
            c == 1000 * e + c % 1000,
            0 <= c % 1000 < 1000,
            0 <= c < 60000,
    ;
    assert(r == (60 * b + e) * 1000 + c % 1000);
    lemma_fundamental_div_mod_converse(r, 1000, 60 * b + e, c % 1000);
    let secs = r / 1000;
    let secs2 = (60000 * b) / 1000;
    lemma_fundamental_div_mod_converse(60000 * b, 1000, 60 * b, 0);
    assert(secs == 60 * b + e);
    assert(secs2 == 60 * b);
    lemma_fundamental_div_mod_converse(secs, 60, b, e);
    lemma_fundamental_div_mod_converse(secs2, 60, b, 0);
    let h = b / 60;
    lemma_fundamental_div_mod(b, 60);
    assert(secs == h * 3600 + (60 * (b % 60) + e));
    assert(0 <= 60 * (b % 60) + e < 3600);
    lemma_fundamental_div_mod_converse(secs, 3600, h, 60 * (b % 60) + e);
    assert(secs2 == h * 3600 + 60 * (b % 60));
    lemma_fundamental_div_mod_converse(secs2, 3600, h, 60 * (b % 60));
}

proof fn lemma_day_of_year_bv(doe: u32)
    by (bit_vector)
    requires
        doe < 146097,
    ensures
        ({
            let yoe = (doe - doe / 1460 + doe / 36524 - doe / 146096) / 365;
            &&& 365 * yoe + yoe / 4 - yoe / 100 <= doe
            &&& doe <= 365 * yoe + yoe / 4 - yoe / 100 + 365
        }),
{
}

/// The day of the year of a day of an era is between 0 and 365.
proof fn lemma_day_of_year(doe: int)
    requires
        0 <= doe < 146097,
    ensures
        ({
            let yoe = (doe - doe / 1460 + doe / 36524 - doe / 146096) / 365;
            let doy = doe - (365 * yoe + yoe / 4 - yoe / 100);
            0 <= doy <= 365
        }),
{
    lemma_day_of_year_bv(doe as u32);
}

// MARK: Reading a date back

spec fn pow10(k: nat) -> nat
    decreases k,
{
    if k == 0 {
        1
    } else {
        10 * pow10((k - 1) as nat)
    }
}

proof fn lemma_digit_char(n: int)
    requires
        0 <= n < 10,
    ensures
        is_digit(digit_char(n)),
        digit_char(n) as int == n + 48,
{
    assert(((n + 48) as u32) as char as int == n + 48);
}

proof fn lemma_decimal(n: nat, k: nat)
    requires
        1 <= k,
        n < pow10(k),
    ensures
        1 <= decimal(n).len() <= k,
        all_digits(decimal(n)),
        digits_value(decimal(n)) == n,
    decreases n,
{
    if n < 10 {
        lemma_digit_char(n as int);
        let t = decimal(n);
        assert(t == seq![digit_char(n as int)]);
        assert(t.drop_last() =~= Seq::<char>::empty());
        assert(digits_value(t) == digits_value(t.drop_last()) * 10 + (t.last() as int - 48));
    } else {
        if k == 1 {
            assert(pow10(1) == 10 * pow10(0));
        }
        assert(pow10(k) == 10 * pow10((k - 1) as nat));
        assert(n / 10 < pow10((k - 1) as nat)) by (nonlinear_arith)
            requires
                n < 10 * pow10((k - 1) as nat),
                n >= 10,
        ;
        lemma_decimal(n / 10, (k - 1) as nat);
        lemma_digit_char((n % 10) as int);
        let t = decimal(n);
        assert(t.drop_last() =~= decimal(n / 10));
        assert(t.last() == digit_char((n % 10) as int));
        assert forall|i: int| 0 <= i < t.len() implies is_digit(#[trigger] t[i]) by {
            if i < t.len() - 1 {
                assert(t[i] == decimal(n / 10)[i]);
            }
        }
        assert(digits_value(t) == digits_value(t.drop_last()) * 10 + (t.last() as int - 48));
        assert(n == (n / 10) * 10 + n % 10);
    }
}

proof fn lemma_zeros_value(z: Seq<char>, s: Seq<char>)
    requires
        forall|i: int| 0 <= i < z.len() ==> #[trigger] z[i] == '0',
    ensures
        digits_value(z + s) == digits_value(s),
    decreases z.len() + s.len(),
{
    if s.len() == 0 {
        assert(z + s =~= z);
        if z.len() > 0 {
            lemma_zeros_value(z.drop_last(), s);
            assert(z.drop_last() + s =~= z.drop_last());
            assert(z.last() == '0');
        }
    } else {
        lemma_zeros_value(z, s.drop_last());
        assert((z + s).drop_last() =~= z + s.drop_last());
        assert((z + s).last() == s.last());
    }
}

/// A number below 10^w written with zeros to width `w` has `w` digits and reads back.
proof fn lemma_padded(n: int, w: nat)
    requires
        1 <= w,
        0 <= n < pow10(w),
        pow10(w) <= 10000,
    ensures
        padded(n, w).len() == w,
        all_digits(padded(n, w)),
        parse_int(padded(n, w)) == Some(n),
{
    lemma_decimal(n as nat, w);
    let dgt = decimal(n as nat);
    let p = padded(n, w);
    let z = Seq::new((w - dgt.len()) as nat, |i: int| '0');
    if dgt.len() >= w {
        assert(p == dgt);
    } else {
        assert(p == z + dgt);
        lemma_zeros_value(z, dgt);
        assert forall|i: int| 0 <= i < p.len() implies is_digit(#[trigger] p[i]) by {
            if i >= z.len() {
                assert(p[i] == dgt[i - z.len()]);
            }
        }
    }
    assert(is_digit(p[0]));
    assert(digits_value(p) == n);
}

proof fn lemma_day_of_month_bv(doy: u32)
    by (bit_vector)
    requires
        doy <= 365,
    ensures
        ({
            let mp = (5 * doy + 2) / 153;
            &&& mp < 12
            &&& (153 * mp + 2) / 5 <= doy
            &&& doy - (153 * mp + 2) / 5 <= 30
        }),
{
}

/// The civil date of a day before the year 10000 has a year from 0 to 9999, a month from 1 to 12,
/// and a day from 1 to 31.
proof fn lemma_civil_bounds(days: int)
    requires
        0 <= days < 2932897,
    ensures
        ({
            let (y, m, d) = civil_from_days(days);
            0 <= y < 10000 && 1 <= m <= 12 && 1 <= d <= 31
        }),
{
    let z = days + 719468;
    let era = z / 146097;
    let doe = z - era * 146097;
    lemma_era_bounds(z);
    lemma_fundamental_div_mod(z, 146097);
    assert(4 <= era <= 24);
    lemma_year_of_era(doe);
    lemma_day_of_year(doe);
    let yoe = (doe - doe / 1460 + doe / 36524 - doe / 146096) / 365;
    let doy = doe - (365 * yoe + yoe / 4 - yoe / 100);
    lemma_day_of_month_bv(doy as u32);
    let mp = (5 * doy + 2) / 153;
    let (y, m, d) = civil_from_days(days);
    assert(1 <= m <= 12);
    assert(1 <= d <= 31);
    assert(0 <= y <= 10000);
    if y == 10000 {
        law_civil_round_trip(days);
        assert(m <= 2);
        let mp2 = trem(m + 9, 12);
        assert(mp2 == m + 9);
        assert(tdiv(153 * mp2 + 2, 5) >= 306);
        assert(days_from_civil(y, m, d) >= 2932897);
    }
}

proof fn lemma_first_of_at(s: Seq<char>, c: char, from: int, k: int)
    requires
        0 <= from <= k <= s.len(),
        forall|i: int| from <= i < k ==> s[i] != c,
        k < s.len() ==> s[k] == c,
    ensures
        first_of(s, seq![c], from) == k,
    decreases k - from,
{
    if from < k {
        if seq![c].contains(s[from]) {
            let j = choose|j: int| 0 <= j < 1 && seq![c][j] == s[from];
            assert(j == 0);
        }
        lemma_first_of_at(s, c, from + 1, k);
    } else if k < s.len() {
        assert(seq![c][0] == s[k]);
    }
}

proof fn lemma_digits_not(p: Seq<char>, c: char)
    requires
        all_digits(p),
        !is_digit(c),
    ensures
        forall|i: int| 0 <= i < p.len() ==> #[trigger] p[i] != c,
{
    assert forall|i: int| 0 <= i < p.len() implies #[trigger] p[i] != c by {
        assert(is_digit(p[i]));
    }
}

/// The first piece of `a`, a separator, and `b`, split at the separator, is `a`.
proof fn lemma_piece_head(a: Seq<char>, sep: char, b: Seq<char>)
    requires
        all_digits(a),
        !is_digit(sep),
    ensures
        piece(a + seq![sep] + b, sep, 0) == Some(a),
        first_of(a + seq![sep] + b, seq![sep], 0) == a.len(),
        (a + seq![sep] + b).skip(a.len() as int + 1) == b,
{
    let t = a + seq![sep] + b;
    lemma_digits_not(a, sep);
    assert forall|i: int| 0 <= i < a.len() implies t[i] != sep by {
        assert(t[i] == a[i]);
    }
    lemma_first_of_at(t, sep, 0, a.len() as int);
    assert(t.take(a.len() as int) =~= a);
    assert(t.skip(a.len() as int + 1) =~= b);
}

/// A piece without the separator is the first piece, and the only one.
proof fn lemma_piece_last(a: Seq<char>, sep: char)
    requires
        all_digits(a),
        !is_digit(sep),
    ensures
        piece(a, sep, 0) == Some(a),
        piece(a, sep, 1) is None,
{
    lemma_digits_not(a, sep);
    lemma_first_of_at(a, sep, 0, a.len() as int);
    assert(a.take(a.len() as int) =~= a);
}

/// The date that `format_date` writes reads back: for a whole minute from 1970 to the end of the year
/// 9999, the text has 20 characters and ends with " UTC", and its date and time, joined by 'T', read
/// back as the same time.
pub proof fn law_date_reads_back(ms: int)
    requires
        0 <= ms < 253402300800000,
        ms % 60000 == 0,
    ensures
        date_text(ms).len() == 20,
        date_text(ms).skip(16) == " UTC"@,
        ({
            let s = date_text(ms);
            let t = s.take(10) + "T"@ + s.subrange(11, 16);
            utc_fields_of(t) matches Some(f) && f.5 == "0"@ && utc_value(f.0, f.1, f.2, f.3, f.4, 0) == ms
        }),
{
    let dd = DAY_MS as int;
    let days = ms / dd;
    let r = ms % dd;
    lemma_fundamental_div_mod(ms, dd);
    assert(0 <= days < 2932897);
    let secs = r / 1000;
    let (y, m, d) = civil_from_days(days);
    lemma_civil_bounds(days);
    // The hour and the minute of a whole minute.
    let b = r / 60000;
    lemma_fundamental_div_mod(r, 60000);
    assert(ms == (1440 * days + b) * 60000 + r % 60000) by (nonlinear_arith)
        requires
            ms == 86400000 * days + r,
            r == 60000 * b + r % 60000,
    ;
    lemma_fundamental_div_mod_converse(ms, 60000, 1440 * days + b, r % 60000);
    assert(r % 60000 == 0);
    assert(0 <= b < 1440);
    lemma_fundamental_div_mod_converse(r, 1000, 60 * b, 0);
    assert(secs == 60 * b);
    lemma_fundamental_div_mod_converse(secs, 60, b, 0);
    let h = secs / 3600;
    let mi = (secs / 60) % 60;
    lemma_fundamental_div_mod(b, 60);
    lemma_fundamental_div_mod_converse(secs, 3600, b / 60, 60 * (b % 60));
    assert(h == b / 60 && mi == b % 60);
    assert(0 <= h < 24);
    assert(h * 3600000 + mi * 60000 == r);
    // The text.
    reveal_with_fuel(pow10, 5);
    lemma_padded(y, 4);
    lemma_padded(m, 2);
    lemma_padded(d, 2);
    lemma_padded(h, 2);
    lemma_padded(mi, 2);
    let py = padded(y, 4);
    let pm = padded(m, 2);
    let pd = padded(d, 2);
    let ph = padded(h, 2);
    let pmi = padded(mi, 2);
    reveal_strlit("-");
    reveal_strlit(" ");
    reveal_strlit(":");
    reveal_strlit(" UTC");
    reveal_strlit("T");
    let s = date_text(ms);
    assert(s =~= py + seq!['-'] + pm + seq!['-'] + pd + seq![' '] + ph + seq![':'] + pmi + " UTC"@);
    assert(s.skip(16) =~= " UTC"@);
    let date = py + seq!['-'] + pm + seq!['-'] + pd;
    let time = ph + seq![':'] + pmi;
    assert(s.take(10) =~= date);
    assert(s.subrange(11, 16) =~= time);
    let t = s.take(10) + "T"@ + s.subrange(11, 16);
    assert(t =~= date + seq!['T'] + time);
    // The text has no white space or 'Z' at its ends.
    assert(is_digit(t[0]) && is_digit(t[t.len() - 1])) by {
        assert(t[0] == py[0]);
        assert(t[t.len() - 1] == pmi[1]);
    }
    assert(white_end(t, 0) == 0);
    assert(white_start(t, 0, t.len() as int) == t.len());
    assert(trim(t) =~= t);
    assert(!seq!['Z'].contains(t[t.len() - 1])) by {
        if seq!['Z'].contains(t[t.len() - 1]) {
            let j = choose|j: int| 0 <= j < 1 && seq!['Z'][j] == t[t.len() - 1];
            assert(j == 0);
        }
    }
    assert(trim_end_of(t, seq!['Z'], 0, t.len() as int) == t.len());
    assert(utc_core(t) =~= t);
    // The date and the time, and their pieces.
    assert forall|i: int| 0 <= i < 10 implies t[i] != 'T' by {
        if i < 4 {
            assert(t[i] == py[i]);
            assert(is_digit(py[i]));
        } else if i == 4 || i == 7 {
        } else if i < 7 {
            assert(t[i] == pm[i - 5]);
            assert(is_digit(pm[i - 5]));
        } else {
            assert(t[i] == pd[i - 8]);
            assert(is_digit(pd[i - 8]));
        }
    }
    lemma_first_of_at(t, 'T', 0, 10);
    assert(t.take(10) =~= date);
    assert(t.skip(11) =~= time);
    lemma_piece_head(py, '-', pm + seq!['-'] + pd);
    assert(date =~= py + seq!['-'] + (pm + seq!['-'] + pd));
    lemma_piece_head(pm, '-', pd);
    lemma_piece_last(pd, '-');
    assert(piece(date, '-', 0) == Some(py));
    assert(piece(date, '-', 1) == piece(pm + seq!['-'] + pd, '-', 0));
    assert(piece(date, '-', 1) == Some(pm));
    assert(piece(pm + seq!['-'] + pd, '-', 1) == piece(pd, '-', 0));
    assert(piece(date, '-', 2) == Some(pd));
    lemma_piece_head(ph, ':', pmi);
    lemma_piece_last(pmi, ':');
    assert(piece(time, ':', 0) == Some(ph));
    assert(piece(time, ':', 1) == Some(pmi));
    assert(piece(time, ':', 2) == piece(pmi, ':', 1));
    assert(piece(time, ':', 2) is None);
    // The value.
    law_civil_round_trip(days);
    assert(utc_value(y, m, d, h, mi, 0) == days * dd + r);
}

/// The date and time of `ms` epoch milliseconds in UTC, as "YYYY-MM-DD HH:MM UTC".
pub fn format_date(ms: i64) -> (r: String)
    ensures
        r@ == date_text(ms as int),
{
    let days = ms.checked_div_euclid(DAY_MS).unwrap();
    let secs = ms.checked_rem_euclid(DAY_MS).unwrap() / 1000;
    let z = days + 719468;
    let era = z.checked_div_euclid(146097).unwrap();
    let doe = z - era * 146097;
    proof {
        lemma_era_bounds(z as int);
        lemma_year_of_era(doe as int);
    }
    let yoe = (doe - doe / 1460 + doe / 36524 - doe / 146096) / 365;
    let doy = doe - (365 * yoe + yoe / 4 - yoe / 100);
    let mp = (5 * doy + 2).checked_div_euclid(153).unwrap();
    let d = doy - (153 * mp + 2).checked_div_euclid(5).unwrap() + 1;
    let m = if mp < 10 {
        mp + 3
    } else {
        mp - 9
    };
    let y = yoe + era * 400;
    let y = if m <= 2 {
        y + 1
    } else {
        y
    };
    let mut out: Vec<char> = Vec::new();
    push_padded(&mut out, y, 4);
    push_all(&mut out, &chars_of("-"));
    push_padded(&mut out, m, 2);
    push_all(&mut out, &chars_of("-"));
    push_padded(&mut out, d, 2);
    push_all(&mut out, &chars_of(" "));
    push_padded(&mut out, secs / 3600, 2);
    push_all(&mut out, &chars_of(":"));
    push_padded(&mut out, (secs / 60) % 60, 2);
    push_all(&mut out, &chars_of(" UTC"));
    string_of(&out)
}

} // verus!

verus! {

/// The parts of a UTC time such as "2026-03-24T11:06:36.463Z": the year, the month, the day,
/// the hour, the minute, and the text of the seconds.
pub struct UtcFields {
    pub year: i64,
    pub month: i64,
    pub day: i64,
    pub hour: i64,
    pub minute: i64,
    pub seconds: String,
}

/// The text without white space around it and without the 'Z' characters at its end.
pub open spec fn utc_core(s: Seq<char>) -> Seq<char> {
    let t = trim(s);
    t.take(trim_end_of(t, seq!['Z'], 0, t.len() as int))
}

/// An integer piece of a text split at `sep`.
pub open spec fn int_piece(s: Seq<char>, sep: char, k: nat) -> Option<int> {
    match piece(s, sep, k) {
        Some(p) => parse_int(p),
        None => None,
    }
}

/// The date before 'T' split at '-' into the year, the month, and the day, and the time after 'T'
/// split at ':' into the hour, the minute, and the seconds ("0" when the time has no seconds).
pub open spec fn utc_fields_of(s: Seq<char>) -> Option<(int, int, int, int, int, Seq<char>)> {
    let t = utc_core(s);
    let ti = first_of(t, seq!['T'], 0);
    if ti >= t.len() {
        None
    } else {
        let date = t.take(ti);
        let time = t.skip(ti + 1);
        match (
            int_piece(date, '-', 0),
            int_piece(date, '-', 1),
            int_piece(date, '-', 2),
            int_piece(time, ':', 0),
            int_piece(time, ':', 1),
        ) {
            (Some(y), Some(m), Some(d), Some(h), Some(min)) => Some(
                (
                    y,
                    m,
                    d,
                    h,
                    min,
                    match piece(time, ':', 2) {
                        Some(sec) => sec,
                        None => "0"@,
                    },
                ),
            ),
            _ => None,
        }
    }
}

pub open spec fn fields_view(f: UtcFields) -> (int, int, int, int, int, Seq<char>) {
    (f.year as int, f.month as int, f.day as int, f.hour as int, f.minute as int, f.seconds@)
}

fn int_piece_exec(s: &[char], sep: char, k: usize) -> (r: Option<i64>)
    ensures
        match r {
            Some(v) => int_piece(s@, sep, k as nat) == Some(v as int),
            None => int_piece(s@, sep, k as nat) is None,
        },
{
    match piece_exec(s, sep, k) {
        Some(p) => parse_i64(&p),
        None => None,
    }
}

/// Splits a UTC time such as "2026-03-24T11:06:36.463Z" into its parts, as `utc_fields_of` states.
pub fn utc_fields(s: &str) -> (r: Option<UtcFields>)
    ensures
        match r {
            Some(f) => utc_fields_of(s@) == Some(fields_view(f)),
            None => utc_fields_of(s@) is None,
        },
{
    let t0 = trim_chars(&chars_of(s));
    let z = ['Z'];
    assert(z@ =~= seq!['Z']);
    let end = trim_end_of_exec(&t0, &z, 0, t0.len());
    let t = slice_vec(&t0, 0, end);
    let tt = ['T'];
    assert(tt@ =~= seq!['T']);
    let ti = first_of_exec(&t, &tt, 0);
    if ti >= t.len() {
        return None;
    }
    let date = slice_vec(&t, 0, ti);
    let time = slice_vec(&t, ti + 1, t.len());
    let y = int_piece_exec(&date, '-', 0);
    let m = int_piece_exec(&date, '-', 1);
    let d = int_piece_exec(&date, '-', 2);
    let h = int_piece_exec(&time, ':', 0);
    let min = int_piece_exec(&time, ':', 1);
    match (y, m, d, h, min) {
        (Some(year), Some(month), Some(day), Some(hour), Some(minute)) => {
            let seconds = match piece_exec(&time, ':', 2) {
                Some(sec) => string_of(&sec),
                None => string_of(&chars_of("0")),
            };
            Some(UtcFields { year, month, day, hour, minute, seconds })
        },
        _ => None,
    }
}

/// The epoch milliseconds of a UTC date and time with `second_ms` milliseconds of seconds.
pub open spec fn utc_value(y: int, m: int, d: int, h: int, min: int, second_ms: int) -> int {
    days_from_civil(y, m, d) * (DAY_MS as int) + h * 3600000 + min * 60000 + second_ms
}

/// The epoch milliseconds of the parts of a UTC time, with `second_ms` milliseconds for the seconds.
/// The result is `None` when it does not fit in an `i64`.
pub fn utc_ms(f: &UtcFields, second_ms: i64) -> (r: Option<i64>)
    ensures
        ({
            let v = utc_value(
                f.year as int,
                f.month as int,
                f.day as int,
                f.hour as int,
                f.minute as int,
                second_ms as int,
            );
            r == if i64::MIN <= v <= i64::MAX {
                Some(v as i64)
            } else {
                None::<i64>
            }
        }),
{
    let m = f.month as i128;
    let y0 = f.year as i128;
    let y = if m <= 2 {
        y0 - 1
    } else {
        y0
    };
    let era = y.checked_div_euclid(400).unwrap();
    let yoe = y - era * 400;
    proof {
        assert(0 <= yoe < 400) by (nonlinear_arith)
            requires
                yoe == y - era * 400,
                era == y / 400,
        ;
    }
    let mp = (m + 9) % 12;
    let doy = (153 * mp + 2) / 5 + f.day as i128 - 1;
    let doe = yoe * 365 + yoe / 4 - yoe / 100 + doy;
    let days = era * 146097 + doe - 719468;
    proof {
        assert(-10000000000000000000000 <= era * 146097 <= 10000000000000000000000) by (
        nonlinear_arith)
            requires
                era == y / 400,
                -9223372036854775809 <= y <= 9223372036854775807,
        ;
    }
    let total = days * 86400000 + (f.hour as i128) * 3600000 + (f.minute as i128) * 60000
        + second_ms as i128;
    if total < i64::MIN as i128 || total > i64::MAX as i128 {
        None
    } else {
        Some(total as i64)
    }
}

} // verus!
