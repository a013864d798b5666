//! Parsing and ordering of the canonical timestamp format
//! `YYYY-MM-DDTHH:MM:SS[.fraction]Z`: a calendar-checked parse and an
//! order-preserving integer key used for time sorting.
use vstd::prelude::*;

verus! {

/// Ghost image of a parsed timestamp.
pub ghost struct TimeV {
    pub year: int,
    pub month: int,
    pub day: int,
    pub hour: int,
    pub minute: int,
    pub second: int,
    pub nanos: int,
}

/// An ASCII digit.
pub open spec fn spec_is_digit(c: char) -> bool {
    '0' <= c && c <= '9'
}

/// The numeric value of an ASCII digit.
pub open spec fn spec_dv(c: char) -> int {
    c as u32 - '0' as u32
}

/// Every character in `[a, b)` is a digit.
pub open spec fn spec_all_digits(s: Seq<char>, a: int, b: int) -> bool {
    forall|k: int| a <= k < b ==> spec_is_digit(#[trigger] s[k])
}

/// The value of a digit run, most significant first.
pub open spec fn spec_digits_val(s: Seq<char>) -> int
    decreases s.len(),
{
    if s.len() == 0 {
        0
    } else {
        spec_digits_val(s.drop_last()) * 10 + spec_dv(s.last())
    }
}

/// Powers of ten.
pub open spec fn spec_pow10(k: nat) -> int
    decreases k,
{
    if k == 0 {
        1
    } else {
        10 * spec_pow10((k - 1) as nat)
    }
}

/// Gregorian leap years.
pub open spec fn spec_is_leap(y: int) -> bool {
    (y % 4 == 0 && y % 100 != 0) || y % 400 == 0
}

/// The number of days in a month.
pub open spec fn spec_days_in_month(y: int, m: int) -> int {
    if m == 2 {
        if spec_is_leap(y) {
            29
        } else {
            28
        }
    } else if m == 4 || m == 6 || m == 9 || m == 11 {
        30
    } else {
        31
    }
}

/// A calendar-valid timestamp.
pub open spec fn spec_time_valid(t: TimeV) -> bool {
    &&& 0 <= t.year <= 9999
    &&& 1 <= t.month <= 12
    &&& 1 <= t.day <= spec_days_in_month(t.year, t.month)
    &&& 0 <= t.hour < 24
    &&& 0 <= t.minute < 60
    &&& 0 <= t.second < 60
    &&& 0 <= t.nanos < 1000000000
}

/// The fixed positions of the canonical format up to the seconds field.
pub open spec fn spec_shape_ok(s: Seq<char>) -> bool {
    &&& s.len() >= 20
    &&& spec_all_digits(s, 0, 4)
    &&& s[4] == '-'
    &&& spec_all_digits(s, 5, 7)
    &&& s[7] == '-'
    &&& spec_all_digits(s, 8, 10)
    &&& s[10] == 'T'
    &&& spec_all_digits(s, 11, 13)
    &&& s[13] == ':'
    &&& spec_all_digits(s, 14, 16)
    &&& s[16] == ':'
    &&& spec_all_digits(s, 17, 19)
}

/// The optional fractional part: either the string ends with `Z` right after
/// the seconds, or a dot is followed by one to nine digits and `Z`.
pub open spec fn spec_frac_ok(s: Seq<char>) -> bool {
    if s.len() == 20 {
        s[19] == 'Z'
    } else {
        &&& 22 <= s.len() <= 30
        &&& s[19] == '.'
        &&& s[s.len() - 1] == 'Z'
        &&& spec_all_digits(s, 20, s.len() - 1)
    }
}

/// The nanosecond value encoded by the fractional part.
pub open spec fn spec_frac_nanos(s: Seq<char>) -> int {
    if s.len() == 20 {
        0
    } else {
        spec_digits_val(s.subrange(20, s.len() - 1)) * spec_pow10((9 - (s.len() - 21)) as nat)
    }
}

/// The fields read off a well-shaped string.
pub open spec fn spec_fields_of(s: Seq<char>) -> TimeV {
    TimeV {
        year: spec_dv(s[0]) * 1000 + spec_dv(s[1]) * 100 + spec_dv(s[2]) * 10 + spec_dv(s[3]),
        month: spec_dv(s[5]) * 10 + spec_dv(s[6]),
        day: spec_dv(s[8]) * 10 + spec_dv(s[9]),
        hour: spec_dv(s[11]) * 10 + spec_dv(s[12]),
        minute: spec_dv(s[14]) * 10 + spec_dv(s[15]),
        second: spec_dv(s[17]) * 10 + spec_dv(s[18]),
        nanos: spec_frac_nanos(s),
    }
}

/// Parsing the canonical timestamp format: defined exactly when the shape,
/// the fraction and the calendar all check out.
pub open spec fn spec_parse_time(s: Seq<char>) -> Option<TimeV> {
    if spec_shape_ok(s) && spec_frac_ok(s) && spec_time_valid(spec_fields_of(s)) {
        Some(spec_fields_of(s))
    } else {
        None
    }
}

/// An order-preserving integer key: field-lexicographic order packed into
/// one integer, so that key order is exactly timestamp order.
pub open spec fn spec_time_key(t: TimeV) -> int {
    (((((t.year * 13 + t.month) * 32 + t.day) * 24 + t.hour) * 60 + t.minute) * 60 + t.second)
        * 1000000000 + t.nanos
}

/// Parsing composed with the key.
pub open spec fn spec_parse_time_key(s: Seq<char>) -> Option<int> {
    match spec_parse_time(s) {
        Some(t) => Some(spec_time_key(t)),
        None => None,
    }
}

/// Field-lexicographic order on timestamps: the chronological order of the
/// instants they name.
pub open spec fn spec_time_le(a: TimeV, b: TimeV) -> bool {
    if a.year != b.year {
        a.year < b.year
    } else if a.month != b.month {
        a.month < b.month
    } else if a.day != b.day {
        a.day < b.day
    } else if a.hour != b.hour {
        a.hour < b.hour
    } else if a.minute != b.minute {
        a.minute < b.minute
    } else if a.second != b.second {
        a.second < b.second
    } else {
        a.nanos <= b.nanos
    }
}

/// Packing one more bounded field preserves strict order.
proof fn lemma_pack_step(a1: int, a2: int, x1: int, x2: int, b: int)
    requires
        b > 0,
        0 <= x1 < b,
        0 <= x2 < b,
        a1 < a2,
    ensures
        a1 * b + x1 < a2 * b + x2,
{
    assert(a1 * b + x1 < a2 * b + x2) by (nonlinear_arith)
        requires
            b > 0,
            0 <= x1 < b,
            0 <= x2 < b,
            a1 < a2,
    ;
}

/// A strictly earlier calendar time packs to a strictly smaller key.
proof fn lemma_time_key_strict(a: TimeV, b: TimeV)
    requires
        spec_time_valid(a),
        spec_time_valid(b),
        spec_time_le(a, b),
        a != b,
    ensures
        spec_time_key(a) < spec_time_key(b),
{
    let pa1 = a.year * 13 + a.month;
    let pb1 = b.year * 13 + b.month;
    if a.year < b.year {
        lemma_pack_step(a.year, b.year, a.month, b.month, 13);
    }
    assert(pa1 <= pb1);
    let pa2 = pa1 * 32 + a.day;
    let pb2 = pb1 * 32 + b.day;
    if pa1 < pb1 {
        lemma_pack_step(pa1, pb1, a.day, b.day, 32);
    }
    assert(pa2 <= pb2);
    let pa3 = pa2 * 24 + a.hour;
    let pb3 = pb2 * 24 + b.hour;
    if pa2 < pb2 {
        lemma_pack_step(pa2, pb2, a.hour, b.hour, 24);
    }
    assert(pa3 <= pb3);
    let pa4 = pa3 * 60 + a.minute;
    let pb4 = pb3 * 60 + b.minute;
    if pa3 < pb3 {
        lemma_pack_step(pa3, pb3, a.minute, b.minute, 60);
    }
    assert(pa4 <= pb4);
    let pa5 = pa4 * 60 + a.second;
    let pb5 = pb4 * 60 + b.second;
    if pa4 < pb4 {
        lemma_pack_step(pa4, pb4, a.second, b.second, 60);
    }
    assert(pa5 <= pb5);
    if pa5 < pb5 {
        lemma_pack_step(pa5, pb5, a.nanos, b.nanos, 1000000000);
    } else {
        assert(a.nanos < b.nanos);
    }
}

/// Key order is chronological order: for calendar-valid timestamps the
/// packed keys compare exactly as the instants do, so sorting by key is
/// sorting by time.
pub proof fn lemma_time_key_order(a: TimeV, b: TimeV)
    requires
        spec_time_valid(a),
        spec_time_valid(b),
    ensures
        spec_time_key(a) <= spec_time_key(b) <==> spec_time_le(a, b),
{
    if a == b {
    } else if spec_time_le(a, b) {
        lemma_time_key_strict(a, b);
    } else {
        assert(spec_time_le(b, a));
        lemma_time_key_strict(b, a);
    }
}

/// Reads a two-digit field.
pub fn read2(v: &Vec<char>, i: usize) -> (r: Option<u32>)
    requires
        i + 2 <= v.len(),
    ensures
        match r {
            Some(n) => spec_all_digits(v@, i as int, i + 2) && n == spec_dv(v@[i as int]) * 10
                + spec_dv(v@[i + 1]) && n < 100,
            None => !spec_all_digits(v@, i as int, i + 2),
        },
{
    let c0 = v[i];
    let c1 = v[i + 1];
    if '0' <= c0 && c0 <= '9' && '0' <= c1 && c1 <= '9' {
        Some(((c0 as u32) - 48) * 10 + ((c1 as u32) - 48))
    } else {
        None
    }
}

/// Parses a canonical timestamp and returns its sortable key; `None` exactly
/// on strings that are not in the canonical format or name no real calendar
/// time.
pub fn parse_time_key(s: &str) -> (r: Option<u128>)
    ensures
        match r {
            Some(k) => spec_parse_time_key(s@) == Some(k as int),
            None => spec_parse_time_key(s@) is None,
        },
{
    let v = crate::text::chars_of(s);
    let n = v.len();
    if n < 20 {
        return None;
    }
    if !(v[4] == '-' && v[7] == '-' && v[10] == 'T' && v[13] == ':' && v[16] == ':') {
        return None;
    }
    let y_hi = match read2(&v, 0) {
        Some(x) => x,
        None => {
            return None;
        },
    };
    let y_lo = match read2(&v, 2) {
        Some(x) => x,
        None => {
            return None;
        },
    };
    let year = y_hi * 100 + y_lo;
    proof {
        assert(year == spec_fields_of(v@).year);
    }
    let month = match read2(&v, 5) {
        Some(x) => x,
        None => {
            return None;
        },
    };
    let day = match read2(&v, 8) {
        Some(x) => x,
        None => {
            return None;
        },
    };
    let hour = match read2(&v, 11) {
        Some(x) => x,
        None => {
            return None;
        },
    };
    let minute = match read2(&v, 14) {
        Some(x) => x,
        None => {
            return None;
        },
    };
    let second = match read2(&v, 17) {
        Some(x) => x,
        None => {
            return None;
        },
    };
    // Fractional part.
    let mut nanos: u64 = 0;
    if n == 20 {
        if v[19] != 'Z' {
            return None;
        }
    } else {
        if !(n >= 22 && n <= 30 && v[19] == '.' && v[n - 1] == 'Z') {
            return None;
        }
        let mut i: usize = 20;
        let mut acc: u64 = 0;
        proof {
            assert(v@.subrange(20, 20) =~= Seq::<char>::empty());
        }
        while i < n - 1
            invariant
                20 <= i <= n - 1,
                n == v@.len(),
                v@ == s@,
                22 <= n <= 30,
                spec_all_digits(v@, 20, i as int),
                acc == spec_digits_val(v@.subrange(20, i as int)),
                acc < 1000000000,
            decreases n - i,
        {
            let c = v[i];
            if !('0' <= c && c <= '9') {
                proof {
                    assert(!spec_is_digit(v@[i as int]));
                    assert(!spec_all_digits(v@, 20, v@.len() - 1));
                    assert(v@ == s@);
                    assert(!spec_frac_ok(v@));
                    assert(spec_parse_time(v@) is None);
                    assert(spec_parse_time_key(s@) is None);
                }
                return None;
            }
            proof {
                assert(v@.subrange(20, i + 1).drop_last() =~= v@.subrange(20, i as int));
                assert(v@.subrange(20, i + 1).last() == v@[i as int]);
            }
            acc = acc * 10 + ((c as u32) - 48) as u64;
            i = i + 1;
            proof {
                assert(v@.subrange(20, i as int).len() == i - 20);
                crate::timestamp::lemma_digits_val_bound(v@.subrange(20, i as int));
            }
        }
        // Scale to nanoseconds.
        let digits = n - 21;
        let mut mult: u64 = 1;
        let mut k: usize = 0;
        while k < 9 - digits
            invariant
                digits == n - 21,
                1 <= digits <= 9,
                k <= 9 - digits,
                mult == spec_pow10(k as nat),
            decreases 9 - digits - k,
        {
            proof {
                lemma_pow10_bound(k as nat);
            }
            mult = mult * 10;
            k = k + 1;
        }
        proof {
            lemma_pow10_bound(k as nat);
            lemma_digits_val_bound(v@.subrange(20, (n - 1) as int));
            assert(acc * mult < 1000000000000000000) by (nonlinear_arith)
                requires
                    0 <= acc < 1000000000,
                    0 <= mult <= 100000000,
            ;
        }
        nanos = acc * mult;
        proof {
            lemma_nanos_bound(spec_digits_val(v@.subrange(20, (n - 1) as int)), (n - 21) as nat);
            assert(nanos == spec_frac_nanos(v@));
        }
    }
    // Calendar validity.
    if !(month >= 1 && month <= 12) {
        return None;
    }
    let dim: u32 = if month == 2 {
        let leap = (year % 4 == 0 && year % 100 != 0) || year % 400 == 0;
        if leap {
            29
        } else {
            28
        }
    } else if month == 4 || month == 6 || month == 9 || month == 11 {
        30
    } else {
        31
    };
    proof {
        assert(dim == spec_days_in_month(year as int, month as int));
    }
    if !(day >= 1 && day <= dim) {
        return None;
    }
    if !(hour < 24 && minute < 60 && second < 60) {
        return None;
    }
    let key: u128 = (((((year as u128) * 13 + (month as u128)) * 32 + (day as u128)) * 24 + (
    hour as u128)) * 60 + (minute as u128)) * 60 + (second as u128);
    let key = key * 1000000000 + (nanos as u128);
    proof {
        let t = spec_fields_of(v@);
        assert(spec_time_valid(t));
        assert(spec_parse_time(v@) == Some(t));
        assert(key == spec_time_key(t));
    }
    Some(key)
}

/// Powers of ten are positive.
pub proof fn lemma_pow10_pos(a: nat)
    ensures
        spec_pow10(a) >= 1,
    decreases a,
{
    if a > 0 {
        lemma_pow10_pos((a - 1) as nat);
    }
}

/// Powers of ten grow with the exponent.
pub proof fn lemma_pow10_mono(a: nat, b: nat)
    requires
        a <= b,
    ensures
        1 <= spec_pow10(a) <= spec_pow10(b),
    decreases b,
{
    lemma_pow10_pos(a);
    if a < b {
        lemma_pow10_mono(a, (b - 1) as nat);
    }
}

/// A digit run of at most nine digits stays under a billion.
pub proof fn lemma_digits_val_bound(s: Seq<char>)
    requires
        spec_all_digits(s, 0, s.len() as int),
        s.len() <= 9,
    ensures
        0 <= spec_digits_val(s) < spec_pow10(s.len() as nat),
        spec_pow10(s.len() as nat) <= 1000000000,
    decreases s.len(),
{
    reveal_with_fuel(spec_pow10, 10);
    assert(spec_pow10(9) == 1000000000);
    lemma_pow10_mono(s.len() as nat, 9);
    if s.len() > 0 {
        assert(spec_all_digits(s.drop_last(), 0, s.drop_last().len() as int));
        lemma_digits_val_bound(s.drop_last());
        assert(0 <= spec_dv(s.last()) <= 9);
    }
}

/// A power of ten with exponent at most eight is at most a hundred million.
pub proof fn lemma_pow10_bound(k: nat)
    requires
        k <= 8,
    ensures
        1 <= spec_pow10(k) <= 100000000,
{
    lemma_pow10_mono(k, 8);
    reveal_with_fuel(spec_pow10, 9);
    assert(spec_pow10(8) == 100000000);
}

/// Scaled fractions stay under a billion.
pub proof fn lemma_nanos_bound(val: int, digits: nat)
    requires
        1 <= digits <= 9,
        0 <= val < spec_pow10(digits),
    ensures
        val * spec_pow10((9 - digits) as nat) < 1000000000,
        0 <= val * spec_pow10((9 - digits) as nat),
{
    let m = spec_pow10((9 - digits) as nat);
    lemma_pow10_mono(0, (9 - digits) as nat);
    assert(spec_pow10(digits) * m == 1000000000) by {
        lemma_pow10_add(digits, (9 - digits) as nat);
        reveal_with_fuel(spec_pow10, 10);
        assert(spec_pow10(9) == 1000000000);
    }
    assert(val * m < spec_pow10(digits) * m) by (nonlinear_arith)
        requires
            0 <= val < spec_pow10(digits),
            m >= 1,
    ;
    assert(val * m >= 0) by (nonlinear_arith)
        requires
            0 <= val,
            m >= 1,
    ;
}

/// Powers of ten multiply by adding exponents.
pub proof fn lemma_pow10_add(a: nat, b: nat)
    ensures
        spec_pow10(a) * spec_pow10(b) == spec_pow10(a + b),
    decreases a,
{
    if a > 0 {
        lemma_pow10_add((a - 1) as nat, b);
        assert(spec_pow10(a) * spec_pow10(b) == 10 * (spec_pow10((a - 1) as nat) * spec_pow10(b)))
            by (nonlinear_arith)
            requires
                spec_pow10(a) == 10 * spec_pow10((a - 1) as nat),
        ;
    }
}

/// The number of days in a year.
pub open spec fn spec_days_in_year(y: int) -> int {
    if spec_is_leap(y) {
        366
    } else {
        365
    }
}

/// Seconds between 1901-01-01 and 1970-01-01, the offset that keeps every
/// 32-bit second count non-negative.
pub open spec fn spec_base_offset() -> int {
    2177452800
}

/// Walks years forward from `y`, consuming whole years of days: the result
/// is the year the day count lands in and the remaining day of year.
pub open spec fn spec_year_of(y: int, days: int) -> (int, int)
    decreases days,
{
    if days < spec_days_in_year(y) || days <= 0 {
        (y, days)
    } else {
        spec_year_of(y + 1, days - spec_days_in_year(y))
    }
}

/// Walks months forward from `m`, consuming whole months: the result is the
/// month the day count lands in and the remaining zero-based day of month.
pub open spec fn spec_month_of(y: int, m: int, d: int) -> (int, int)
    decreases 12 - m,
{
    if m >= 12 || d < spec_days_in_month(y, m) {
        (m, d)
    } else {
        spec_month_of(y, m + 1, d - spec_days_in_month(y, m))
    }
}

/// The calendar time of a count of seconds since 1901-01-01 UTC.
pub open spec fn spec_civil_of(total: int) -> TimeV {
    let days = total / 86400;
    let rem = total % 86400;
    let yp = spec_year_of(1901, days);
    let mp = spec_month_of(yp.0, 1, yp.1);
    TimeV {
        year: yp.0,
        month: mp.0,
        day: mp.1 + 1,
        hour: rem / 3600,
        minute: (rem / 60) % 60,
        second: rem % 60,
        nanos: 0,
    }
}

/// The calendar time of a Unix timestamp, for the whole signed 32-bit range.
pub open spec fn spec_civil_of_unix(sec: int) -> TimeV {
    spec_civil_of(sec + spec_base_offset())
}

/// Computes the calendar time of a count of seconds since 1901-01-01 UTC.
#[verifier::loop_isolation(false)]
pub fn civil_of(total: u64) -> (r: (u32, u32, u32, u32, u32, u32))
    requires
        total < 256200000000,
    ensures
        ({
            let t = spec_civil_of(total as int);
            r.0 == t.year && r.1 == t.month && r.2 == t.day && r.3 == t.hour && r.4 == t.minute
                && r.5 == t.second
        }),
{
    let days64 = total / 86400;
    let rem64 = total % 86400;
    let mut days: u64 = days64;
    let mut y: u32 = 1901;
    while days >= days_in_year(y)
        invariant
            1901 <= y,
            days <= days64,
            y - 1901 <= days64 - days,
            spec_year_of(1901, days64 as int) == spec_year_of(y as int, days as int),
        decreases days,
    {
        let diy = days_in_year(y);
        days = days - diy;
        y = y + 1;
    }
    proof {
        assert(spec_year_of(y as int, days as int) == (y as int, days as int));
    }
    let mut m: u32 = 1;
    let mut d: u64 = days;
    proof {
        assert(spec_year_of(1901, days64 as int).1 == days as int);
        assert(days < 366);
    }
    while m < 12 && d >= days_in_month(y, m) as u64
        invariant
            1 <= m <= 12,
            d <= days,
            days < 366,
            spec_year_of(1901, days64 as int).0 == y as int,
            spec_month_of(y as int, 1, days as int) == spec_month_of(y as int, m as int, d as int),
        decreases 12 - m,
    {
        let dim = days_in_month(y, m);
        d = d - dim as u64;
        m = m + 1;
    }
    proof {
        assert(spec_month_of(y as int, m as int, d as int) == (m as int, d as int));
        assert(rem64 < 86400);
        assert(rem64 / 3600 < 24) by (nonlinear_arith)
            requires
                0 <= rem64 < 86400,
        ;
        assert((rem64 / 60) % 60 < 60);
        assert(rem64 % 60 < 60);
    }
    let h = (rem64 / 3600) as u32;
    let mi = ((rem64 / 60) % 60) as u32;
    let s = (rem64 % 60) as u32;
    (y, m, (d + 1) as u32, h, mi, s)
}

/// The number of days in a year, as executable code.
pub fn days_in_year(y: u32) -> (r: u64)
    ensures
        r == spec_days_in_year(y as int),
        365 <= r <= 366,
{
    let leap = (y % 4 == 0 && y % 100 != 0) || y % 400 == 0;
    if leap {
        366
    } else {
        365
    }
}

/// The number of days in a month, as executable code.
pub fn days_in_month(y: u32, m: u32) -> (r: u32)
    ensures
        r == spec_days_in_month(y as int, m as int),
        28 <= r <= 31,
{
    if m == 2 {
        let leap = (y % 4 == 0 && y % 100 != 0) || y % 400 == 0;
        if leap {
            29
        } else {
            28
        }
    } else if m == 4 || m == 6 || m == 9 || m == 11 {
        30
    } else {
        31
    }
}

/// Days from 1901-01-01 to the first day of year `y`.
pub open spec fn spec_days_before_year(y: int) -> int
    decreases y,
{
    if y <= 1901 {
        0
    } else {
        spec_days_before_year(y - 1) + spec_days_in_year(y - 1)
    }
}

/// Days from the first of January to the first day of month `m`.
pub open spec fn spec_days_before_month(y: int, m: int) -> int
    decreases m,
{
    if m <= 1 {
        0
    } else {
        spec_days_before_month(y, m - 1) + spec_days_in_month(y, m - 1)
    }
}

/// The count of seconds since 1901-01-01 UTC of a calendar time.
pub open spec fn spec_total_of_civil(t: TimeV) -> int {
    (spec_days_before_year(t.year) + spec_days_before_month(t.year, t.month) + t.day - 1) * 86400
        + t.hour * 3600 + t.minute * 60 + t.second
}

/// The Unix timestamp of a calendar time.
pub open spec fn spec_unix_of_civil(t: TimeV) -> int {
    spec_total_of_civil(t) - spec_base_offset()
}

/// Computes the count of seconds since 1901-01-01 UTC of a calendar time.
#[verifier::loop_isolation(false)]
pub fn total_of_civil(year: u32, month: u32, day: u32, hour: u32, minute: u32, second: u32) -> (r:
    u64)
    requires
        1901 <= year <= 9999,
        1 <= month <= 12,
        1 <= day <= 31,
        hour < 24,
        minute < 60,
        second < 60,
    ensures
        r == spec_total_of_civil(
            TimeV {
                year: year as int,
                month: month as int,
                day: day as int,
                hour: hour as int,
                minute: minute as int,
                second: second as int,
                nanos: 0,
            },
        ),
{
    let mut y: u32 = 1901;
    let mut days: u64 = 0;
    while y < year
        invariant
            1901 <= y <= year,
            days == spec_days_before_year(y as int),
            days <= 366 * (y - 1901),
        decreases year - y,
    {
        let leap = (y % 4 == 0 && y % 100 != 0) || y % 400 == 0;
        let diy: u64 = if leap {
            366
        } else {
            365
        };
        proof {
            assert(diy == spec_days_in_year(y as int));
        }
        days = days + diy;
        y = y + 1;
    }
    let mut m: u32 = 1;
    while m < month
        invariant
            1 <= m <= month,
            days == spec_days_before_year(year as int) + spec_days_before_month(
                year as int,
                m as int,
            ),
            days <= 366 * (year - 1901) + 31 * (m - 1),
        decreases month - m,
    {
        let dim = days_in_month(year, m);
        days = days + dim as u64;
        m = m + 1;
    }
    let days = days + (day as u64) - 1;
    days * 86400 + (hour as u64) * 3600 + (minute as u64) * 60 + (second as u64)
}

/// One decimal digit as a character.
pub open spec fn spec_dchar(d: int) -> char {
    if d == 0 {
        '0'
    } else if d == 1 {
        '1'
    } else if d == 2 {
        '2'
    } else if d == 3 {
        '3'
    } else if d == 4 {
        '4'
    } else if d == 5 {
        '5'
    } else if d == 6 {
        '6'
    } else if d == 7 {
        '7'
    } else if d == 8 {
        '8'
    } else {
        '9'
    }
}

/// A two-digit zero-padded field.
pub open spec fn spec_d2(n: int) -> Seq<char> {
    seq![spec_dchar((n / 10) % 10), spec_dchar(n % 10)]
}

/// A four-digit zero-padded field.
pub open spec fn spec_d4(n: int) -> Seq<char> {
    seq![
        spec_dchar((n / 1000) % 10),
        spec_dchar((n / 100) % 10),
        spec_dchar((n / 10) % 10),
        spec_dchar(n % 10),
    ]
}

/// The RFC 3339 rendering of a calendar time in UTC, with an explicit
/// `+00:00` offset and no fractional seconds.
pub open spec fn spec_render_rfc3339(t: TimeV) -> Seq<char> {
    spec_d4(t.year) + seq!['-'] + spec_d2(t.month) + seq!['-'] + spec_d2(t.day) + seq!['T']
        + spec_d2(t.hour) + seq![':'] + spec_d2(t.minute) + seq![':'] + spec_d2(t.second) + seq![
        '+',
        '0',
        '0',
        ':',
        '0',
        '0',
    ]
}

/// One decimal digit as a character, as executable code.
pub fn dchar(d: u64) -> (r: char)
    ensures
        r == spec_dchar((d % 10) as int),
{
    let x = d % 10;
    if x == 0 {
        '0'
    } else if x == 1 {
        '1'
    } else if x == 2 {
        '2'
    } else if x == 3 {
        '3'
    } else if x == 4 {
        '4'
    } else if x == 5 {
        '5'
    } else if x == 6 {
        '6'
    } else if x == 7 {
        '7'
    } else if x == 8 {
        '8'
    } else {
        '9'
    }
}

/// Appends a two-digit zero-padded field.
pub fn push_d2(out: &mut Vec<char>, n: u32)
    ensures
        final(out)@ == old(out)@ + spec_d2(n as int),
{
    out.push(dchar((n as u64) / 10));
    out.push(dchar(n as u64));
    proof {
        assert(final(out)@ =~= old(out)@ + spec_d2(n as int));
    }
}

/// Appends a four-digit zero-padded field.
pub fn push_d4(out: &mut Vec<char>, n: u32)
    ensures
        final(out)@ == old(out)@ + spec_d4(n as int),
{
    out.push(dchar((n as u64) / 1000));
    out.push(dchar((n as u64) / 100));
    out.push(dchar((n as u64) / 10));
    out.push(dchar(n as u64));
    proof {
        assert(final(out)@ =~= old(out)@ + spec_d4(n as int));
    }
}

/// A three-digit zero-padded field.
pub open spec fn spec_d3(n: int) -> Seq<char> {
    seq![spec_dchar((n / 100) % 10), spec_dchar((n / 10) % 10), spec_dchar(n % 10)]
}

/// The fractional-second rendering: nothing for zero, else the shortest of
/// three, six or nine digits that loses nothing.
pub open spec fn spec_frac_render(nanos: int) -> Seq<char> {
    if nanos == 0 {
        Seq::empty()
    } else if nanos % 1000000 == 0 {
        seq!['.'] + spec_d3(nanos / 1000000)
    } else if nanos % 1000 == 0 {
        seq!['.'] + spec_d3(nanos / 1000000) + spec_d3((nanos / 1000) % 1000)
    } else {
        seq!['.'] + spec_d3(nanos / 1000000) + spec_d3((nanos / 1000) % 1000) + spec_d3(nanos % 1000)
    }
}

/// The RFC 3339 rendering with fractional seconds and a `+00:00` offset.
pub open spec fn spec_render_rfc3339_frac(t: TimeV, nanos: int) -> Seq<char> {
    spec_d4(t.year) + seq!['-'] + spec_d2(t.month) + seq!['-'] + spec_d2(t.day) + seq!['T']
        + spec_d2(t.hour) + seq![':'] + spec_d2(t.minute) + seq![':'] + spec_d2(t.second)
        + spec_frac_render(nanos) + seq!['+', '0', '0', ':', '0', '0']
}

/// Appends a three-digit zero-padded field.
pub fn push_d3(out: &mut Vec<char>, n: u32)
    ensures
        final(out)@ == old(out)@ + spec_d3(n as int),
{
    out.push(dchar((n as u64) / 100));
    out.push(dchar((n as u64) / 10));
    out.push(dchar(n as u64));
    proof {
        assert(final(out)@ =~= old(out)@ + spec_d3(n as int));
    }
}

/// Renders a count of seconds since 1901-01-01 UTC, with nanoseconds, as an
/// RFC 3339 string with a `+00:00` offset.
#[verifier::rlimit(60)]
pub fn render_rfc3339_frac_of(total: u64, nanos: u32) -> (r: String)
    requires
        total < 256200000000,
        nanos < 1000000000,
    ensures
        r@ == spec_render_rfc3339_frac(spec_civil_of(total as int), nanos as int),
{
    let (y, mo, d, h, mi, s) = civil_of(total);
    let mut out: Vec<char> = Vec::new();
    push_d4(&mut out, y);
    out.push('-');
    push_d2(&mut out, mo);
    out.push('-');
    push_d2(&mut out, d);
    out.push('T');
    push_d2(&mut out, h);
    out.push(':');
    push_d2(&mut out, mi);
    out.push(':');
    push_d2(&mut out, s);
    if nanos != 0 {
        out.push('.');
        push_d3(&mut out, nanos / 1000000);
        if nanos % 1000000 != 0 {
            push_d3(&mut out, (nanos / 1000) % 1000);
            if nanos % 1000 != 0 {
                push_d3(&mut out, nanos % 1000);
            }
        }
    }
    out.push('+');
    out.push('0');
    out.push('0');
    out.push(':');
    out.push('0');
    out.push('0');
    proof {
        assert(out@ =~= spec_render_rfc3339_frac(spec_civil_of(total as int), nanos as int));
    }
    crate::text::string_of(&out)
}

/// The offset suffix of an RFC 3339 string, seconds east of UTC, read at
/// position `p`: `Z`, or a signed `HH:MM` pair within a day.
pub open spec fn spec_offset_at(s: Seq<char>, p: int) -> Option<int> {
    if p == s.len() - 1 && s[p] == 'Z' {
        Some(0)
    } else if p == s.len() - 6 && (s[p] == '+' || s[p] == '-') && spec_all_digits(s, p + 1, p + 3)
        && s[p + 3] == ':' && spec_all_digits(s, p + 4, p + 6) {
        let hh = spec_dv(s[p + 1]) * 10 + spec_dv(s[p + 2]);
        let mm = spec_dv(s[p + 4]) * 10 + spec_dv(s[p + 5]);
        if hh < 24 && mm < 60 {
            if s[p] == '+' {
                Some(hh * 3600 + mm * 60)
            } else {
                Some(-(hh * 3600 + mm * 60))
            }
        } else {
            None
        }
    } else {
        None
    }
}

/// Parsing an RFC 3339 timestamp with an arbitrary offset: the result is
/// the count of seconds since 1901-01-01 UTC and the nanoseconds.  Years
/// before 1901, after 9998, and instants the offset pushes before the base
/// are not represented and parse to nothing.
pub open spec fn spec_parse_rfc3339_offset(s: Seq<char>) -> Option<(int, int)> {
    if !spec_shape_ok(s) {
        None
    } else {
        let t = spec_fields_of(s);
        let frac_digits: int = if s.len() > 19 && s[19] == '.' {
            spec_frac_digit_count(s, 20)
        } else {
            0
        };
        let off_pos: int = if frac_digits > 0 {
            21 + frac_digits
        } else {
            19
        };
        if s.len() > 19 && s[19] == '.' && !(1 <= frac_digits <= 9) {
            None
        } else {
            let nanos = if frac_digits > 0 {
                spec_digits_val(s.subrange(20, 20 + frac_digits)) * spec_pow10(
                    (9 - frac_digits) as nat,
                )
            } else {
                0
            };
            match spec_offset_at(s, off_pos) {
                Some(off) => {
                    if spec_time_valid_base(t) && 1901 <= t.year <= 9998 {
                        let total = spec_total_of_civil(t) - off;
                        if total >= 0 {
                            Some((total, nanos))
                        } else {
                            None
                        }
                    } else {
                        None
                    }
                },
                None => None,
            }
        }
    }
}

/// Calendar validity of the date and time fields alone.
pub open spec fn spec_time_valid_base(t: TimeV) -> bool {
    &&& 1 <= t.month <= 12
    &&& 1 <= t.day <= spec_days_in_month(t.year, t.month)
    &&& 0 <= t.hour < 24
    &&& 0 <= t.minute < 60
    &&& 0 <= t.second < 60
}

/// The number of consecutive digits at or after `p`.
pub open spec fn spec_frac_digit_count(s: Seq<char>, p: int) -> int
    decreases s.len() - p,
{
    if p < 0 || p >= s.len() || !spec_is_digit(s[p]) {
        0
    } else {
        1 + spec_frac_digit_count(s, p + 1)
    }
}

/// Parses an RFC 3339 timestamp with an arbitrary offset into seconds since
/// 1901-01-01 UTC and nanoseconds.
#[verifier::loop_isolation(false)]
#[verifier::rlimit(100)]
pub fn parse_rfc3339_offset(s: &str) -> (r: Option<(u64, u32)>)
    ensures
        match r {
            Some(p) => spec_parse_rfc3339_offset(s@) == Some((p.0 as int, p.1 as int)) && p.0
                < 256200000000 && p.1 < 1000000000,
            None => spec_parse_rfc3339_offset(s@) is None,
        },
{
    let v = crate::text::chars_of(s);
    let n = v.len();
    if n < 20 {
        return None;
    }
    if !(v[4] == '-' && v[7] == '-' && v[10] == 'T' && v[13] == ':' && v[16] == ':') {
        return None;
    }
    let y_hi = match read2(&v, 0) {
        Some(x) => x,
        None => {
            return None;
        },
    };
    let y_lo = match read2(&v, 2) {
        Some(x) => x,
        None => {
            return None;
        },
    };
    let year = y_hi * 100 + y_lo;
    let month = match read2(&v, 5) {
        Some(x) => x,
        None => {
            return None;
        },
    };
    let day = match read2(&v, 8) {
        Some(x) => x,
        None => {
            return None;
        },
    };
    let hour = match read2(&v, 11) {
        Some(x) => x,
        None => {
            return None;
        },
    };
    let minute = match read2(&v, 14) {
        Some(x) => x,
        None => {
            return None;
        },
    };
    let second = match read2(&v, 17) {
        Some(x) => x,
        None => {
            return None;
        },
    };
    // Fractional digits, when a dot follows the seconds.
    let mut frac_digits: usize = 0;
    let mut acc: u64 = 0;
    if v[19] == '.' {
        let mut p: usize = 20;
        proof {
            assert(v@.subrange(20, 20) =~= Seq::<char>::empty());
        }
        while p < n && frac_digits <= 9 && '0' <= v[p] && v[p] <= '9'
            invariant
                20 <= p <= n,
                frac_digits == p - 20,
                spec_all_digits(v@, 20, p as int),
                frac_digits <= 10,
                acc == spec_digits_val(v@.subrange(20, p as int)),
                acc < 10000000000,
            decreases n - p,
        {
            proof {
                assert(v@.subrange(20, p + 1).drop_last() =~= v@.subrange(20, p as int));
                assert(v@.subrange(20, p + 1).last() == v@[p as int]);
                lemma_digits_val_bound_10(v@.subrange(20, p + 1));
            }
            acc = acc * 10 + ((v[p] as u32) - 48) as u64;
            frac_digits = frac_digits + 1;
            p = p + 1;
        }
        proof {
            assert(spec_frac_digit_count(v@, 20) >= frac_digits) by {
                lemma_frac_count_ge(v@, 20, p as int);
            }
            if p < n && !('0' <= v@[p as int] && v@[p as int] <= '9') {
                lemma_frac_count_eq(v@, 20, p as int);
            } else if p == n {
                lemma_frac_count_eq(v@, 20, p as int);
            }
        }
        if frac_digits == 0 || frac_digits > 9 {
            proof {
                if frac_digits > 9 {
                    lemma_frac_count_ge(v@, 20, 30);
                }
            }
            return None;
        }
    }
    let off_pos: usize = if frac_digits > 0 {
        21 + frac_digits
    } else {
        19
    };
    // The offset suffix.
    let off: i64 = if off_pos == n - 1 && v[off_pos] == 'Z' {
        0
    } else if off_pos + 6 == n && (v[off_pos] == '+' || v[off_pos] == '-') {
        let oh = match read2(&v, off_pos + 1) {
            Some(x) => x,
            None => {
                return None;
            },
        };
        if v[off_pos + 3] != ':' {
            return None;
        }
        let om = match read2(&v, off_pos + 4) {
            Some(x) => x,
            None => {
                return None;
            },
        };
        if !(oh < 24 && om < 60) {
            return None;
        }
        if v[off_pos] == '+' {
            (oh as i64) * 3600 + (om as i64) * 60
        } else {
            -((oh as i64) * 3600 + (om as i64) * 60)
        }
    } else {
        return None;
    };
    proof {
        assert(spec_offset_at(v@, off_pos as int) == Some(off as int));
    }
    // Calendar validity.
    if !(month >= 1 && month <= 12) {
        return None;
    }
    let dim = days_in_month(year, month);
    if !(day >= 1 && day <= dim) {
        return None;
    }
    if !(hour < 24 && minute < 60 && second < 60) {
        return None;
    }
    if !(year >= 1901 && year <= 9998) {
        return None;
    }
    let base = total_of_civil(year, month, day, hour, minute, second);
    proof {
        lemma_total_bounds(year as int, month as int, day as int);
        assert(base < 256100000000);
    }
    if off > 0 && base < off as u64 {
        return None;
    }
    let total: u64 = if off >= 0 {
        base - (off as u64)
    } else {
        base + ((-off) as u64)
    };
    let nanos: u64 = if frac_digits > 0 {
        let mut mult: u64 = 1;
        let mut k: usize = 0;
        while k < 9 - frac_digits
            invariant
                1 <= frac_digits <= 9,
                k <= 9 - frac_digits,
                mult == spec_pow10(k as nat),
            decreases 9 - frac_digits - k,
        {
            proof {
                lemma_pow10_bound(k as nat);
            }
            mult = mult * 10;
            k = k + 1;
        }
        proof {
            lemma_pow10_bound(k as nat);
            lemma_digits_val_bound(v@.subrange(20, 20 + frac_digits as int));
            assert(acc * mult < 1000000000000000000) by (nonlinear_arith)
                requires
                    0 <= acc < 1000000000,
                    0 <= mult <= 100000000,
            ;
            lemma_nanos_bound(
                spec_digits_val(v@.subrange(20, 20 + frac_digits as int)),
                frac_digits as nat,
            );
        }
        acc * mult
    } else {
        0
    };
    Some((total, nanos as u32))
}

/// Counted digits really are consecutive digits.
pub proof fn lemma_frac_count_ge(s: Seq<char>, a: int, b: int)
    requires
        0 <= a <= b,
        spec_all_digits(s, a, b),
        b <= s.len(),
    ensures
        spec_frac_digit_count(s, a) >= b - a,
    decreases b - a,
{
    if a < b {
        assert(spec_is_digit(s[a]));
        lemma_frac_count_ge(s, a + 1, b);
    } else {
        lemma_frac_count_nonneg(s, a);
    }
}

/// A digit count is never negative.
proof fn lemma_frac_count_nonneg(s: Seq<char>, p: int)
    ensures
        spec_frac_digit_count(s, p) >= 0,
    decreases s.len() - p,
{
    if !(p < 0 || p >= s.len() || !spec_is_digit(s[p])) {
        lemma_frac_count_nonneg(s, p + 1);
    }
}

/// The digit run ends exactly where a non-digit or the end appears.
pub proof fn lemma_frac_count_eq(s: Seq<char>, a: int, b: int)
    requires
        0 <= a <= b <= s.len(),
        spec_all_digits(s, a, b),
        b == s.len() || !spec_is_digit(s[b]),
    ensures
        spec_frac_digit_count(s, a) == b - a,
    decreases b - a,
{
    if a < b {
        lemma_frac_count_eq(s, a + 1, b);
    }
}

/// A digit run of at most ten digits stays under ten billion.
pub proof fn lemma_digits_val_bound_10(s: Seq<char>)
    requires
        spec_all_digits(s, 0, s.len() as int),
        s.len() <= 10,
    ensures
        0 <= spec_digits_val(s) < spec_pow10(s.len() as nat),
        spec_pow10(s.len() as nat) <= 10000000000,
    decreases s.len(),
{
    reveal_with_fuel(spec_pow10, 11);
    assert(spec_pow10(10) == 10000000000);
    lemma_pow10_mono(s.len() as nat, 10);
    if s.len() > 0 {
        assert(spec_all_digits(s.drop_last(), 0, s.drop_last().len() as int));
        lemma_digits_val_bound_10(s.drop_last());
        assert(0 <= spec_dv(s.last()) <= 9);
    }
}

/// A valid civil time below year 9999 stays under the render bound.
pub proof fn lemma_total_bounds(y: int, m: int, d: int)
    requires
        1901 <= y <= 9998,
        1 <= m <= 12,
        1 <= d <= 31,
    ensures
        spec_total_of_civil(
            TimeV { year: y, month: m, day: d, hour: 23, minute: 59, second: 59, nanos: 0 },
        ) < 256100000000,
        forall|h: int, mi: int, s: int|
            0 <= h < 24 && 0 <= mi < 60 && 0 <= s < 60 ==> spec_total_of_civil(
                TimeV { year: y, month: m, day: d, hour: h, minute: mi, second: s, nanos: 0 },
            ) < 256100000000,
{
    lemma_days_before_year_bound(y);
    lemma_days_before_month_bound(y, m);
}

/// Days before a year stay linear in the year.
proof fn lemma_days_before_year_bound(y: int)
    requires
        1901 <= y <= 9998,
    ensures
        0 <= spec_days_before_year(y) <= 366 * (y - 1901),
    decreases y,
{
    if y > 1901 {
        lemma_days_before_year_bound(y - 1);
    }
}

/// Days before a month stay under a year.
proof fn lemma_days_before_month_bound(y: int, m: int)
    requires
        1 <= m <= 12,
    ensures
        0 <= spec_days_before_month(y, m) <= 31 * (m - 1),
    decreases m,
{
    if m > 1 {
        lemma_days_before_month_bound(y, m - 1);
    }
}

/// Renders a count of seconds since 1901-01-01 UTC as an RFC 3339 string
/// with a `+00:00` offset.
pub fn render_rfc3339_of(total: u64) -> (r: String)
    requires
        total < 256200000000,
    ensures
        r@ == spec_render_rfc3339(spec_civil_of(total as int)),
{
    let (y, mo, d, h, mi, s) = civil_of(total);
    let mut out: Vec<char> = Vec::new();
    push_d4(&mut out, y);
    out.push('-');
    push_d2(&mut out, mo);
    out.push('-');
    push_d2(&mut out, d);
    out.push('T');
    push_d2(&mut out, h);
    out.push(':');
    push_d2(&mut out, mi);
    out.push(':');
    push_d2(&mut out, s);
    out.push('+');
    out.push('0');
    out.push('0');
    out.push(':');
    out.push('0');
    out.push('0');
    proof {
        assert(out@ =~= spec_render_rfc3339(spec_civil_of(total as int)));
    }
    crate::text::string_of(&out)
}

} // verus!
