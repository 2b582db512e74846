//! Calendar dates as plain year/month/day numbers, validity per the proleptic
//! Gregorian calendar, and parsing of the fixed `YYYY-MM-DD` form.

use vstd::prelude::*;
use vstd::string::*;

use crate::numeral::{
    all_digits, dec_val, digit_char, digit_string, digit_val, is_digit, lemma_dec_val_bound,
    lemma_digit_char_is_digit, lemma_pow10_le, lemma_pow10_values,
};

verus! {

/// A calendar date as plain year/month/day numbers.
#[derive(Debug, Clone, PartialEq, Eq, Structural)]
pub struct SlotDate {
    pub year: u32,
    pub month: u32,
    pub day: u32,
}

/// A leap year of the proleptic Gregorian calendar.
pub open spec fn is_leap_year(y: nat) -> bool {
    (y % 4 == 0 && y % 100 != 0) || y % 400 == 0
}

/// How many days month `m` of year `y` has.
pub open spec fn days_in_month(y: nat, m: nat) -> nat {
    if m == 2 {
        if is_leap_year(y) {
            29
        } else {
            28
        }
    } else if m == 4 || m == 6 || m == 9 || m == 11 {
        30
    } else {
        31
    }
}

/// A valid calendar date whose year has at most four digits.
pub open spec fn valid_date(y: nat, m: nat, d: nat) -> bool {
    &&& y <= 9999
    &&& 1 <= m <= 12
    &&& 1 <= d <= days_in_month(y, m)
}

impl SlotDate {
    /// The date's numbers name a valid calendar date.
    pub open spec fn wf(self) -> bool {
        valid_date(self.year as nat, self.month as nat, self.day as nat)
    }
}

/// `s` is exactly `YYYY-MM-DD`: four, two and two digits separated by dashes,
/// naming a valid calendar date.
pub open spec fn is_date_str(s: Seq<char>) -> bool {
    &&& s.len() == 10
    &&& all_digits(s.subrange(0, 4))
    &&& s[4] == '-'
    &&& all_digits(s.subrange(5, 7))
    &&& s[7] == '-'
    &&& all_digits(s.subrange(8, 10))
    &&& valid_date(dec_val(s.subrange(0, 4)), dec_val(s.subrange(5, 7)), dec_val(s.subrange(8, 10)))
}

/// The date a `YYYY-MM-DD` string names.
pub open spec fn date_of_str(s: Seq<char>) -> SlotDate {
    SlotDate {
        year: dec_val(s.subrange(0, 4)) as u32,
        month: dec_val(s.subrange(5, 7)) as u32,
        day: dec_val(s.subrange(8, 10)) as u32,
    }
}

/// Read the digits of `s` between `from` and `to` as a number. Widths up to
/// nine digits cannot overflow a `u32`.
fn read_number(s: &str, from: usize, to: usize) -> (r: Option<u32>)
    requires
        from <= to <= s@.len(),
        to - from <= 9,
    ensures
        r is Some <==> all_digits(s@.subrange(from as int, to as int)),
        r matches Some(v) ==> v == dec_val(s@.subrange(from as int, to as int)),
{
    let ghost digits = s@.subrange(from as int, to as int);
    let mut acc: u32 = 0;
    let mut i: usize = from;
    while i < to
        invariant
            from <= i <= to <= s@.len(),
            to - from <= 9,
            digits == s@.subrange(from as int, to as int),
            all_digits(digits.subrange(0, i - from)),
            acc == dec_val(digits.subrange(0, i - from)),
        decreases to - i,
    {
        let c = s.get_char(i);
        proof {
            assert(digits[i - from] == s@[i as int]);
        }
        if c < '0' || c > '9' {
            proof {
                assert(!is_digit(digits[i - from]));
            }
            return None;
        }
        let d: u32 = c as u32 - '0' as u32;
        proof {
            let prefix = digits.subrange(0, i - from + 1);
            assert(prefix.drop_last() =~= digits.subrange(0, i - from));
            assert(all_digits(prefix));
            lemma_dec_val_bound(prefix);
            lemma_pow10_le(prefix.len(), 9);
            lemma_pow10_values();
            assert(dec_val(prefix) == acc * 10 + d);
        }
        acc = acc * 10 + d;
        i += 1;
    }
    proof {
        assert(digits.subrange(0, to - from) =~= digits);
    }
    Some(acc)
}

/// How many days the month has; the executable mirror of `days_in_month`.
pub fn month_length(year: u32, month: u32) -> (r: u32)
    ensures
        r == days_in_month(year as nat, month as nat),
{
    if month == 2 {
        if (year % 4 == 0 && year % 100 != 0) || year % 400 == 0 {
            29
        } else {
            28
        }
    } else if month == 4 || month == 6 || month == 9 || month == 11 {
        30
    } else {
        31
    }
}

/// Parse a `YYYY-MM-DD` string into a date, accepting exactly the valid
/// calendar dates in that fixed-width form.
pub fn parse_date(s: &str) -> (r: Option<SlotDate>)
    ensures
        r is Some <==> is_date_str(s@),
        r matches Some(d) ==> d == date_of_str(s@) && d.wf(),
{
    let len = s.unicode_len();
    if len != 10 {
        return None;
    }
    if s.get_char(4) != '-' || s.get_char(7) != '-' {
        return None;
    }
    let year = match read_number(s, 0, 4) {
        Some(v) => v,
        None => {
            return None;
        },
    };
    let month = match read_number(s, 5, 7) {
        Some(v) => v,
        None => {
            return None;
        },
    };
    let day = match read_number(s, 8, 10) {
        Some(v) => v,
        None => {
            return None;
        },
    };
    proof {
        lemma_dec_val_bound(s@.subrange(0, 4));
        lemma_pow10_values();
    }
    if month < 1 || month > 12 {
        return None;
    }
    if day < 1 || day > month_length(year, month) {
        return None;
    }
    Some(SlotDate { year, month, day })
}

/// The `YYYY-MM-DD` rendering of a date: zero-padded year, month and day.
pub open spec fn date_str_of(d: SlotDate) -> Seq<char> {
    seq![
        digit_char((d.year as nat / 1000) % 10),
        digit_char((d.year as nat / 100) % 10),
        digit_char((d.year as nat / 10) % 10),
        digit_char(d.year as nat % 10),
        '-',
        digit_char((d.month as nat / 10) % 10),
        digit_char(d.month as nat % 10),
        '-',
        digit_char((d.day as nat / 10) % 10),
        digit_char(d.day as nat % 10),
    ]
}

/// Rendering a valid date gives a well-formed `YYYY-MM-DD` string that reads
/// back as the same date.
pub proof fn lemma_date_str_round_trip(d: SlotDate)
    requires
        d.wf(),
    ensures
        is_date_str(date_str_of(d)),
        date_of_str(date_str_of(d)) == d,
{
    let s = date_str_of(d);
    let y = d.year as nat;
    let m = d.month as nat;
    let dd = d.day as nat;
    lemma_digit_char_is_digit((y / 1000) % 10);
    lemma_digit_char_is_digit((y / 100) % 10);
    lemma_digit_char_is_digit((y / 10) % 10);
    lemma_digit_char_is_digit(y % 10);
    lemma_digit_char_is_digit((m / 10) % 10);
    lemma_digit_char_is_digit(m % 10);
    lemma_digit_char_is_digit((dd / 10) % 10);
    lemma_digit_char_is_digit(dd % 10);
    assert(forall|i: int| 0 <= i < 10 && i != 4 && i != 7 ==> is_digit(#[trigger] s[i]));
    assert(dec_val(Seq::<char>::empty()) == 0);
    let ys = s.subrange(0, 4);
    assert(ys =~= seq![s[0], s[1], s[2], s[3]]);
    lemma_four_digit_value(y);
    assert(ys.drop_last() =~= seq![s[0], s[1], s[2]]);
    assert(seq![s[0], s[1], s[2]].drop_last() =~= seq![s[0], s[1]]);
    assert(seq![s[0], s[1]].drop_last() =~= seq![s[0]]);
    assert(seq![s[0]].drop_last() =~= Seq::<char>::empty());
    assert(dec_val(seq![s[0]]) == digit_val(s[0]));
    assert(dec_val(seq![s[0], s[1]]) == digit_val(s[0]) * 10 + digit_val(s[1]));
    assert(dec_val(seq![s[0], s[1], s[2]]) == dec_val(seq![s[0], s[1]]) * 10 + digit_val(s[2]));
    assert(dec_val(ys) == dec_val(seq![s[0], s[1], s[2]]) * 10 + digit_val(s[3]));
    assert(dec_val(ys) == y);
    let ms = s.subrange(5, 7);
    assert(ms =~= seq![s[5], s[6]]);
    assert(ms.drop_last() =~= seq![s[5]]);
    assert(seq![s[5]].drop_last() =~= Seq::<char>::empty());
    lemma_two_digit_value(m);
    assert(dec_val(seq![s[5]]) == digit_val(s[5]));
    assert(dec_val(ms) == dec_val(seq![s[5]]) * 10 + digit_val(s[6]));
    assert(dec_val(ms) == m);
    let ds = s.subrange(8, 10);
    assert(ds =~= seq![s[8], s[9]]);
    assert(ds.drop_last() =~= seq![s[8]]);
    assert(seq![s[8]].drop_last() =~= Seq::<char>::empty());
    lemma_two_digit_value(dd);
    assert(dec_val(seq![s[8]]) == digit_val(s[8]));
    assert(dec_val(ds) == dec_val(seq![s[8]]) * 10 + digit_val(s[9]));
    assert(dec_val(ds) == dd);
}

/// A number below ten thousand is the value of its four zero-padded digits.
proof fn lemma_four_digit_value(n: nat)
    requires
        n <= 9999,
    ensures
        ((((n / 1000) % 10) * 10 + (n / 100) % 10) * 10 + (n / 10) % 10) * 10 + n % 10 == n,
{
    vstd::arithmetic::div_mod::lemma_fundamental_div_mod(n as int, 10);
    vstd::arithmetic::div_mod::lemma_fundamental_div_mod(n as int / 10, 10);
    vstd::arithmetic::div_mod::lemma_fundamental_div_mod(n as int / 100, 10);
    vstd::arithmetic::div_mod::lemma_div_denominator(n as int, 10, 10);
    vstd::arithmetic::div_mod::lemma_div_denominator(n as int, 100, 10);
    assert(n / 1000 < 10);
}

/// A number below one hundred is the value of its two zero-padded digits.
proof fn lemma_two_digit_value(n: nat)
    requires
        n <= 99,
    ensures
        ((n / 10) % 10) * 10 + n % 10 == n,
{
    vstd::arithmetic::div_mod::lemma_fundamental_div_mod(n as int, 10);
    assert(n / 10 < 10);
}

/// Render a date in its `YYYY-MM-DD` form.
pub fn date_string(d: &SlotDate) -> (r: String)
    ensures
        r@ == date_str_of(*d),
{
    let mut out = digit_string(d.year / 1000 % 10);
    out.append(digit_string(d.year / 100 % 10).as_str());
    out.append(digit_string(d.year / 10 % 10).as_str());
    out.append(digit_string(d.year % 10).as_str());
    out.append("-");
    out.append(digit_string(d.month / 10 % 10).as_str());
    out.append(digit_string(d.month % 10).as_str());
    out.append("-");
    out.append(digit_string(d.day / 10 % 10).as_str());
    out.append(digit_string(d.day % 10).as_str());
    proof {
        reveal_strlit("-");
        assert(out@ =~= date_str_of(*d));
    }
    out
}

} // verus!
