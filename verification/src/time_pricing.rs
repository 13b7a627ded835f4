//! The `time_pricing` block inside `tiered_pricing`: its parsing and its
//! evaluation.
//!
//! The configuration owns an explicit IANA time zone, and every window is
//! evaluated against the wall clock of that zone.  Windows are half-open
//! (`[start, end)`): `09:00-12:00` covers 09:00 and not 12:00.  A moment that
//! no window covers is billed at the implicit multiplier of one.
use vstd::prelude::*;
use vstd::arithmetic::power2::{
    lemma2_to64_rest, lemma_pow2_adds, lemma_pow2_pos, lemma_pow2_strictly_increases,
    lemma_pow2_unfold, pow2,
};

use crate::clock::{
    is_iana_timezone, is_known_timezone, local_wall_clock, wall_clock, MAX_UNIX_MS, MIN_UNIX_MS,
};
use crate::json::{array_value, deref_opt, member, map_get, str_value, Json, JsonMap, JsonNumber};
use crate::text::{
    ascii_lower, ascii_lowercase_chars, chars_eq, chars_of, decimal, digit_value, is_ascii_digit,
    err_text, owned, push_decimal, str_eq, trim, trim_str,
};

verus! {

pub const TIME_PRICING_FIELD: &'static str = "time_pricing";

pub const TIMEZONE_FIELD: &'static str = "timezone";

pub const WINDOWS_FIELD: &'static str = "windows";

/// The bit pattern of the largest multiplier a window accepts, `100.0_f64`.
pub const MAX_TIME_PRICING_MULTIPLIER_BITS: u64 = 0x4059_0000_0000_0000;

/// The bit pattern of `-0.0_f64`, which compares equal to zero.
pub const NEGATIVE_ZERO_BITS: u64 = 0x8000_0000_0000_0000;

pub const MINUTES_PER_DAY: u16 = 1440;

/// A day of the week.
#[derive(Debug, Clone, Copy, PartialEq, Eq, Structural)]
pub enum Weekday {
    Mon,
    Tue,
    Wed,
    Thu,
    Fri,
    Sat,
    Sun,
}

impl Weekday {
    /// Days since Monday: 0 for Monday, 6 for Sunday.
    pub open spec fn index(self) -> int {
        match self {
            Weekday::Mon => 0,
            Weekday::Tue => 1,
            Weekday::Wed => 2,
            Weekday::Thu => 3,
            Weekday::Fri => 4,
            Weekday::Sat => 5,
            Weekday::Sun => 6,
        }
    }

    /// Days since Monday: 0 for Monday, 6 for Sunday.
    pub fn num_days_from_monday(self) -> (r: u32)
        ensures
            r == self.index(),
    {
        match self {
            Weekday::Mon => 0,
            Weekday::Tue => 1,
            Weekday::Wed => 2,
            Weekday::Thu => 3,
            Weekday::Fri => 4,
            Weekday::Sat => 5,
            Weekday::Sun => 6,
        }
    }

    /// The weekday that lies `days` days after Monday.
    pub fn from_days_from_monday(days: u32) -> (r: Weekday)
        requires
            days < 7,
        ensures
            r.index() == days,
    {
        if days == 0 {
            Weekday::Mon
        } else if days == 1 {
            Weekday::Tue
        } else if days == 2 {
            Weekday::Wed
        } else if days == 3 {
            Weekday::Thu
        } else if days == 4 {
            Weekday::Fri
        } else if days == 5 {
            Weekday::Sat
        } else {
            Weekday::Sun
        }
    }
}

/// One priced window of the week.
#[derive(Debug, PartialEq)]
pub struct TimePricingWindow {
    pub id: String,
    /// Indexed by days since Monday.
    pub weekdays: [bool; 7],
    pub start_minute_of_day: u16,
    pub end_minute_of_day: u16,
    /// The multiplier as the configuration wrote it.
    pub price_multiplier: JsonNumber,
}

impl TimePricingWindow {
    /// The window covers minute `minute` of weekday `weekday`: the day is one
    /// of its days and the minute lies in `[start, end)`.
    pub open spec fn covers_spec(self, weekday: int, minute: int) -> bool {
        &&& self.weekdays@[weekday]
        &&& self.start_minute_of_day <= minute
        &&& minute < self.end_minute_of_day
    }

    pub fn covers(&self, weekday: Weekday, minute_of_day: u16) -> (r: bool)
        ensures
            r == self.covers_spec(weekday.index(), minute_of_day as int),
    {
        let d = weekday.num_days_from_monday() as usize;
        self.weekdays[d] && self.start_minute_of_day <= minute_of_day && minute_of_day
            < self.end_minute_of_day
    }
}

/// The weekday names, Monday first.
pub open spec fn weekday_name(i: int) -> Seq<char> {
    if i == 0 {
        "monday"@
    } else if i == 1 {
        "tuesday"@
    } else if i == 2 {
        "wednesday"@
    } else if i == 3 {
        "thursday"@
    } else if i == 4 {
        "friday"@
    } else if i == 5 {
        "saturday"@
    } else {
        "sunday"@
    }
}

fn weekday_name_str(i: usize) -> (r: &'static str)
    requires
        i < 7,
    ensures
        r@ == weekday_name(i as int),
        r@.len() >= 6,
{
    proof {
        reveal_strlit("monday");
        reveal_strlit("tuesday");
        reveal_strlit("wednesday");
        reveal_strlit("thursday");
        reveal_strlit("friday");
        reveal_strlit("saturday");
        reveal_strlit("sunday");
    }
    if i == 0 {
        "monday"
    } else if i == 1 {
        "tuesday"
    } else if i == 2 {
        "wednesday"
    } else if i == 3 {
        "thursday"
    } else if i == 4 {
        "friday"
    } else if i == 5 {
        "saturday"
    } else {
        "sunday"
    }
}

/// `n` names weekday `i`: it is the full name or its first three letters.
pub open spec fn names_day(n: Seq<char>, i: int) -> bool {
    n == weekday_name(i) || n == weekday_name(i).take(3)
}

/// The day that `name` denotes, ignoring surrounding white space and ASCII
/// case: a full English name or its three-letter abbreviation.
pub open spec fn weekday_index_spec(name: Seq<char>) -> Option<usize> {
    let n = ascii_lower(trim(name));
    if n.len() == 0 {
        None
    } else if names_day(n, 0) {
        Some(0)
    } else if names_day(n, 1) {
        Some(1)
    } else if names_day(n, 2) {
        Some(2)
    } else if names_day(n, 3) {
        Some(3)
    } else if names_day(n, 4) {
        Some(4)
    } else if names_day(n, 5) {
        Some(5)
    } else if names_day(n, 6) {
        Some(6)
    } else {
        None
    }
}

/// The day index (0 for Monday) that `name` denotes, if any.
pub fn weekday_index(name: &str) -> (r: Option<usize>)
    ensures
        r == weekday_index_spec(name@),
{
    let trimmed = trim_str(name);
    let lower = ascii_lowercase_chars(trimmed);
    if lower.len() == 0 {
        return None;
    }
    let mut i: usize = 0;
    while i < 7
        invariant
            i <= 7,
            lower@ == ascii_lower(trim(name@)),
            lower@.len() > 0,
            forall|j: int| 0 <= j < i ==> !names_day(lower@, j),
        decreases 7 - i,
    {
        let full = chars_of(weekday_name_str(i));
        let mut short: Vec<char> = Vec::new();
        short.push(full[0]);
        short.push(full[1]);
        short.push(full[2]);
        assert(short@ =~= full@.take(3));
        if chars_eq(&lower, &full) || chars_eq(&lower, &short) {
            return Some(i);
        }
        i = i + 1;
    }
    None
}


/// `field` followed by `suffix`.
fn message(field: &str, suffix: &str) -> (r: String)
    ensures
        r@ == field@ + suffix@,
{
    let mut s = owned(field);
    s.append(suffix);
    s
}

/// The minute of the day that `raw` denotes, if it is a `HH:MM` time of day
/// (surrounding white space ignored): two digits, a colon, two digits, from
/// `00:00` to `23:59`, or `24:00` for the end of the day.
pub open spec fn time_of_day_spec(raw: Seq<char>) -> Option<u16> {
    let t = trim(raw);
    if t.len() == 5 && t[2] == ':' && is_ascii_digit(t[0]) && is_ascii_digit(t[1])
        && is_ascii_digit(t[3]) && is_ascii_digit(t[4]) {
        let h = digit_value(t[0]) * 10 + digit_value(t[1]);
        let m = digit_value(t[3]) * 10 + digit_value(t[4]);
        if (h < 24 && m < 60) || (h == 24 && m == 0) {
            Some((h * 60 + m) as u16)
        } else {
            None
        }
    } else {
        None
    }
}

/// The minute of the day that a JSON value denotes, if it is such a string.
pub open spec fn time_of_day_of(v: Option<Json>) -> Option<u16> {
    match str_value(v) {
        Some(raw) => time_of_day_spec(raw),
        None => None,
    }
}

/// The complaint about a time of day under `field`.
pub open spec fn time_message(field: Seq<char>) -> Seq<char> {
    field + " must be a `HH:MM` time of day"@
}

fn digit_of(c: char) -> (d: u16)
    requires
        is_ascii_digit(c),
    ensures
        d == digit_value(c),
{
    ((c as u32) - ('0' as u32)) as u16
}

fn parse_time_of_day(field: &str, value: Option<&Json>) -> (r: Result<u16, String>)
    ensures
        match time_of_day_of(deref_opt(value)) {
            Some(m) => r == Ok::<u16, String>(m),
            None => r matches Err(e) && e@ == time_message(field@),
        },
{
    let raw = match value {
        Some(v) => match v.as_str() {
            Some(s) => s,
            None => return Err(message(field, " must be a `HH:MM` time of day")),
        },
        None => return Err(message(field, " must be a `HH:MM` time of day")),
    };
    let t = chars_of(trim_str(raw));
    if t.len() != 5 || t[2] != ':' || !('0' <= t[0] && t[0] <= '9') || !('0' <= t[1] && t[1]
        <= '9') || !('0' <= t[3] && t[3] <= '9') || !('0' <= t[4] && t[4] <= '9') {
        return Err(message(field, " must be a `HH:MM` time of day"));
    }
    let hour = digit_of(t[0]) * 10 + digit_of(t[1]);
    let minute = digit_of(t[3]) * 10 + digit_of(t[4]);
    if (hour < 24 && minute < 60) || (hour == 24 && minute == 0) {
        Ok(hour * 60 + minute)
    } else {
        Err(message(field, " must be a `HH:MM` time of day"))
    }
}

/// The day that a weekday entry names, if it is a string naming one.
pub open spec fn entry_weekday(e: Json) -> Option<usize> {
    match e {
        Json::String(s) => weekday_index_spec(s@),
        _ => None,
    }
}

/// The complaint about a weekday entry that names no day.
pub open spec fn weekday_entry_message(field: Seq<char>, e: Json) -> Seq<char> {
    match e {
        Json::String(s) => field + " contains unknown weekday `"@ + trim(s@) + "`"@,
        _ => field + " must contain weekday names only"@,
    }
}

/// `i` is the first entry that names no day.
pub open spec fn first_bad_weekday(entries: Seq<Json>, i: int) -> bool {
    &&& 0 <= i < entries.len()
    &&& entry_weekday(entries[i]) is None
    &&& forall|j: int| 0 <= j < i ==> (#[trigger] entry_weekday(entries[j])) is Some
}

proof fn lemma_first_bad_weekday_unique(entries: Seq<Json>, i: int, k: int)
    requires
        first_bad_weekday(entries, i),
        first_bad_weekday(entries, k),
    ensures
        i == k,
{
    if i < k {
        assert(entry_weekday(entries[i]) is Some);
    } else if k < i {
        assert(entry_weekday(entries[k]) is Some);
    }
}

/// The days that the entries name.
pub open spec fn weekdays_of(entries: Seq<Json>) -> Seq<bool> {
    Seq::new(
        7,
        |d: int| exists|i: int| 0 <= i < entries.len() && #[trigger] entry_weekday(entries[i]) == Some(d as usize),
    )
}

/// The complaint about the weekday list under `field`, if any: it must be a
/// non-empty array whose entries all name a day; the first entry that does
/// not is reported.
pub open spec fn weekdays_error(field: Seq<char>, value: Option<Json>) -> Option<Seq<char>> {
    match array_value(value) {
        Some(a) => if a.len() == 0 {
            Some(field + " must be a non-empty array of weekday names"@)
        } else if exists|i: int| first_bad_weekday(a, i) {
            Some(weekday_entry_message(field, a[choose|i: int| first_bad_weekday(a, i)]))
        } else {
            None
        },
        None => Some(field + " must be a non-empty array of weekday names"@),
    }
}

/// The days that a valid weekday list names.
pub open spec fn weekdays_value(value: Option<Json>) -> Seq<bool> {
    match array_value(value) {
        Some(a) => weekdays_of(a),
        None => Seq::empty(),
    }
}

fn parse_weekdays(field: &str, value: Option<&Json>) -> (r: Result<[bool; 7], String>)
    ensures
        match weekdays_error(field@, deref_opt(value)) {
            Some(e) => r matches Err(m) && m@ == e,
            None => r matches Ok(w) && w@ == weekdays_value(deref_opt(value)),
        },
{
    let entries = match value {
        Some(v) => match v.as_array() {
            Some(a) => a,
            None => return Err(message(field, " must be a non-empty array of weekday names")),
        },
        None => return Err(message(field, " must be a non-empty array of weekday names")),
    };
    if entries.len() == 0 {
        return Err(message(field, " must be a non-empty array of weekday names"));
    }
    let ghost a = entries@;
    assert(array_value(deref_opt(value)) == Some(a));
    let mut weekdays = [false; 7];
    let n = entries.len();
    for i in 0..n
        invariant
            n == a.len(),
            a == entries@,
            a.len() > 0,
            array_value(deref_opt(value)) == Some(a),
            forall|j: int| 0 <= j < i ==> (#[trigger] entry_weekday(a[j])) is Some,
            forall|d: int| 0 <= d < 7 ==> #[trigger] weekdays@[d] == exists|j: int|
                0 <= j < i && #[trigger] entry_weekday(a[j]) == Some(d as usize),
    {
        let name = match entries[i].as_str() {
            Some(name) => name,
            None => {
                proof {
                    assert(first_bad_weekday(a, i as int));
                    let k = choose|k: int| first_bad_weekday(a, k);
                    lemma_first_bad_weekday_unique(a, i as int, k);
                    assert(array_value(deref_opt(value)) == Some(a));
                    assert(weekdays_error(field@, deref_opt(value)) == Some(weekday_entry_message(field@, a[i as int])));
                }
                return Err(message(field, " must contain weekday names only"));
            },
        };
        match weekday_index(name) {
            Some(index) => {
                assert(index < 7);
                let ghost before = weekdays@;
                weekdays[index] = true;
                proof {
                    assert forall|d: int| 0 <= d < 7 implies #[trigger] weekdays@[d] == exists|j: int|
                        0 <= j < i + 1 && #[trigger] entry_weekday(a[j]) == Some(d as usize) by {
                        if d == index {
                            assert(entry_weekday(a[i as int]) == Some(d as usize));
                        } else {
                            if exists|j: int| 0 <= j < i + 1 && #[trigger] entry_weekday(a[j]) == Some(d as usize) {
                                let j = choose|j: int| 0 <= j < i + 1 && #[trigger] entry_weekday(a[j]) == Some(d as usize);
                                assert(j < i);
                            }
                        }
                    }
                }
            },
            None => {
                let mut m = message(field, " contains unknown weekday `");
                m.append(trim_str(name));
                m.append("`");
                proof {
                    assert(first_bad_weekday(a, i as int));
                    let k = choose|k: int| first_bad_weekday(a, k);
                    lemma_first_bad_weekday_unique(a, i as int, k);
                    assert(m@ =~= weekday_entry_message(field@, a[i as int]));
                }
                return Err(m);
            },
        }
    }
    proof {
        assert(!exists|i: int| first_bad_weekday(a, i));
        assert(weekdays@ =~= weekdays_of(a));
    }
    Ok(weekdays)
}


/// The number a JSON value holds, if it is one.
pub open spec fn number_of(v: Option<Json>) -> Option<JsonNumber> {
    match v {
        Some(Json::Number(n)) => Some(n),
        _ => None,
    }
}

/// Whether the double with bit pattern `bits` is finite and lies in
/// `[0.0, 100.0]`.  For patterns with the sign bit clear, the order of the
/// patterns is the order of the values, and the patterns of infinity and NaN
/// lie above that of every finite value; of the patterns with the sign bit
/// set only that of `-0.0` compares equal to zero rather than below it.
pub open spec fn f64_bits_in_multiplier_range(bits: u64) -> bool {
    bits <= MAX_TIME_PRICING_MULTIPLIER_BITS || bits == NEGATIVE_ZERO_BITS
}

/// Whether a multiplier is a finite number in `[0, 100]`.
pub open spec fn multiplier_in_range(n: JsonNumber) -> bool {
    match n {
        JsonNumber::PosInt(u) => u <= 100,
        JsonNumber::NegInt(i) => 0 <= i && i <= 100,
        JsonNumber::Float(b) => f64_bits_in_multiplier_range(b),
    }
}

/// The sign bit of a double's bit pattern.
pub open spec fn double_sign(bits: u64) -> int {
    bits as int / 0x8000_0000_0000_0000
}

/// The biased exponent field of a double's bit pattern.
pub open spec fn double_exponent(bits: u64) -> int {
    (bits as int / 0x10_0000_0000_0000) % 2048
}

/// The fraction field of a double's bit pattern.
pub open spec fn double_fraction(bits: u64) -> int {
    bits as int % 0x10_0000_0000_0000
}

/// The IEEE-754 double with bit pattern `bits` is finite and its value lies
/// in `[0, 100]`.  Exponent field 2047 holds infinities and NaN; a negative
/// double is in range only as a zero; a positive subnormal (exponent 0) is
/// below 1; a normal double with exponent field `e` and fraction `f` has the
/// value `(2^52 + f) * 2^(e - 1075)`, compared here after multiplying both
/// sides by `2^1075`.
pub open spec fn double_is_finite_in_0_to_100(bits: u64) -> bool {
    let e = double_exponent(bits);
    let f = double_fraction(bits);
    if e == 2047 {
        false
    } else if double_sign(bits) == 1 {
        e == 0 && f == 0
    } else if e == 0 {
        true
    } else {
        (0x10_0000_0000_0000 + f) * pow2(e as nat) <= 100 * pow2(1075)
    }
}

/// A double multiplier is accepted exactly when it is a finite number in
/// `[0, 100]`, by the IEEE-754 value its bit pattern encodes.
pub proof fn lemma_double_multiplier_range_is_its_value(bits: u64)
    ensures
        multiplier_in_range(JsonNumber::Float(bits)) == double_is_finite_in_0_to_100(bits),
{
    let b = bits as int;
    let s = double_sign(bits);
    let e = double_exponent(bits);
    let f = double_fraction(bits);
    let q = b / 0x10_0000_0000_0000;
    assert(b == q * 0x10_0000_0000_0000 + f);
    assert(q == s * 2048 + e);
    assert(0 <= s <= 1);
    assert(b == s * 0x8000_0000_0000_0000 + e * 0x10_0000_0000_0000 + f);
    if s == 0 && 1 <= e && e < 2047 {
        lemma2_to64_rest();
        lemma_pow2_adds(1029, 46);
        lemma_pow2_unfold(1029);
        let p = pow2(1028);
        lemma_pow2_pos(1028);
        let lhs = (0x10_0000_0000_0000 + f) * pow2(e as nat);
        assert(pow2(1075) == 2 * p * 0x4000_0000_0000);
        if e <= 1028 {
            if e < 1028 {
                lemma_pow2_strictly_increases(e as nat, 1028);
            }
            assert(lhs <= 0x20_0000_0000_0000 * p) by (nonlinear_arith)
                requires
                    lhs == (0x10_0000_0000_0000 + f) * pow2(e as nat),
                    0 <= f < 0x10_0000_0000_0000,
                    pow2(e as nat) <= p,
            ;
            assert(0x20_0000_0000_0000 * p <= 100 * pow2(1075)) by (nonlinear_arith)
                requires
                    pow2(1075) == 2 * p * 0x4000_0000_0000,
                    p > 0,
            ;
        } else if e == 1029 {
            assert(lhs == (0x10_0000_0000_0000 + f) * (2 * p));
            assert(100 * pow2(1075) == 0x19_0000_0000_0000 * (2 * p)) by (nonlinear_arith)
                requires
                    pow2(1075) == 2 * p * 0x4000_0000_0000,
            ;
            assert((lhs <= 100 * pow2(1075)) == (0x10_0000_0000_0000 + f <= 0x19_0000_0000_0000))
                by (nonlinear_arith)
                requires
                    lhs == (0x10_0000_0000_0000 + f) * (2 * p),
                    100 * pow2(1075) == 0x19_0000_0000_0000 * (2 * p),
                    p > 0,
            ;
        } else {
            lemma_pow2_unfold(1030);
            if e > 1030 {
                lemma_pow2_strictly_increases(1030, e as nat);
            }
            assert(lhs > 100 * pow2(1075)) by (nonlinear_arith)
                requires
                    lhs == (0x10_0000_0000_0000 + f) * pow2(e as nat),
                    0 <= f,
                    pow2(e as nat) >= 4 * p,
                    pow2(1075) == 2 * p * 0x4000_0000_0000,
                    p > 0,
            ;
        }
    }
}

/// Whether a multiplier is a finite number in `[0, 100]`.
pub fn multiplier_is_in_range(n: JsonNumber) -> (r: bool)
    ensures
        r == multiplier_in_range(n),
        n matches JsonNumber::Float(b) ==> r == double_is_finite_in_0_to_100(b),
{
    proof {
        if let JsonNumber::Float(b) = n {
            lemma_double_multiplier_range_is_its_value(b);
        }
    }
    match n {
        JsonNumber::PosInt(u) => u <= 100,
        JsonNumber::NegInt(i) => 0 <= i && i <= 100,
        JsonNumber::Float(b) => b <= MAX_TIME_PRICING_MULTIPLIER_BITS || b == NEGATIVE_ZERO_BITS,
    }
}

/// The path of window `index` under `field`.
pub open spec fn window_scope(field: Seq<char>, index: nat) -> Seq<char> {
    field + ".windows["@ + decimal(index) + "]"@
}

/// The identifier of a window object: its `id` string, trimmed, if that is
/// not empty.
pub open spec fn window_id_of(v: Json) -> Option<Seq<char>> {
    match str_value(member(v, "id"@)) {
        Some(s) => if trim(s).len() > 0 {
            Some(trim(s))
        } else {
            None
        },
        None => None,
    }
}

/// The first complaint about window `index` under `field`, if any, in the
/// order: an object; a non-empty `id`; the `weekdays`; a `start` time; an
/// `end` time; `start < end`; a numeric `price_multiplier`; a multiplier in
/// `[0, 100]`.
pub open spec fn window_error(field: Seq<char>, index: nat, v: Json) -> Option<Seq<char>> {
    let scope = window_scope(field, index);
    if !(v is Object) {
        Some(scope + " must be an object"@)
    } else if window_id_of(v) is None {
        Some(scope + ".id must be a non-empty string"@)
    } else if weekdays_error(scope + ".weekdays"@, member(v, "weekdays"@)) is Some {
        weekdays_error(scope + ".weekdays"@, member(v, "weekdays"@))
    } else if time_of_day_of(member(v, "start"@)) is None {
        Some(time_message(scope + ".start"@))
    } else if time_of_day_of(member(v, "end"@)) is None {
        Some(time_message(scope + ".end"@))
    } else if time_of_day_of(member(v, "end"@))->0 <= time_of_day_of(member(v, "start"@))->0 {
        Some(scope + " must satisfy start < end; windows cannot wrap across midnight"@)
    } else if number_of(member(v, "price_multiplier"@)) is None {
        Some(scope + ".price_multiplier must be a non-negative finite number"@)
    } else if !multiplier_in_range(number_of(member(v, "price_multiplier"@))->0) {
        Some(scope + ".price_multiplier must be between 0 and 100"@)
    } else {
        None
    }
}

/// `w` holds what the window object `v` describes.
pub open spec fn window_matches(w: TimePricingWindow, v: Json) -> bool {
    &&& Some(w.id@) == window_id_of(v)
    &&& w.weekdays@ == weekdays_value(member(v, "weekdays"@))
    &&& Some(w.start_minute_of_day) == time_of_day_of(member(v, "start"@))
    &&& Some(w.end_minute_of_day) == time_of_day_of(member(v, "end"@))
    &&& Some(w.price_multiplier) == number_of(member(v, "price_multiplier"@))
}

fn window_scope_text(field: &str, index: usize) -> (r: String)
    ensures
        r@ == window_scope(field@, index as nat),
{
    let mut s = owned(field);
    s.append(".windows[");
    push_decimal(&mut s, index);
    s.append("]");
    s
}

fn parse_window(field: &str, index: usize, value: &Json) -> (r: Result<TimePricingWindow, String>)
    ensures
        match window_error(field@, index as nat, *value) {
            Some(e) => r matches Err(m) && m@ == e,
            None => r matches Ok(w) && window_matches(w, *value),
        },
{
    let scope = window_scope_text(field, index);
    let object = match value.as_object() {
        Some(o) => o,
        None => return Err(message(scope.as_str(), " must be an object")),
    };
    let id = match object.get("id") {
        Some(v) => match v.as_str() {
            Some(s) => {
                let t = trim_str(s);
                if t.is_empty() {
                    return Err(message(scope.as_str(), ".id must be a non-empty string"));
                }
                owned(t)
            },
            None => return Err(message(scope.as_str(), ".id must be a non-empty string")),
        },
        None => return Err(message(scope.as_str(), ".id must be a non-empty string")),
    };
    let weekdays_field = message(scope.as_str(), ".weekdays");
    let weekdays = match parse_weekdays(weekdays_field.as_str(), object.get("weekdays")) {
        Ok(w) => w,
        Err(e) => return Err(e),
    };
    let start_field = message(scope.as_str(), ".start");
    let start_minute_of_day = match parse_time_of_day(start_field.as_str(), object.get("start")) {
        Ok(m) => m,
        Err(e) => return Err(e),
    };
    let end_field = message(scope.as_str(), ".end");
    let end_minute_of_day = match parse_time_of_day(end_field.as_str(), object.get("end")) {
        Ok(m) => m,
        Err(e) => return Err(e),
    };
    if end_minute_of_day <= start_minute_of_day {
        return Err(
            message(
                scope.as_str(),
                " must satisfy start < end; windows cannot wrap across midnight",
            ),
        );
    }
    let price_multiplier = match object.get("price_multiplier") {
        Some(Json::Number(n)) => *n,
        _ => return Err(
            message(scope.as_str(), ".price_multiplier must be a non-negative finite number"),
        ),
    };
    if !multiplier_is_in_range(price_multiplier) {
        return Err(message(scope.as_str(), ".price_multiplier must be between 0 and 100"));
    }
    Ok(TimePricingWindow { id, weekdays, start_minute_of_day, end_minute_of_day, price_multiplier })
}


/// A validated `time_pricing` block.
#[derive(Debug, PartialEq)]
pub struct TimePricingConfig {
    pub timezone: String,
    pub windows: Vec<TimePricingWindow>,
}

/// What a `tiered_pricing` catalog says about time pricing: nothing (inherit
/// the global configuration), an explicit `null` (disabled), or a block.
#[derive(Debug, PartialEq)]
pub enum TimePricingCatalogState {
    Inherit,
    Disabled,
    Configured(TimePricingConfig),
}

/// Two windows share a day of the week.
pub open spec fn shares_weekday(a: TimePricingWindow, b: TimePricingWindow) -> bool {
    exists|d: int| 0 <= d < 7 && #[trigger] a.weekdays@[d] && b.weekdays@[d]
}

/// Two windows share a day and their minute ranges intersect.
pub open spec fn windows_overlap(a: TimePricingWindow, b: TimePricingWindow) -> bool {
    &&& shares_weekday(a, b)
    &&& a.start_minute_of_day < b.end_minute_of_day
    &&& b.start_minute_of_day < a.end_minute_of_day
}

impl TimePricingWindow {
    /// What every parsed window satisfies.
    pub open spec fn is_valid(self) -> bool {
        &&& self.id@.len() > 0
        &&& exists|d: int| 0 <= d < 7 && #[trigger] self.weekdays@[d]
        &&& self.start_minute_of_day < self.end_minute_of_day
        &&& self.end_minute_of_day <= MINUTES_PER_DAY
        &&& multiplier_in_range(self.price_multiplier)
    }
}

impl TimePricingConfig {
    /// What every parsed configuration satisfies: a known zone, at least one
    /// window, valid windows with distinct identifiers, and no two windows that
    /// overlap.
    pub open spec fn is_valid(self) -> bool {
        &&& is_iana_timezone(self.timezone@)
        &&& self.timezone@.len() > 0
        &&& self.windows@.len() > 0
        &&& forall|i: int| 0 <= i < self.windows@.len() ==> (#[trigger] self.windows@[i]).is_valid()
        &&& forall|i: int, j: int|
            0 <= i < self.windows@.len() && 0 <= j < self.windows@.len() && i != j
                ==> #[trigger] self.windows@[i].id@ != #[trigger] self.windows@[j].id@
        &&& forall|i: int, j: int|
            0 <= i < self.windows@.len() && 0 <= j < self.windows@.len() && i != j
                ==> !windows_overlap(#[trigger] self.windows@[i], #[trigger] self.windows@[j])
    }
}

/// The identifier that a valid window object describes.
pub open spec fn model_id(v: Json) -> Seq<char> {
    window_id_of(v)->0
}

/// The days that a valid window object describes.
pub open spec fn model_weekdays(v: Json) -> Seq<bool> {
    weekdays_value(member(v, "weekdays"@))
}

/// The first minute that a valid window object describes.
pub open spec fn model_start(v: Json) -> int {
    time_of_day_of(member(v, "start"@))->0 as int
}

/// The end minute that a valid window object describes.
pub open spec fn model_end(v: Json) -> int {
    time_of_day_of(member(v, "end"@))->0 as int
}

/// Two window objects describe overlapping windows.
pub open spec fn models_overlap(a: Json, b: Json) -> bool {
    &&& exists|d: int| 0 <= d < 7 && #[trigger] model_weekdays(a)[d] && model_weekdays(b)[d]
    &&& model_start(a) < model_end(b)
    &&& model_start(b) < model_end(a)
}

/// `i` is the first window object with a complaint.
pub open spec fn first_window_error(f: Seq<char>, a: Seq<Json>, i: int) -> bool {
    &&& 0 <= i < a.len()
    &&& window_error(f, i as nat, a[i]) is Some
    &&& forall|j: int| 0 <= j < i ==> (#[trigger] window_error(f, j as nat, a[j])) is None
}

/// `j` is the first window whose identifier an earlier window already has.
pub open spec fn first_duplicate(a: Seq<Json>, j: int) -> bool {
    &&& 0 <= j < a.len()
    &&& exists|k: int| 0 <= k < j && model_id(#[trigger] a[k]) == model_id(a[j])
    &&& forall|j2: int, k2: int| 0 <= k2 < j2 < j ==> model_id(#[trigger] a[k2]) != model_id(#[trigger] a[j2])
}

/// `(i, j)` is the first pair, in the order `(0, 1), (0, 2), .., (1, 2), ..`,
/// of windows that overlap.
pub open spec fn first_overlap(a: Seq<Json>, i: int, j: int) -> bool {
    &&& 0 <= i < j < a.len()
    &&& models_overlap(a[i], a[j])
    &&& forall|i2: int, j2: int|
        0 <= i2 < j2 < a.len() && (i2 < i || (i2 == i && j2 < j)) ==> !models_overlap(
            #[trigger] a[i2],
            #[trigger] a[j2],
        )
}

/// The complaint about a repeated identifier.
pub open spec fn duplicate_message(f: Seq<char>, v: Json) -> Seq<char> {
    f + ".windows contains duplicate window id `"@ + model_id(v) + "`"@
}

/// The complaint about two overlapping windows.
pub open spec fn overlap_message(f: Seq<char>, a: Json, b: Json) -> Seq<char> {
    f + ".windows windows `"@ + model_id(a) + "` and `"@ + model_id(b) + "` overlap"@
}


/// The zone that a block names: its `timezone` string, trimmed, if that is
/// not empty.
pub open spec fn timezone_of(raw: Json) -> Option<Seq<char>> {
    match str_value(member(raw, "timezone"@)) {
        Some(s) => if trim(s).len() > 0 {
            Some(trim(s))
        } else {
            None
        },
        None => None,
    }
}

/// What parsing the non-null block `raw` found under path `f` gives: the
/// first complaint, in the order object, zone, known zone, window array,
/// non-empty array, each window in turn, repeated identifiers, overlapping
/// windows; or the configuration that the block describes.
pub open spec fn configured_outcome(
    f: Seq<char>,
    raw: Json,
    r: Result<TimePricingCatalogState, String>,
) -> bool {
    if !(raw is Object) {
        err_text(r, f + " must be an object"@)
    } else {
        match timezone_of(raw) {
            None => err_text(r, f + ".timezone must be a non-empty IANA timezone"@),
            Some(tz) => if !is_iana_timezone(tz) {
                err_text(r, f + ".timezone `"@ + tz + "` is not a known IANA timezone"@)
            } else {
                match array_value(member(raw, "windows"@)) {
                    None => err_text(r, f + ".windows must be an array"@),
                    Some(a) => if a.len() == 0 {
                        err_text(r, f + ".windows must contain at least one window"@)
                    } else if exists|i: int| first_window_error(f, a, i) {
                        exists|i: int|
                            first_window_error(f, a, i) && err_text(
                                r,
                                window_error(f, i as nat, a[i])->0,
                            )
                    } else if exists|j: int| first_duplicate(a, j) {
                        exists|j: int| first_duplicate(a, j) && err_text(r, duplicate_message(f, a[j]))
                    } else if exists|i: int, j: int| first_overlap(a, i, j) {
                        exists|i: int, j: int|
                            first_overlap(a, i, j) && err_text(r, overlap_message(f, a[i], a[j]))
                    } else {
                        r matches Ok(TimePricingCatalogState::Configured(c)) && c.timezone@ == tz
                            && c.windows@.len() == a.len() && forall|i: int|
                            0 <= i < a.len() ==> window_matches(#[trigger] c.windows@[i], a[i])
                    },
                }
            },
        }
    }
}

/// What parsing `tiered_pricing` under path `field` gives: `Inherit` when
/// there is no catalog or it has no `time_pricing` key, `Disabled` when that
/// key holds `null`, and otherwise the outcome of parsing the block.
pub open spec fn catalog_state_outcome(
    field: Seq<char>,
    tiered_pricing: Option<Json>,
    r: Result<TimePricingCatalogState, String>,
) -> bool {
    match tiered_pricing {
        None => r == Ok::<TimePricingCatalogState, String>(TimePricingCatalogState::Inherit),
        Some(t) => match member(t, "time_pricing"@) {
            None => r == Ok::<TimePricingCatalogState, String>(TimePricingCatalogState::Inherit),
            Some(raw) => if raw is Null {
                r == Ok::<TimePricingCatalogState, String>(TimePricingCatalogState::Disabled)
            } else {
                configured_outcome(field + ".time_pricing"@, raw, r)
            },
        },
    }
}

fn windows_overlap_exec(a: &TimePricingWindow, b: &TimePricingWindow) -> (r: bool)
    ensures
        r == windows_overlap(*a, *b),
{
    let mut shares = false;
    for d in 0..7
        invariant
            shares == exists|e: int| 0 <= e < d && #[trigger] a.weekdays@[e] && b.weekdays@[e],
    {
        if a.weekdays[d] && b.weekdays[d] {
            shares = true;
        }
    }
    shares && a.start_minute_of_day < b.end_minute_of_day && b.start_minute_of_day
        < a.end_minute_of_day
}

proof fn lemma_overlap_models(wa: TimePricingWindow, a: Json, wb: TimePricingWindow, b: Json)
    requires
        window_matches(wa, a),
        window_matches(wb, b),
    ensures
        windows_overlap(wa, wb) == models_overlap(a, b),
        (wa.id@ == wb.id@) == (model_id(a) == model_id(b)),
{
    if windows_overlap(wa, wb) {
        let d = choose|d: int| 0 <= d < 7 && #[trigger] wa.weekdays@[d] && wb.weekdays@[d];
        assert(model_weekdays(a)[d]);
    }
    if models_overlap(a, b) {
        let d = choose|d: int| 0 <= d < 7 && #[trigger] model_weekdays(a)[d] && model_weekdays(b)[d];
        assert(wa.weekdays@[d]);
    }
}

proof fn lemma_time_of_day_bound(raw: Seq<char>)
    requires
        time_of_day_spec(raw) is Some,
    ensures
        time_of_day_spec(raw)->0 <= 1440,
{
}

proof fn lemma_parsed_window_valid(w: TimePricingWindow, f: Seq<char>, i: nat, v: Json)
    requires
        window_error(f, i, v) is None,
        window_matches(w, v),
    ensures
        w.is_valid(),
{
    let scope = window_scope(f, i);
    let a = array_value(member(v, "weekdays"@))->0;
    assert(weekdays_error(scope + ".weekdays"@, member(v, "weekdays"@)) is None);
    assert(a.len() > 0);
    assert(!exists|k: int| first_bad_weekday(a, k));
    if entry_weekday(a[0]) is None {
        assert(first_bad_weekday(a, 0));
    }
    let d = entry_weekday(a[0])->0;
    assert(weekdays_of(a)[d as int]);
    lemma_time_of_day_bound(str_value(member(v, "end"@))->0);
}


/// `j` is the first window whose identifier an earlier window already has.
pub open spec fn first_duplicate_window(ws: Seq<TimePricingWindow>, j: int) -> bool {
    &&& 0 <= j < ws.len()
    &&& exists|k: int| 0 <= k < j && (#[trigger] ws[k]).id@ == ws[j].id@
    &&& forall|j2: int, k2: int| 0 <= k2 < j2 < j ==> (#[trigger] ws[k2]).id@ != (#[trigger] ws[j2]).id@
}

/// `(i, j)` is the first pair of windows, in the order `(0, 1), (0, 2), ..,
/// (1, 2), ..`, that overlap.
pub open spec fn first_overlapping_pair(ws: Seq<TimePricingWindow>, i: int, j: int) -> bool {
    &&& 0 <= i < j < ws.len()
    &&& windows_overlap(ws[i], ws[j])
    &&& forall|i2: int, j2: int|
        0 <= i2 < j2 < ws.len() && (i2 < i || (i2 == i && j2 < j)) ==> !windows_overlap(
            #[trigger] ws[i2],
            #[trigger] ws[j2],
        )
}

/// What checking the windows under path `field` gives: the first repeated
/// identifier, else the first overlapping pair, else success.
pub open spec fn overlap_check_outcome(
    field: Seq<char>,
    ws: Seq<TimePricingWindow>,
    r: Result<(), String>,
) -> bool {
    if exists|j: int| first_duplicate_window(ws, j) {
        exists|j: int|
            first_duplicate_window(ws, j) && err_text(
                r,
                field + ".windows contains duplicate window id `"@ + ws[j].id@ + "`"@,
            )
    } else if exists|i: int, j: int| first_overlapping_pair(ws, i, j) {
        exists|i: int, j: int|
            first_overlapping_pair(ws, i, j) && err_text(
                r,
                field + ".windows windows `"@ + ws[i].id@ + "` and `"@ + ws[j].id@ + "` overlap"@,
            )
    } else {
        r is Ok
    }
}

/// Rejects windows with a repeated identifier, then windows that share a
/// day and whose minute ranges intersect (adjacent ranges do not).
pub fn reject_overlapping_windows(field: &str, windows: &Vec<TimePricingWindow>) -> (r: Result<(), String>)
    ensures
        overlap_check_outcome(field@, windows@, r),
        r is Ok ==> forall|i: int, j: int|
            0 <= i < windows@.len() && 0 <= j < windows@.len() && i != j ==> {
                &&& (#[trigger] windows@[i]).id@ != (#[trigger] windows@[j]).id@
                &&& !windows_overlap(windows@[i], windows@[j])
            },
{
    let ghost ws = windows@;
    let n = windows.len();
    for j in 0..n
        invariant
            n == ws.len(),
            ws == windows@,
            forall|j2: int, k2: int| 0 <= k2 < j2 < j ==> (#[trigger] ws[k2]).id@ != (#[trigger] ws[j2]).id@,
    {
        for k in 0..j
            invariant
                n == ws.len(),
                ws == windows@,
                j < n,
                forall|j2: int, k2: int| 0 <= k2 < j2 < j ==> (#[trigger] ws[k2]).id@ != (#[trigger] ws[j2]).id@,
                forall|k2: int| 0 <= k2 < k ==> (#[trigger] ws[k2]).id@ != ws[j as int].id@,
        {
            if str_eq(windows[k].id.as_str(), windows[j].id.as_str()) {
                let mut m = owned(field);
                m.append(".windows contains duplicate window id `");
                m.append(windows[j].id.as_str());
                m.append("`");
                proof {
                    assert(first_duplicate_window(ws, j as int));
                    assert forall|j3: int| #[trigger] first_duplicate_window(ws, j3) implies j3 == j by {
                        if j3 < j {
                            let k3 = choose|k3: int| 0 <= k3 < j3 && (#[trigger] ws[k3]).id@ == ws[j3].id@;
                            assert(ws[k3].id@ != ws[j3].id@);
                        } else if j3 > j {
                            assert(ws[k as int].id@ != ws[j as int].id@);
                        }
                    }
                }
                return Err(m);
            }
        }
    }
    assert(!exists|j: int| first_duplicate_window(ws, j)) by {
        if exists|j: int| first_duplicate_window(ws, j) {
            let j = choose|j: int| first_duplicate_window(ws, j);
            let k = choose|k: int| 0 <= k < j && (#[trigger] ws[k]).id@ == ws[j].id@;
            assert(ws[k].id@ != ws[j].id@);
        }
    }
    for i in 0..n
        invariant
            n == ws.len(),
            ws == windows@,
            !exists|j: int| first_duplicate_window(ws, j),
            forall|j2: int, k2: int| 0 <= k2 < j2 < n ==> (#[trigger] ws[k2]).id@ != (#[trigger] ws[j2]).id@,
            forall|i2: int, j2: int| 0 <= i2 < j2 < n && i2 < i ==> !windows_overlap(#[trigger] ws[i2], #[trigger] ws[j2]),
    {
        let mut j = i + 1;
        while j < n
            invariant
                n == ws.len(),
                ws == windows@,
                i < n,
                i + 1 <= j <= n,
                !exists|j: int| first_duplicate_window(ws, j),
                forall|j2: int, k2: int| 0 <= k2 < j2 < n ==> (#[trigger] ws[k2]).id@ != (#[trigger] ws[j2]).id@,
                forall|i2: int, j2: int| 0 <= i2 < j2 < n && i2 < i ==> !windows_overlap(#[trigger] ws[i2], #[trigger] ws[j2]),
                forall|j2: int| i < j2 < j ==> !windows_overlap(ws[i as int], #[trigger] ws[j2]),
            decreases n - j,
        {
            if windows_overlap_exec(&windows[i], &windows[j]) {
                let mut m = owned(field);
                m.append(".windows windows `");
                m.append(windows[i].id.as_str());
                m.append("` and `");
                m.append(windows[j].id.as_str());
                m.append("` overlap");
                proof {
                    assert(first_overlapping_pair(ws, i as int, j as int));
                    assert forall|i3: int, j3: int| #[trigger] first_overlapping_pair(ws, i3, j3) implies i3 == i && j3 == j by {
                        if i3 < i || (i3 == i && j3 < j) {
                        } else if i3 != i || j3 != j {
                            assert(!windows_overlap(ws[i as int], ws[j as int]));
                        }
                    }
                }
                return Err(m);
            }
            j = j + 1;
        }
    }
    assert(!exists|i: int, j: int| first_overlapping_pair(ws, i, j));
    assert forall|i: int, j: int|
        0 <= i < ws.len() && 0 <= j < ws.len() && i != j implies {
            &&& (#[trigger] ws[i]).id@ != (#[trigger] ws[j]).id@
            &&& !windows_overlap(ws[i], ws[j])
        } by {
        if i < j {
            assert(ws[i].id@ != ws[j].id@);
        } else {
            assert(ws[j].id@ != ws[i].id@);
            assert(!windows_overlap(ws[j], ws[i]));
            assert(windows_overlap(ws[i], ws[j]) ==> windows_overlap(ws[j], ws[i])) by {
                if windows_overlap(ws[i], ws[j]) {
                    let d = choose|d: int| 0 <= d < 7 && #[trigger] ws[i].weekdays@[d] && ws[j].weekdays@[d];
                    assert(ws[j].weekdays@[d] && ws[i].weekdays@[d]);
                }
            }
        }
    }
    Ok(())
}


proof fn lemma_first_window_error_unique(f: Seq<char>, a: Seq<Json>, i: int, k: int)
    requires
        first_window_error(f, a, i),
        first_window_error(f, a, k),
    ensures
        i == k,
{
    if i < k {
        assert(window_error(f, i as nat, a[i]) is None);
    } else if k < i {
        assert(window_error(f, k as nat, a[k]) is None);
    }
}

fn parse_windows(field: &str, entries: &Vec<Json>) -> (r: Result<Vec<TimePricingWindow>, String>)
    ensures
        if exists|i: int| first_window_error(field@, entries@, i) {
            exists|i: int|
                first_window_error(field@, entries@, i) && err_text(
                    r,
                    window_error(field@, i as nat, entries@[i])->0,
                )
        } else {
            r matches Ok(ws) && ws@.len() == entries@.len() && (forall|i: int|
                0 <= i < entries@.len() ==> window_matches(#[trigger] ws@[i], entries@[i])) && (
            forall|i: int|
                0 <= i < entries@.len() ==> (#[trigger] window_error(field@, i as nat, entries@[i])) is None)
        },
{
    let ghost a = entries@;
    let mut windows: Vec<TimePricingWindow> = Vec::new();
    let n = entries.len();
    for index in 0..n
        invariant
            n == a.len(),
            a == entries@,
            windows@.len() == index,
            forall|j: int| 0 <= j < index ==> (#[trigger] window_error(field@, j as nat, a[j])) is None,
            forall|j: int| 0 <= j < index ==> window_matches(#[trigger] windows@[j], a[j]),
    {
        match parse_window(field, index, &entries[index]) {
            Ok(w) => {
                windows.push(w);
            },
            Err(e) => {
                proof {
                    assert(first_window_error(field@, a, index as int));
                    assert forall|k: int| #[trigger] first_window_error(field@, a, k) implies k == index by {
                        lemma_first_window_error_unique(field@, a, index as int, k);
                    }
                }
                return Err(e);
            },
        }
    }
    assert(!exists|i: int| first_window_error(field@, a, i));
    Ok(windows)
}

proof fn lemma_checks_agree(ws: Seq<TimePricingWindow>, a: Seq<Json>)
    requires
        ws.len() == a.len(),
        forall|i: int| 0 <= i < a.len() ==> window_matches(#[trigger] ws[i], a[i]),
    ensures
        forall|j: int| first_duplicate_window(ws, j) == first_duplicate(a, j),
        forall|i: int, j: int| first_overlapping_pair(ws, i, j) == first_overlap(a, i, j),
        forall|j: int| 0 <= j < a.len() ==> #[trigger] ws[j].id@ == model_id(a[j]),
{
    assert forall|i: int, j: int| 0 <= i < a.len() && 0 <= j < a.len() implies
        #[trigger] windows_overlap(ws[i], ws[j]) == models_overlap(a[i], a[j]) by {
        lemma_overlap_models(ws[i], a[i], ws[j], a[j]);
    }
    assert forall|j: int| 0 <= j < a.len() implies #[trigger] ws[j].id@ == model_id(a[j]) by {
        assert(window_matches(ws[j], a[j]));
    }
    assert forall|j: int| first_duplicate_window(ws, j) == first_duplicate(a, j) by {
        if 0 <= j < a.len() {
            assert((exists|k: int| 0 <= k < j && (#[trigger] ws[k]).id@ == ws[j].id@) == (exists|k: int|
                0 <= k < j && model_id(#[trigger] a[k]) == model_id(a[j]))) by {
                if exists|k: int| 0 <= k < j && (#[trigger] ws[k]).id@ == ws[j].id@ {
                    let k = choose|k: int| 0 <= k < j && (#[trigger] ws[k]).id@ == ws[j].id@;
                    assert(model_id(a[k]) == ws[k].id@);
                }
                if exists|k: int| 0 <= k < j && model_id(#[trigger] a[k]) == model_id(a[j]) {
                    let k = choose|k: int| 0 <= k < j && model_id(#[trigger] a[k]) == model_id(a[j]);
                    assert(model_id(a[k]) == ws[k].id@);
                }
            }
            let pw = forall|j2: int, k2: int| 0 <= k2 < j2 < j ==> (#[trigger] ws[k2]).id@ != (#[trigger] ws[j2]).id@;
            let pa = forall|j2: int, k2: int| 0 <= k2 < j2 < j ==> model_id(#[trigger] a[k2]) != model_id(#[trigger] a[j2]);
            if pw {
                assert forall|j2: int, k2: int| 0 <= k2 < j2 < j implies model_id(#[trigger] a[k2]) != model_id(#[trigger] a[j2]) by {
                    assert(ws[k2].id@ != ws[j2].id@);
                    assert(ws[k2].id@ == model_id(a[k2]));
                    assert(ws[j2].id@ == model_id(a[j2]));
                }
            }
            if pa {
                assert forall|j2: int, k2: int| 0 <= k2 < j2 < j implies (#[trigger] ws[k2]).id@ != (#[trigger] ws[j2]).id@ by {
                    assert(model_id(a[k2]) != model_id(a[j2]));
                    assert(ws[k2].id@ == model_id(a[k2]));
                    assert(ws[j2].id@ == model_id(a[j2]));
                }
            }
        }
    }
    assert forall|i: int, j: int| first_overlapping_pair(ws, i, j) == first_overlap(a, i, j) by {
        if 0 <= i < j < a.len() {
            assert(windows_overlap(ws[i], ws[j]) == models_overlap(a[i], a[j]));
            let pw = forall|i2: int, j2: int|
                0 <= i2 < j2 < ws.len() && (i2 < i || (i2 == i && j2 < j)) ==> !windows_overlap(
                    #[trigger] ws[i2],
                    #[trigger] ws[j2],
                );
            let pa = forall|i2: int, j2: int|
                0 <= i2 < j2 < a.len() && (i2 < i || (i2 == i && j2 < j)) ==> !models_overlap(
                    #[trigger] a[i2],
                    #[trigger] a[j2],
                );
            if pw {
                assert forall|i2: int, j2: int|
                    0 <= i2 < j2 < a.len() && (i2 < i || (i2 == i && j2 < j)) implies !models_overlap(
                        #[trigger] a[i2],
                        #[trigger] a[j2],
                    ) by {
                    assert(windows_overlap(ws[i2], ws[j2]) == models_overlap(a[i2], a[j2]));
                }
            }
            if pa {
                assert forall|i2: int, j2: int|
                    0 <= i2 < j2 < ws.len() && (i2 < i || (i2 == i && j2 < j)) implies !windows_overlap(
                        #[trigger] ws[i2],
                        #[trigger] ws[j2],
                    ) by {
                    assert(windows_overlap(ws[i2], ws[j2]) == models_overlap(a[i2], a[j2]));
                }
            }
        }
    }
}

/// Parses the `time_pricing` block of a `tiered_pricing` catalog, keeping
/// apart an absent key (inherit the global configuration) and an explicit
/// `null` (disable it).
pub fn parse_time_pricing_catalog_state(field_name: &str, tiered_pricing: Option<&Json>) -> (r:
    Result<TimePricingCatalogState, String>)
    ensures
        catalog_state_outcome(field_name@, deref_opt(tiered_pricing), r),
        r matches Ok(TimePricingCatalogState::Configured(c)) ==> c.is_valid(),
{
    let tiered_pricing = match tiered_pricing {
        Some(t) => t,
        None => return Ok(TimePricingCatalogState::Inherit),
    };
    let raw = match tiered_pricing.get(TIME_PRICING_FIELD) {
        Some(raw) => raw,
        None => return Ok(TimePricingCatalogState::Inherit),
    };
    if raw.is_null() {
        return Ok(TimePricingCatalogState::Disabled);
    }
    let field = message(field_name, ".time_pricing");
    let object = match raw.as_object() {
        Some(o) => o,
        None => return Err(message(field.as_str(), " must be an object")),
    };
    let timezone = match object.get(TIMEZONE_FIELD) {
        Some(v) => match v.as_str() {
            Some(s) => {
                let t = trim_str(s);
                if t.is_empty() {
                    return Err(message(field.as_str(), ".timezone must be a non-empty IANA timezone"));
                }
                t
            },
            None => return Err(message(field.as_str(), ".timezone must be a non-empty IANA timezone")),
        },
        None => return Err(message(field.as_str(), ".timezone must be a non-empty IANA timezone")),
    };
    if !is_known_timezone(timezone) {
        let mut m = message(field.as_str(), ".timezone `");
        m.append(timezone);
        m.append("` is not a known IANA timezone");
        return Err(m);
    }
    let entries = match object.get(WINDOWS_FIELD) {
        Some(v) => match v.as_array() {
            Some(a) => a,
            None => return Err(message(field.as_str(), ".windows must be an array")),
        },
        None => return Err(message(field.as_str(), ".windows must be an array")),
    };
    if entries.len() == 0 {
        return Err(message(field.as_str(), ".windows must contain at least one window"));
    }
    let windows = match parse_windows(field.as_str(), entries) {
        Ok(ws) => ws,
        Err(e) => return Err(e),
    };
    proof {
        lemma_checks_agree(windows@, entries@);
    }
    match reject_overlapping_windows(field.as_str(), &windows) {
        Ok(()) => {},
        Err(e) => {
            return Err(e);
        },
    }
    proof {
        assert forall|i: int| 0 <= i < windows@.len() implies (#[trigger] windows@[i]).is_valid() by {
            lemma_parsed_window_valid(windows@[i], field@, i as nat, entries@[i]);
        }
    }
    Ok(TimePricingCatalogState::Configured(TimePricingConfig { timezone: owned(timezone), windows }))
}

/// Parses the `time_pricing` block of a `tiered_pricing` catalog.  `Ok(None)`
/// means the catalog does not opt into time-based pricing; a present but
/// malformed block is an error.
pub fn parse_time_pricing(field_name: &str, tiered_pricing: Option<&Json>) -> (r: Result<
    Option<TimePricingConfig>,
    String,
>)
    ensures
        exists|s: Result<TimePricingCatalogState, String>|
            catalog_state_outcome(field_name@, deref_opt(tiered_pricing), s) && match s {
                Ok(TimePricingCatalogState::Configured(c)) => r == Ok::<Option<TimePricingConfig>, String>(Some(c)),
                Ok(_) => r == Ok::<Option<TimePricingConfig>, String>(None),
                Err(e) => r == Err::<Option<TimePricingConfig>, String>(e),
            },
        r matches Ok(Some(c)) ==> c.is_valid(),
{
    match parse_time_pricing_catalog_state(field_name, tiered_pricing) {
        Ok(TimePricingCatalogState::Configured(config)) => Ok(Some(config)),
        Ok(TimePricingCatalogState::Inherit) => Ok(None),
        Ok(TimePricingCatalogState::Disabled) => Ok(None),
        Err(e) => Err(e),
    }
}


/// `r` is the first window of `ws` that covers minute `minute` of weekday
/// `weekday`, or `None` when no window covers it.
pub open spec fn first_covering(
    ws: Seq<TimePricingWindow>,
    weekday: int,
    minute: int,
    r: Option<&TimePricingWindow>,
) -> bool {
    match r {
        Some(w) => exists|i: int|
            0 <= i < ws.len() && ws[i] == *w && (#[trigger] ws[i]).covers_spec(weekday, minute)
                && forall|j: int| 0 <= j < i ==> !(#[trigger] ws[j]).covers_spec(weekday, minute),
        None => forall|i: int| 0 <= i < ws.len() ==> !(#[trigger] ws[i]).covers_spec(weekday, minute),
    }
}

/// The window of `config` that covers minute `minute_of_day` of `weekday`,
/// if any: the first that does, in configuration order.
pub fn window_covering(config: &TimePricingConfig, weekday: Weekday, minute_of_day: u16) -> (r:
    Option<&TimePricingWindow>)
    ensures
        first_covering(config.windows@, weekday.index(), minute_of_day as int, r),
{
    let n = config.windows.len();
    for i in 0..n
        invariant
            n == config.windows@.len(),
            forall|j: int| 0 <= j < i ==> !(#[trigger] config.windows@[j]).covers_spec(weekday.index(), minute_of_day as int),
    {
        if config.windows[i].covers(weekday, minute_of_day) {
            return Some(&config.windows[i]);
        }
    }
    None
}

/// The minute of the day of a wall-clock reading.
pub open spec fn minute_of_day(hour: u32, minute: u32) -> int {
    hour * 60 + minute
}

/// What resolution gives: nothing where the wall clock cannot be read,
/// else the first window covering the minute `hour * 60 + minute` of the
/// local weekday.
pub open spec fn resolution(config: TimePricingConfig, at_unix_ms: int, r: Option<&TimePricingWindow>) -> bool {
    match wall_clock(config.timezone@, at_unix_ms) {
        None => r is None,
        Some((d, h, m)) => first_covering(config.windows@, d as int, h * 60 + m, r),
    }
}

/// A resolved window lists the local weekday and its range holds the
/// local minute of the day, `hour * 60 + minute`; no window does where
/// nothing is resolved.
pub open spec fn resolved_by_wall_clock(
    config: TimePricingConfig,
    at_unix_ms: int,
    r: Option<&TimePricingWindow>,
) -> bool {
    &&& r matches Some(w) ==> wall_clock(config.timezone@, at_unix_ms) matches Some((d, h, m))
        && w.weekdays@[d as int] && w.start_minute_of_day <= h * 60 + m && h * 60 + m
        < w.end_minute_of_day
    &&& r is None ==> match wall_clock(config.timezone@, at_unix_ms) {
        Some((d, h, m)) => forall|i: int|
            0 <= i < config.windows@.len() ==> !((#[trigger] config.windows@[i]).weekdays@[d as int]
                && config.windows@[i].start_minute_of_day <= h * 60 + m && h * 60 + m
                < config.windows@[i].end_minute_of_day),
        None => true,
    }
}

/// Resolution looks up the wall clock's own minute of the day: the window it
/// gives lists the local weekday and covers `hour * 60 + minute`, and when
/// it gives none, no window does.
pub proof fn lemma_resolution_uses_the_local_minute(
    config: TimePricingConfig,
    at_unix_ms: int,
    r: Option<&TimePricingWindow>,
)
    requires
        resolution(config, at_unix_ms, r),
    ensures
        resolved_by_wall_clock(config, at_unix_ms, r),
{
}

/// Returns the window covering `at_unix_ms` in the configuration's zone, or
/// `None` for off-peak.  `None` is also the answer for a zone or instant that
/// cannot be represented, so that an out-of-range clock never becomes a
/// surcharge.
pub fn resolve_time_pricing_window(config: &TimePricingConfig, at_unix_ms: i64) -> (r: Option<
    &TimePricingWindow,
>)
    ensures
        resolution(*config, at_unix_ms as int, r),
        resolved_by_wall_clock(*config, at_unix_ms as int, r),
        !is_iana_timezone(config.timezone@) || at_unix_ms < MIN_UNIX_MS || at_unix_ms > MAX_UNIX_MS
            ==> r is None,
        is_iana_timezone(config.timezone@) && MIN_UNIX_MS <= at_unix_ms <= MAX_UNIX_MS ==> wall_clock(
            config.timezone@,
            at_unix_ms as int,
        ) is Some,
{
    let (days, hour, minute) = match local_wall_clock(config.timezone.as_str(), at_unix_ms) {
        Some(clock) => clock,
        None => return None,
    };
    let minute_of_day = (hour * 60 + minute) as u16;
    let r = window_covering(config, Weekday::from_days_from_monday(days), minute_of_day);
    proof {
        lemma_resolution_uses_the_local_minute(*config, at_unix_ms as int, r);
    }
    r
}

/// In a valid configuration at most one window covers any minute of the
/// week, so the window that resolution picks does not depend on the order of
/// the windows.
pub proof fn lemma_at_most_one_window_covers(config: TimePricingConfig, weekday: int, minute: int)
    requires
        config.is_valid(),
        0 <= weekday < 7,
    ensures
        forall|i: int, j: int|
            0 <= i < config.windows@.len() && 0 <= j < config.windows@.len()
                && (#[trigger] config.windows@[i]).covers_spec(weekday, minute)
                && (#[trigger] config.windows@[j]).covers_spec(weekday, minute) ==> i == j,
{
    assert forall|i: int, j: int|
        0 <= i < config.windows@.len() && 0 <= j < config.windows@.len()
            && (#[trigger] config.windows@[i]).covers_spec(weekday, minute)
            && (#[trigger] config.windows@[j]).covers_spec(weekday, minute) implies i == j by {
        if i != j {
            let a = config.windows@[i];
            let b = config.windows@[j];
            assert(a.weekdays@[weekday] && b.weekdays@[weekday]);
            assert(shares_weekday(a, b));
            assert(!windows_overlap(a, b));
        }
    }
}

/// Windows are half-open: a window covers its start minute, does not cover
/// its end minute, and covers nothing on a day it does not list.
pub proof fn lemma_windows_are_half_open(w: TimePricingWindow, weekday: int)
    requires
        0 <= weekday < 7,
    ensures
        w.weekdays@[weekday] && w.start_minute_of_day < w.end_minute_of_day ==> w.covers_spec(
            weekday,
            w.start_minute_of_day as int,
        ),
        !w.covers_spec(weekday, w.end_minute_of_day as int),
        !w.weekdays@[weekday] ==> forall|m: int| !#[trigger] w.covers_spec(weekday, m),
{
}

} // verus!
