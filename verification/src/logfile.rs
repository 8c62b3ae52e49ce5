//! The log file: its name, which may hold date patterns, and its rotation.

use crate::calendar::{
    civil_from_days, date_of, day_number, every_number_has_a_date, numbers_follow_the_dates,
    valid_date, years_of_four_digits,
};
use crate::text::{
    all_digits, chars_of, dec, dec_is_ascii, dec_padded, decimal_padded, decimals_read_back,
    digits_sort_by_value, digits_value, is_space, order_is_kept, other_digits_are_refused,
    padded_numbers_differ, padded_to_width, parse_uint, parsed_uint, sorts_before, space_comes_off,
    spaces_alone_leave_nothing, text_of, trim_chars, trimmed, two_more_digits, IntError,
};
use vstd::prelude::*;

verus! {

// ── Intervals ──

/// Why a text is no interval.
#[derive(Debug)]
pub enum IntervalError {
    Empty,
    Bad { text: String, why: IntError },
}

impl IntervalError {
    /// The sentence for this error.
    pub open spec fn sentence(self) -> Seq<char> {
        match self {
            IntervalError::Empty => "empty interval"@,
            IntervalError::Bad { text, why } => "bad interval '"@ + text@ + "': "@ + why.sentence(),
        }
    }

    /// Says what is wrong.
    pub fn message(&self) -> (r: String)
        ensures
            r@ == self.sentence(),
    {
        match self {
            IntervalError::Empty => "empty interval".to_string(),
            IntervalError::Bad { text, why } => {
                let mut out = "bad interval '".to_string();
                out.append(text.as_str());
                out.append("': ");
                out.append(why.message().as_str());
                out
            },
        }
    }
}

/// The sentence for a bad interval quotes the interval, and ends with what is wrong with its
/// number.
pub proof fn bad_intervals_are_quoted(text: String, why: IntError)
    ensures
        (IntervalError::Bad { text, why }).sentence() == "bad interval '"@ + (text@ + ("': "@ + (
        match why {
            IntError::Empty => "cannot parse integer from empty string"@,
            IntError::InvalidDigit => "invalid digit found in string"@,
            IntError::TooLarge => "number too large to fit in target type"@,
        }))),
{
    assert("bad interval '"@ + text@ + "': "@ + why.sentence() =~= "bad interval '"@ + (text@ + (
    "': "@ + why.sentence())));
}

/// How many seconds the last character of an interval stands for, if it names a unit.
pub open spec fn unit_secs(c: char) -> Option<nat> {
    if c == 'd' {
        Some(86400)
    } else if c == 'h' {
        Some(3600)
    } else if c == 'm' {
        Some(60)
    } else if c == 's' {
        Some(1)
    } else {
        None
    }
}

/// The length in seconds of an interval: a number with a unit behind it, or a number of seconds.
pub open spec fn interval_secs(text: Seq<char>) -> Result<nat, Option<IntError>> {
    let s = trimmed(text);
    if s.len() == 0 {
        Err(None)
    } else {
        let (num, unit) = match unit_secs(s.last()) {
            Some(unit) => (s.drop_last(), unit),
            None => (s, 1),
        };
        match parsed_uint(num, 10, u64::MAX as nat) {
            Ok(n) => Ok(n * unit),
            Err(e) => Err(Some(e)),
        }
    }
}

/// Whether the length of an interval, if it has one, can be held.
pub open spec fn interval_fits(text: Seq<char>) -> bool {
    interval_secs(text) matches Ok(n) ==> n <= u64::MAX
}

/// What reading an interval gives.
pub open spec fn interval_read(text: Seq<char>, r: Result<u64, IntervalError>) -> bool {
    match interval_secs(text) {
        Ok(n) => r matches Ok(v) && v == n,
        Err(None) => r matches Err(IntervalError::Empty),
        Err(Some(e)) => r matches Err(IntervalError::Bad { text: t, why }) && t@ == trimmed(text)
            && why == e,
    }
}

/// Reading an interval gives its length, or says why there is none.
pub proof fn intervals_are_read(text: Seq<char>, v: u64, n: nat, why: IntError)
    ensures
        interval_secs(text) == Ok::<nat, Option<IntError>>(n) && n <= u64::MAX ==> (interval_read(
            text,
            Ok(v),
        ) <==> v == n) && interval_fits(text),
        interval_secs(text) == Err::<nat, Option<IntError>>(None) ==> interval_read(
            text,
            Err(IntervalError::Empty),
        ) && !interval_read(text, Ok(v)) && interval_fits(text),
        interval_secs(text) == Err::<nat, Option<IntError>>(Some(why)) ==> !interval_read(
            text,
            Ok(v),
        ) && !interval_read(text, Err(IntervalError::Empty)) && interval_fits(text),
{
}

/// Reads an interval such as `5h`, `30m`, `1d` or `3600s`; nothing where its length cannot be
/// held.
pub fn checked_interval(s: &str) -> (r: Option<Result<u64, IntervalError>>)
    ensures
        r is Some <==> interval_fits(s@),
        r matches Some(read) ==> interval_read(s@, read),
{
    let all = chars_of(s);
    let s = trim_chars(all.as_slice());
    if s.len() == 0 {
        return Some(Err(IntervalError::Empty));
    }
    let n: usize = s.len();
    let last: char = s[n - 1];
    let (len, unit): (usize, u64) = if last == 'd' {
        (n - 1, 86400)
    } else if last == 'h' {
        (n - 1, 3600)
    } else if last == 'm' {
        (n - 1, 60)
    } else if last == 's' {
        (n - 1, 1)
    } else {
        (n, 1)
    };
    let num = vstd::slice::slice_subrange(s.as_slice(), 0, len);
    assert(s@.subrange(0, n as int) =~= s@);
    assert(s@.subrange(0, n - 1) =~= s@.drop_last());
    match parse_uint(num, 10, u64::MAX) {
        Err(why) => Some(Err(IntervalError::Bad { text: text_of(s.as_slice()), why })),
        Ok(v) => match v.checked_mul(unit) {
            Some(secs) => Some(Ok(secs)),
            None => None,
        },
    }
}

/// Reads an interval whose length can be held.
pub fn parse_interval(s: &str) -> (r: Result<u64, IntervalError>)
    requires
        interval_fits(s@),
    ensures
        interval_read(s@, r),
{
    checked_interval(s).unwrap()
}

/// A number with a unit behind it is an interval of so many units; a number alone is one of so
/// many seconds.
pub proof fn intervals_read_as_written(n: nat, unit: char)
    requires
        n <= u64::MAX,
        unit_secs(unit) is Some,
    ensures
        interval_secs(dec(n).push(unit)) == Ok::<nat, Option<IntError>>(n * unit_secs(unit)->0),
        interval_secs(dec(n)) == Ok::<nat, Option<IntError>>(n),
{
    dec_is_ascii(n);
    decimals_read_back(n, u64::MAX as nat);
    let digits = dec(n);
    let s = digits.push(unit);
    assert('0' <= digits[0] <= '9');
    assert('0' <= digits[digits.len() - 1] <= '9');
    assert(s[0] == digits[0]);
    assert(s.drop_last() =~= digits);
    assert(trimmed(s) == s);
    assert(trimmed(digits) == digits);
    assert(unit_secs(digits.last()) is None);
    assert(n * 1nat == n) by (nonlinear_arith);
}

/// The units: days, hours, minutes and seconds, and no others.
pub proof fn units_are_known(c: char)
    ensures
        unit_secs('s') == Some(1nat),
        unit_secs('m') == Some(60nat),
        unit_secs('h') == Some(60 * 60nat),
        unit_secs('d') == Some(24 * 60 * 60nat),
        c != 's' && c != 'm' && c != 'h' && c != 'd' ==> unit_secs(c) is None,
{
}

/// White space around an interval does not matter; where there is nothing else, there is no
/// interval.
pub proof fn intervals_stand_in_white_space(before: Seq<char>, s: Seq<char>, behind: Seq<char>)
    requires
        forall|i: int| 0 <= i < before.len() ==> is_space(#[trigger] before[i]),
        forall|i: int| 0 <= i < behind.len() ==> is_space(#[trigger] behind[i]),
        s.len() > 0,
        !is_space(s[0]),
        !is_space(s.last()),
    ensures
        interval_secs(before + s + behind) == interval_secs(s),
        interval_secs(before) == Err::<nat, Option<IntError>>(None),
{
    let none = Seq::<char>::empty();
    space_comes_off(before, s, behind);
    space_comes_off(none, s, none);
    assert(none + s + none =~= s);
    spaces_alone_leave_nothing(before);
}

/// A character that is neither a digit nor a unit makes the text unreadable.
pub proof fn other_units_are_refused(n: nat, c: char)
    requires
        n <= u64::MAX,
        !('0' <= c <= '9'),
        !is_space(c),
        unit_secs(c) is None,
    ensures
        interval_secs(dec(n).push(c)) == Err::<nat, Option<IntError>>(
            Some(IntError::InvalidDigit),
        ),
{
    dec_is_ascii(n);
    let s = dec(n).push(c);
    assert('0' <= dec(n)[0] <= '9');
    assert(s[0] == dec(n)[0]);
    let none = Seq::<char>::empty();
    space_comes_off(none, s, none);
    assert(none + s + none =~= s);
    other_digits_are_refused(n, c, u64::MAX as nat);
}

// ── Names with dates ──

/// What a character behind a percent sign stands for at the local time `t`, in seconds from the
/// start of 1970.
pub open spec fn expansion(c: char, t: int) -> Seq<char> {
    let date = date_of(t / 86400);
    let secs = t % 86400;
    if c == 'Y' {
        dec_padded(date.0, 4)
    } else if c == 'm' {
        dec_padded(date.1, 2)
    } else if c == 'd' {
        dec_padded(date.2, 2)
    } else if c == 'H' {
        dec_padded(secs / 3600, 2)
    } else if c == 'M' {
        dec_padded(secs / 60 % 60, 2)
    } else if c == 'S' {
        dec_padded(secs % 60, 2)
    } else if c == '%' {
        seq!['%']
    } else {
        seq!['%', c]
    }
}

/// A pattern with its date fields filled in.
pub open spec fn expanded(pattern: Seq<char>, t: int) -> Seq<char>
    decreases pattern.len(),
{
    if pattern.len() == 0 {
        Seq::empty()
    } else if pattern[0] != '%' {
        seq![pattern[0]] + expanded(pattern.skip(1), t)
    } else if pattern.len() == 1 {
        seq!['%']
    } else {
        expansion(pattern[1], t) + expanded(pattern.skip(2), t)
    }
}

/// The local time at a moment.
pub open spec fn local_time(epoch_secs: u64, tz_offset_secs: i64) -> int {
    (epoch_secs as i64) + tz_offset_secs
}

/// Whether the local time at a moment can be held.
pub open spec fn time_fits(epoch_secs: u64, tz_offset_secs: i64) -> bool {
    i64::MIN <= local_time(epoch_secs, tz_offset_secs) <= i64::MAX
}

/// Decides [`time_fits`].
pub fn local_time_fits(epoch_secs: u64, tz_offset_secs: i64) -> (r: bool)
    ensures
        r == time_fits(epoch_secs, tz_offset_secs),
{
    (#[verifier::truncate] (epoch_secs as i64)).checked_add(tz_offset_secs).is_some()
}

/// Fills the fields `%Y %m %d %H %M %S` of a pattern in with the local time, and `%%` with a
/// percent sign.
pub fn format_log_path(pattern: &str, epoch_secs: u64, tz_offset_secs: i64) -> (r: String)
    requires
        time_fits(epoch_secs, tz_offset_secs),
    ensures
        r@ == expanded(pattern@, local_time(epoch_secs, tz_offset_secs)),
{
    let t: i64 = (#[verifier::truncate] (epoch_secs as i64)) + tz_offset_secs;
    let day: i64 = t.checked_div_euclid(86400).unwrap();
    let secs: i64 = t.checked_rem_euclid(86400).unwrap();
    let (year, month, mday) = civil_from_days(day);
    let chars = chars_of(pattern);
    let mut out = String::new();
    let mut i: usize = 0;
    assert(chars@.skip(0) =~= chars@);
    while i < chars.len()
        invariant
            i <= chars@.len(),
            chars@ == pattern@,
            t == local_time(epoch_secs, tz_offset_secs),
            0 <= secs < 86400,
            secs == t as int % 86400,
            (year as int, month as int, mday as int) == date_of(t as int / 86400),
            expanded(pattern@, t as int) == out@ + expanded(chars@.skip(i as int), t as int),
        decreases chars@.len() - i,
    {
        let ghost rest = chars@.skip(i as int);
        let ghost before = out@;
        let c: char = chars[i];
        assert(rest.skip(1) =~= chars@.skip(i + 1));
        if c != '%' {
            out.push(c);
            assert(before + (seq![c] + expanded(rest.skip(1), t as int)) =~= out@ + expanded(
                rest.skip(1),
                t as int,
            ));
            i = i + 1;
        } else if i + 1 == chars.len() {
            out.push('%');
            assert(before + seq!['%'] =~= out@ + expanded(chars@.skip(i + 1), t as int));
            i = i + 1;
        } else {
            assert(rest.skip(2) =~= chars@.skip(i + 2));
            let f: char = chars[i + 1];
            if f == 'Y' {
                out.append(decimal_padded(year, 4).as_str());
            } else if f == 'm' {
                out.append(decimal_padded(month as i64, 2).as_str());
            } else if f == 'd' {
                out.append(decimal_padded(mday as i64, 2).as_str());
            } else if f == 'H' {
                out.append(decimal_padded(secs / 3600, 2).as_str());
            } else if f == 'M' {
                out.append(decimal_padded((secs / 60) % 60, 2).as_str());
            } else if f == 'S' {
                out.append(decimal_padded(secs % 60, 2).as_str());
            } else if f == '%' {
                out.push('%');
                assert(out@ =~= before + seq!['%']);
            } else {
                out.push('%');
                out.push(f);
                assert(out@ =~= before + seq!['%', f]);
            }
            assert(out@ == before + expansion(f, t as int));
            assert(before + (expansion(f, t as int) + expanded(rest.skip(2), t as int)) =~= out@
                + expanded(rest.skip(2), t as int));
            i = i + 2;
        }
    }
    assert(out@ + Seq::<char>::empty() =~= out@);
    out
}

/// Whether the file name of a log has date fields.
pub open spec fn has_fields(file: Seq<char>) -> bool {
    exists|i: int| 0 <= i < file.len() && file[i] == '%'
}

/// A pattern starts with what stands before its first field.
proof fn plain_start(a: Seq<char>, rest: Seq<char>, t: int)
    requires
        !has_fields(a),
    ensures
        expanded(a + rest, t) == a + expanded(rest, t),
    decreases a.len(),
{
    let whole = a + rest;
    if a.len() == 0 {
        assert(whole =~= rest);
        assert(a + expanded(rest, t) =~= expanded(rest, t));
    } else {
        assert(a[0] != '%');
        assert(!has_fields(a.skip(1))) by {
            if has_fields(a.skip(1)) {
                let i = choose|i: int| 0 <= i < a.skip(1).len() && a.skip(1)[i] == '%';
                assert(a[i + 1] == '%');
            }
        }
        plain_start(a.skip(1), rest, t);
        assert(whole.skip(1) =~= a.skip(1) + rest);
        assert(seq![a[0]] + (a.skip(1) + expanded(rest, t)) =~= a + expanded(rest, t));
    }
}

/// A file name without date fields is taken as it is.
pub proof fn plain_names_stay(pattern: Seq<char>, t: int)
    requires
        !has_fields(pattern),
    ensures
        expanded(pattern, t) == pattern,
{
    plain_start(pattern, Seq::empty(), t);
    assert(pattern + Seq::<char>::empty() =~= pattern);
}

/// Whether the fields of a pattern speak of the date alone.
pub open spec fn date_only(pattern: Seq<char>) -> bool
    decreases pattern.len(),
{
    if pattern.len() == 0 {
        true
    } else if pattern[0] != '%' {
        date_only(pattern.skip(1))
    } else if pattern.len() == 1 {
        true
    } else {
        pattern[1] != 'H' && pattern[1] != 'M' && pattern[1] != 'S' && date_only(pattern.skip(2))
    }
}

/// A pattern whose fields speak of the date alone gives one name for a whole local day.
pub proof fn one_name_a_day(pattern: Seq<char>, t: int, u: int)
    requires
        date_only(pattern),
        t / 86400 == u / 86400,
    ensures
        expanded(pattern, t) == expanded(pattern, u),
    decreases pattern.len(),
{
    if pattern.len() > 0 {
        if pattern[0] != '%' {
            one_name_a_day(pattern.skip(1), t, u);
        } else if pattern.len() > 1 {
            one_name_a_day(pattern.skip(2), t, u);
        }
    }
}

/// A pattern with year, month and day, such as `meter_%Y-%m-%d.jsonl`, gives another name on
/// every local day.
pub proof fn new_name_each_day(before: Seq<char>, behind: Seq<char>, t: int, u: int)
    requires
        !has_fields(before),
        !has_fields(behind),
        t / 86400 != u / 86400,
    ensures
        expanded(before + "%Y-%m-%d"@ + behind, t) != expanded(before + "%Y-%m-%d"@ + behind, u),
{
    let pattern = before + "%Y-%m-%d"@ + behind;
    let x = expanded(pattern, t);
    let y = expanded(pattern, u);
    expanded_date(before, behind, t);
    expanded_date(before, behind, u);
    let (y1, m1, d1) = date_of(t / 86400);
    let (y2, m2, d2) = date_of(u / 86400);
    every_number_has_a_date(t / 86400);
    every_number_has_a_date(u / 86400);
    let n = before.len() as int;
    padded_to_width(m1, 2);
    padded_to_width(m2, 2);
    padded_to_width(d1, 2);
    padded_to_width(d2, 2);
    let w1 = dec_padded(y1, 4).len() as int;
    let w2 = dec_padded(y2, 4).len() as int;
    assert(x.len() == n + w1 + 6 + behind.len());
    assert(y.len() == n + w2 + 6 + behind.len());
    if x == y {
        assert(w1 == w2);
        assert(x.subrange(n, n + w1) =~= dec_padded(y1, 4));
        assert(y.subrange(n, n + w1) =~= dec_padded(y2, 4));
        assert(x.subrange(n + w1 + 1, n + w1 + 3) =~= dec_padded(m1, 2));
        assert(y.subrange(n + w1 + 1, n + w1 + 3) =~= dec_padded(m2, 2));
        assert(x.subrange(n + w1 + 4, n + w1 + 6) =~= dec_padded(d1, 2));
        assert(y.subrange(n + w1 + 4, n + w1 + 6) =~= dec_padded(d2, 2));
        padded_numbers_differ(y1, y2, 4);
        padded_numbers_differ(m1, m2, 2);
        padded_numbers_differ(d1, d2, 2);
    }
}

/// What a name with year, month and day looks like.
proof fn expanded_date(before: Seq<char>, behind: Seq<char>, t: int)
    requires
        !has_fields(before),
        !has_fields(behind),
    ensures
        ({
            let (y, m, d) = date_of(t / 86400);
            expanded(before + "%Y-%m-%d"@ + behind, t) == before + dec_padded(y, 4) + seq!['-']
                + dec_padded(m, 2) + seq!['-'] + dec_padded(d, 2) + behind
        }),
{
    reveal_strlit("%Y-%m-%d");
    let (y, m, d) = date_of(t / 86400);
    let p3 = field('d') + behind;
    let p2 = field('m') + (seq!['-'] + p3);
    let p1 = field('Y') + (seq!['-'] + p2);
    assert(before + "%Y-%m-%d"@ + behind =~= before + p1);
    plain_start(before, p1, t);
    field_first('Y', seq!['-'] + p2, t);
    plain_start(seq!['-'], p2, t);
    field_first('m', seq!['-'] + p3, t);
    plain_start(seq!['-'], p3, t);
    field_first('d', behind, t);
    plain_names_stay(behind, t);
    assert(before + expanded(p1, t) =~= before + dec_padded(y, 4) + seq!['-'] + dec_padded(m, 2)
        + seq!['-'] + dec_padded(d, 2) + behind);
}

/// A field as it stands in a pattern.
spec fn field(c: char) -> Seq<char> {
    seq!['%', c]
}

/// A pattern that starts with a field starts with what the field stands for.
proof fn field_first(c: char, rest: Seq<char>, t: int)
    ensures
        expanded(field(c) + rest, t) == expansion(c, t) + expanded(rest, t),
{
    assert((field(c) + rest).skip(2) =~= rest);
}

/// A pattern that starts with a percent sign and another character starts with what these stand
/// for: two percent signs for one, a character that names no field for itself behind its percent
/// sign. A percent sign at the end stands for itself, and so does every other character.
pub proof fn patterns_are_filled_in(c: char, rest: Seq<char>, t: int)
    ensures
        expanded(seq!['%', c] + rest, t) == expansion(c, t) + expanded(rest, t),
        expansion('%', t) == seq!['%'],
        c != 'Y' && c != 'm' && c != 'd' && c != 'H' && c != 'M' && c != 'S' && c != '%'
            ==> expansion(c, t) == seq!['%', c],
        c != '%' ==> expanded(seq![c] + rest, t) == seq![c] + expanded(rest, t),
        expanded(seq!['%'], t) == seq!['%'],
        expanded(Seq::empty(), t) == Seq::<char>::empty(),
{
    field_first(c, rest, t);
    assert((seq![c] + rest).skip(1) =~= rest);
}

/// Hour, minute and second are written in two digits each, and make up the time of the day.
pub proof fn times_of_day_are_written(t: int)
    ensures
        ({
            let (h, m, s) = (expansion('H', t), expansion('M', t), expansion('S', t));
            &&& all_digits(h) && all_digits(m) && all_digits(s)
            &&& h.len() == 2 && m.len() == 2 && s.len() == 2
            &&& digits_value(h) < 24 && digits_value(m) < 60 && digits_value(s) < 60
            &&& digits_value(h) * 3600 + digits_value(m) * 60 + digits_value(s) == t % 86400
        }),
{
    let secs = t % 86400;
    padded_to_width(secs / 3600, 2);
    padded_to_width(secs / 60 % 60, 2);
    padded_to_width(secs % 60, 2);
}

/// In the years from 1970 to 9999 the year is written in four digits, month and day in two each,
/// and they are the date whose number is that of the day.
pub proof fn dates_are_written(t: int)
    requires
        0 <= t < 253402300800,
    ensures
        ({
            let (y, m, d) = (expansion('Y', t), expansion('m', t), expansion('d', t));
            &&& all_digits(y) && all_digits(m) && all_digits(d)
            &&& y.len() == 4 && m.len() == 2 && d.len() == 2
            &&& valid_date(digits_value(y), digits_value(m), digits_value(d))
            &&& day_number(digits_value(y), digits_value(m), digits_value(d)) == t / 86400
        }),
{
    let (y, m, d) = date_of(t / 86400);
    every_number_has_a_date(t / 86400);
    years_of_four_digits(t / 86400);
    padded_to_width(y, 4);
    padded_to_width(m, 2);
    padded_to_width(d, 2);
}

/// The date of any day is written with its year in at least four characters.
pub proof fn dates_of_any_year_are_written(t: int)
    ensures
        ({
            let (m, d) = (digits_value(expansion('m', t)), digits_value(expansion('d', t)));
            &&& expansion('m', t).len() == 2 && all_digits(expansion('m', t))
            &&& expansion('d', t).len() == 2 && all_digits(expansion('d', t))
            &&& exists|y: int| #[trigger]
                valid_date(y, m, d) && day_number(y, m, d) == t / 86400 && expansion('Y', t)
                    == dec_padded(y, 4)
        }),
{
    let (y, m, d) = date_of(t / 86400);
    every_number_has_a_date(t / 86400);
    padded_to_width(m, 2);
    padded_to_width(d, 2);
    let (mm, dd) = (digits_value(expansion('m', t)), digits_value(expansion('d', t)));
    assert(mm == m && dd == d);
    assert(valid_date(y, mm, dd));
}

/// The local time is the time plus the offset.
pub proof fn offsets_are_added(epoch_secs: u64, tz_offset_secs: i64)
    requires
        epoch_secs <= i64::MAX,
    ensures
        local_time(epoch_secs, tz_offset_secs) == epoch_secs + tz_offset_secs,
        time_fits(epoch_secs, tz_offset_secs) <==> epoch_secs + tz_offset_secs <= i64::MAX,
{
}

/// The local time in digits: year, month, day, hour, minute and second.
pub open spec fn stamp(t: int) -> Seq<char> {
    expansion('Y', t) + expansion('m', t) + expansion('d', t) + expansion('H', t) + expansion(
        'M',
        t,
    ) + expansion('S', t)
}

/// Six parts between two others, put together from the front or from the back.
proof fn joined_in_turn(
    before: Seq<char>,
    a: Seq<char>,
    b: Seq<char>,
    c: Seq<char>,
    d: Seq<char>,
    e: Seq<char>,
    f: Seq<char>,
    behind: Seq<char>,
)
    ensures
        before + (a + (b + (c + (d + (e + (f + behind)))))) == before + (a + b + c + d + e + f)
            + behind,
{
    let tail = e + (f + behind);
    assert(a + (b + (c + (d + tail))) =~= a + b + c + d + tail);
    assert(a + b + c + d + tail =~= a + b + c + d + e + f + behind);
    assert(before + (a + b + c + d + e + f + behind) =~= before + (a + b + c + d + e + f) + behind);
}

/// The pattern `%Y%m%d%H%M%S` is made of six fields.
proof fn stamp_fields()
    ensures
        "%Y%m%d%H%M%S"@ == field('Y') + field('m') + field('d') + field('H') + field('M') + field(
            'S',
        ),
{
    reveal_strlit("%Y%m%d%H%M%S");
}

/// The pattern `%Y%m%d%H%M%S` stands for the local time in digits.
pub proof fn stamped_names(before: Seq<char>, behind: Seq<char>, t: int)
    requires
        !has_fields(before),
        !has_fields(behind),
    ensures
        expanded(before + "%Y%m%d%H%M%S"@ + behind, t) == before + stamp(t) + behind,
{
    let p6 = field('S') + behind;
    let p5 = field('M') + p6;
    let p4 = field('H') + p5;
    let p3 = field('d') + p4;
    let p2 = field('m') + p3;
    let p1 = field('Y') + p2;
    stamp_fields();
    joined_in_turn(
        before,
        field('Y'),
        field('m'),
        field('d'),
        field('H'),
        field('M'),
        field('S'),
        behind,
    );
    plain_start(before, p1, t);
    field_first('Y', p2, t);
    field_first('m', p3, t);
    field_first('d', p4, t);
    field_first('H', p5, t);
    field_first('M', p6, t);
    field_first('S', behind, t);
    plain_names_stay(behind, t);
    joined_in_turn(
        before,
        expansion('Y', t),
        expansion('m', t),
        expansion('d', t),
        expansion('H', t),
        expansion('M', t),
        expansion('S', t),
        behind,
    );
}

/// The number that the digits of hour, minute and second stand for.
spec fn clock_value(secs: int) -> int {
    secs / 3600 * 10000 + secs / 60 % 60 * 100 + secs % 60
}

/// The number that the digits of a local time stand for.
spec fn stamp_value(t: int) -> int {
    let (y, m, d) = date_of(t / 86400);
    (y * 10000 + m * 100 + d) * 1000000 + clock_value(t % 86400)
}

/// The number of hour, minute and second grows through the day, within six digits.
proof fn clock_values_rise(a: int, b: int)
    requires
        0 <= a <= b < 86400,
    ensures
        0 <= clock_value(a) <= clock_value(b) < 1000000,
        a < b ==> clock_value(a) < clock_value(b),
{
    let (h1, h2) = (a / 3600, b / 3600);
    let (m1, m2) = (a / 60 % 60, b / 60 % 60);
    let (s1, s2) = (a % 60, b % 60);
    assert(a == h1 * 3600 + m1 * 60 + s1);
    assert(b == h2 * 3600 + m2 * 60 + s2);
    assert(0 <= h1 < 24 && 0 <= h2 < 24);
}

/// The number of a local time grows with the time.
proof fn stamp_values_rise(t: int, u: int)
    requires
        t < u,
    ensures
        stamp_value(t) < stamp_value(u),
{
    let (a, b) = (t % 86400, u % 86400);
    if t / 86400 == u / 86400 {
        clock_values_rise(a, b);
    } else {
        every_number_has_a_date(t / 86400);
        every_number_has_a_date(u / 86400);
        let (y1, m1, d1) = date_of(t / 86400);
        let (y2, m2, d2) = date_of(u / 86400);
        numbers_follow_the_dates(y1, m1, d1, y2, m2, d2);
        clock_values_rise(a, a);
        clock_values_rise(b, b);
        assert(y1 * 10000 + m1 * 100 + d1 < y2 * 10000 + m2 * 100 + d2);
    }
}

proof fn stamp_digits(t: int)
    requires
        0 <= t < 253402300800,
    ensures
        stamp(t).len() == 14,
        all_digits(stamp(t)),
        digits_value(stamp(t)) == stamp_value(t),
{
    let (y, m, d) = date_of(t / 86400);
    let secs = t % 86400;
    every_number_has_a_date(t / 86400);
    years_of_four_digits(t / 86400);
    padded_to_width(y, 4);
    padded_to_width(m, 2);
    padded_to_width(d, 2);
    padded_to_width(secs / 3600, 2);
    padded_to_width(secs / 60 % 60, 2);
    padded_to_width(secs % 60, 2);
    let s1 = expansion('Y', t);
    let s2 = s1 + expansion('m', t);
    let s3 = s2 + expansion('d', t);
    let s4 = s3 + expansion('H', t);
    let s5 = s4 + expansion('M', t);
    two_more_digits(s1, expansion('m', t));
    two_more_digits(s2, expansion('d', t));
    two_more_digits(s3, expansion('H', t));
    two_more_digits(s4, expansion('M', t));
    two_more_digits(s5, expansion('S', t));
}

/// In the years from 1970 to 9999 the pattern `%Y%m%d%H%M%S` stands for fourteen digits.
pub proof fn stamps_are_fourteen_digits(t: int)
    requires
        0 <= t < 253402300800,
    ensures
        expanded("%Y%m%d%H%M%S"@, t).len() == 14,
        all_digits(expanded("%Y%m%d%H%M%S"@, t)),
{
    let none = Seq::<char>::empty();
    stamped_names(none, none, t);
    stamp_digits(t);
    assert(none + "%Y%m%d%H%M%S"@ + none =~= "%Y%m%d%H%M%S"@);
    assert(none + stamp(t) + none =~= stamp(t));
}

/// Names that a pattern with `%Y%m%d%H%M%S` gives in the years from 1970 to 9999 stand in the
/// order of their times: the later name is the larger one.
pub proof fn names_sort_by_time(before: Seq<char>, behind: Seq<char>, t: int, u: int)
    requires
        !has_fields(before),
        !has_fields(behind),
        0 <= t < u < 253402300800,
    ensures
        sorts_before(
            expanded(before + "%Y%m%d%H%M%S"@ + behind, t),
            expanded(before + "%Y%m%d%H%M%S"@ + behind, u),
        ),
{
    stamp_values_rise(t, u);
    stamp_digits(t);
    stamp_digits(u);
    digits_sort_by_value(stamp(t), stamp(u));
    order_is_kept(before, stamp(t), stamp(u), behind);
    stamped_names(before, behind, t);
    stamped_names(before, behind, u);
}

// ── The offset from UTC ──

/// The value of a byte as a decimal digit.
pub open spec fn digit(b: u8) -> Option<int> {
    if 0x30 <= b <= 0x39 {
        Some(b - 0x30)
    } else {
        None
    }
}

/// The number that two bytes stand for: two digits, or a digit with a sign.
pub open spec fn two_digits(a: u8, b: u8) -> Option<int> {
    match digit(b) {
        None => None,
        Some(low) => if a == 0x2b {
            Some(low)
        } else if a == 0x2d {
            Some(-low)
        } else {
            match digit(a) {
                Some(high) => Some(high * 10 + low),
                None => None,
            }
        },
    }
}

/// Whether a text of five bytes falls into a sign, hours and minutes between characters.
pub open spec fn in_fields(b: Seq<u8>) -> bool {
    b.len() == 5 ==> vstd::utf8::is_char_boundary(b, 1) && vstd::utf8::is_char_boundary(b, 3)
}

/// The fields of a text of ASCII characters can always be cut out.
pub proof fn ascii_falls_into_fields(text: Seq<char>)
    requires
        vstd::utf8::is_ascii_chars(text),
    ensures
        in_fields(vstd::utf8::encode_utf8(text)),
{
    let b = vstd::utf8::encode_utf8(text);
    vstd::utf8::is_ascii_chars_encode_utf8(text);
    vstd::utf8::encode_utf8_valid_utf8(text);
    if b.len() == 5 {
        vstd::utf8::is_char_boundary_iff_not_is_continuation_byte(b, 1);
        vstd::utf8::is_char_boundary_iff_not_is_continuation_byte(b, 3);
    }
}

/// The offset in seconds that a text such as `+0300` stands for; zero for other texts.
pub open spec fn offset_of(b: Seq<u8>) -> int {
    if b.len() != 5 {
        0
    } else {
        match (two_digits(b[1], b[2]), two_digits(b[3], b[4])) {
            (Some(h), Some(m)) => if b[0] == 0x2d {
                -(h * 3600 + m * 60)
            } else {
                h * 3600 + m * 60
            },
            _ => 0,
        }
    }
}

/// An offset of hours and minutes reads as written, with the sign that stands before it.
pub proof fn offsets_read_as_written(sign: u8, h: int, m: int)
    requires
        sign == 0x2b || sign == 0x2d,
        0 <= h < 100,
        0 <= m < 100,
    ensures
        offset_of(
            seq![
                sign,
                (h / 10 + 0x30) as u8,
                (h % 10 + 0x30) as u8,
                (m / 10 + 0x30) as u8,
                (m % 10 + 0x30) as u8,
            ],
        ) == (if sign == 0x2d {
            -(h * 3600 + m * 60)
        } else {
            h * 3600 + m * 60
        }),
{
}

/// A text of another length stands for no offset, and neither does one whose hours or minutes do
/// not end with a digit.
pub proof fn other_lengths_are_no_offset(b: Seq<u8>)
    requires
        b.len() != 5 || !(0x30 <= b[2] <= 0x39) || !(0x30 <= b[4] <= 0x39),
    ensures
        offset_of(b) == 0,
{
}

/// The bytes of a text without the white space around it.
pub open spec fn trimmed_bytes(text: Seq<char>) -> Seq<u8> {
    vstd::utf8::encode_utf8(trimmed(text))
}

fn read_two_digits(a: u8, b: u8) -> (r: Option<i64>)
    ensures
        match two_digits(a, b) {
            Some(n) => r matches Some(v) && v == n && -9 <= v <= 99,
            None => r is None,
        },
{
    if b < 0x30 || b > 0x39 {
        return None;
    }
    let low: i64 = (b - 0x30) as i64;
    if a == 0x2b {
        Some(low)
    } else if a == 0x2d {
        Some(-low)
    } else if 0x30 <= a && a <= 0x39 {
        Some((a - 0x30) as i64 * 10 + low)
    } else {
        None
    }
}

/// Reads what `date +%z` prints; nothing where its fields cannot be cut out.
pub fn checked_utc_offset_secs(out: &str) -> (r: Option<i64>)
    ensures
        r is Some <==> in_fields(trimmed_bytes(out@)),
        r matches Some(secs) ==> secs == offset_of(trimmed_bytes(out@)),
{
    let chars = chars_of(out);
    let text = text_of(trim_chars(chars.as_slice()).as_slice());
    let s = text.as_str().as_bytes();
    if s.len() != 5 {
        return Some(0);
    }
    let hours: u8 = s[1];
    let minutes: u8 = s[3];
    proof {
        vstd::utf8::encode_utf8_valid_utf8(text@);
        vstd::utf8::is_char_boundary_iff_not_is_continuation_byte(s@, 1);
        vstd::utf8::is_char_boundary_iff_not_is_continuation_byte(s@, 3);
    }
    if (hours >= 0x80 && hours < 0xc0) || (minutes >= 0x80 && minutes < 0xc0) {
        return None;
    }
    match (read_two_digits(hours, s[2]), read_two_digits(minutes, s[4])) {
        (Some(h), Some(m)) => if s[0] == 0x2d {
            Some(-(h * 3600 + m * 60))
        } else {
            Some(h * 3600 + m * 60)
        },
        _ => Some(0),
    }
}

/// The local offset from UTC, from what `date +%z` prints.
pub fn local_utc_offset_secs(out: &str) -> (r: i64)
    requires
        in_fields(trimmed_bytes(out@)),
    ensures
        r == offset_of(trimmed_bytes(out@)),
{
    checked_utc_offset_secs(out).unwrap()
}

} // verus!
