//! The due-date input: its grammar (`YYYY-MM-DD` or `YYYY-MM-DD HH:MM`, blank or
//! `未定` for none), how a due date is written back, and the date questions that
//! views ask of it.
use vstd::prelude::*;
use vstd::string::StringExecFns;

use crate::calendar::{
    CivilDate, Timestamp, UtcOffset, clock_at, date_at, date_of_day, days_in_month_of, instant_at,
    instant_of_local, is_valid_date, lemma_days_injective, local_day, local_seconds, MAX_INSTANT_NANOS,
    MIN_INSTANT_NANOS, NANOS_PER_SECOND, SECONDS_PER_DAY,
};
use crate::task::Due;
use crate::text::{
    all_digits, append_chars, chars_of, digits_value, lemma_digits_value_range, pow10, digits_value_upto, padded_decimal,
    padded_decimal_chars, same_text, string_of, trim_chars, trimmed,
};

verus! {

/// The message given for a due input that follows neither accepted form.
pub open spec fn due_format_error() -> Seq<char> {
    "納期は YYYY-MM-DD または YYYY-MM-DD HH:MM で入力してください"@
}

/// The message given for a time choice that is not `HH:MM`.
pub open spec fn time_format_error() -> Seq<char> {
    "時刻は HH:MM 形式で指定してください"@
}

/// The message given for a time choice while the due input holds no date.
pub open spec fn time_without_date_error() -> Seq<char> {
    "時刻を選ぶ前に日付を指定してください"@
}

/// The word that stands for "no due date".
pub open spec fn undecided_word() -> Seq<char> {
    "未定"@
}

/// Width of the optional leading sign of a year: 1 for `+` or `-`, else 0.
pub open spec fn sign_width(s: Seq<char>) -> int {
    if s.len() > 0 && (s[0] == '+' || s[0] == '-') {
        1
    } else {
        0
    }
}

/// `s[w..w + 10]` has the shape `DDDD-DD-DD`.
pub open spec fn date_shape(s: Seq<char>, w: int) -> bool {
    &&& 0 <= w
    &&& w + 10 <= s.len()
    &&& all_digits(s.subrange(w, w + 4))
    &&& s[w + 4] == '-'
    &&& all_digits(s.subrange(w + 5, w + 7))
    &&& s[w + 7] == '-'
    &&& all_digits(s.subrange(w + 8, w + 10))
}

/// The year written at `s[w..w + 4]`, negated when the text starts with `-`.
pub open spec fn year_field(s: Seq<char>, w: int) -> int {
    let y = digits_value(s.subrange(w, w + 4));
    if w == 1 && s[0] == '-' {
        -y
    } else {
        y
    }
}

/// The date written at `s[w..w + 10]`, when it has the date shape and is a valid date.
pub open spec fn date_at_width(s: Seq<char>, w: int) -> Option<CivilDate> {
    if date_shape(s, w) && is_valid_date(
        year_field(s, w),
        digits_value(s.subrange(w + 5, w + 7)),
        digits_value(s.subrange(w + 8, w + 10)),
    ) {
        Some(
            CivilDate {
                year: year_field(s, w) as i32,
                month: digits_value(s.subrange(w + 5, w + 7)) as u8,
                day: digits_value(s.subrange(w + 8, w + 10)) as u8,
            },
        )
    } else {
        None
    }
}

/// The hour and minute written at `s[at..at + 5]` as `HH:MM`, when in range.
pub open spec fn clock_at_width(s: Seq<char>, at: int) -> Option<(u8, u8)> {
    if 0 <= at && at + 5 <= s.len() && all_digits(s.subrange(at, at + 2)) && s[at + 2] == ':'
        && all_digits(s.subrange(at + 3, at + 5)) && digits_value(s.subrange(at, at + 2)) < 24
        && digits_value(s.subrange(at + 3, at + 5)) < 60 {
        Some(
            (
                digits_value(s.subrange(at, at + 2)) as u8,
                digits_value(s.subrange(at + 3, at + 5)) as u8,
            ),
        )
    } else {
        None
    }
}

/// `[year]-[month]-[day]`: an optional sign, four year digits, two month digits
/// and two day digits forming a valid date.
pub open spec fn parsed_date(s: Seq<char>) -> Option<CivilDate> {
    if s.len() == sign_width(s) + 10 {
        date_at_width(s, sign_width(s))
    } else {
        None
    }
}

/// `[hour]:[minute]`: two hour digits below 24 and two minute digits below 60.
pub open spec fn parsed_clock(s: Seq<char>) -> Option<(u8, u8)> {
    if s.len() == 5 {
        clock_at_width(s, 0)
    } else {
        None
    }
}

/// `[year]-[month]-[day] [hour]:[minute]`.
pub open spec fn parsed_date_time(s: Seq<char>) -> Option<(CivilDate, u8, u8)> {
    let w = sign_width(s);
    if s.len() == w + 16 && s[w + 10] == ' ' {
        match (date_at_width(s, w), clock_at_width(s, w + 11)) {
            (Some(d), Some((h, m))) => Some((d, h, m)),
            _ => None,
        }
    } else {
        None
    }
}

/// The due date that the input `value` denotes for a user at `offset`, if any.
pub open spec fn due_of_input(value: Seq<char>, offset: UtcOffset) -> Option<Due> {
    let t = trimmed(value);
    if t.len() == 0 || t == undecided_word() {
        Some(Due::Unset)
    } else if parsed_date(t) is Some {
        Some(Due::Date(parsed_date(t).unwrap()))
    } else {
        match parsed_date_time(t) {
            Some((d, h, m)) => {
                let n = instant_of_local(d, h as int, m as int, offset);
                if MIN_INSTANT_NANOS <= n <= MAX_INSTANT_NANOS {
                    Some(Due::DateTime(Timestamp { nanos: n as i128 }))
                } else {
                    None
                }
            },
            None => None,
        }
    }
}

/// `YYYY-MM-DD`, with a leading `-` for years before year 0 (`Date`'s `Display`).
pub open spec fn date_text(d: CivilDate) -> Seq<char> {
    let y = d.year as int;
    let digits = if y < 0 {
        seq!['-'] + padded_decimal((-y) as nat, 4)
    } else {
        padded_decimal(y as nat, 4)
    };
    digits + seq!['-'] + padded_decimal(d.month as nat, 2) + seq!['-'] + padded_decimal(
        d.day as nat,
        2,
    )
}

/// `HH:MM`.
pub open spec fn clock_text(hour: int, minute: int) -> Seq<char> {
    padded_decimal(hour as nat, 2) + seq![':'] + padded_decimal(minute as nat, 2)
}

/// The local date of an instant at `offset`.
pub open spec fn local_date_of(t: Timestamp, offset: UtcOffset, d: CivilDate) -> bool {
    d.wf() && d.days() == local_day(t, offset)
}

/// The local hour of an instant at `offset`.
pub open spec fn local_hour(t: Timestamp, offset: UtcOffset) -> int {
    (local_seconds(t, offset) % (SECONDS_PER_DAY as int)) / 3600
}

/// The local minute of an instant at `offset`.
pub open spec fn local_minute(t: Timestamp, offset: UtcOffset) -> int {
    (local_seconds(t, offset) % 3600) / 60
}

/// The text written into the due input for `due`: nothing, `YYYY-MM-DD`, or the
/// local `YYYY-MM-DD HH:MM` at `offset`.
pub open spec fn due_input_text(due: Due, offset: UtcOffset, local: CivilDate) -> Seq<char> {
    match due {
        Due::Unset => Seq::empty(),
        Due::Date(d) => date_text(d),
        Due::DateTime(t) => date_text(local) + seq![' '] + clock_text(
            local_hour(t, offset),
            local_minute(t, offset),
        ),
    }
}

/// Value of the digits `s[from..from + len]`.
fn field_value(s: &Vec<char>, from: usize, len: usize) -> (r: Option<u64>)
    requires
        from + len <= s.len(),
        len <= 4,
    ensures
        r is Some <==> all_digits(s@.subrange(from as int, from + len)),
        r matches Some(v) ==> v == digits_value(s@.subrange(from as int, from + len)),
{
    let r = digits_value_upto(s, from, from + len, 9999);
    proof {
        if all_digits(s@.subrange(from as int, from + len)) {
            lemma_digits_value_bound(s@.subrange(from as int, from + len));
        }
    }
    r
}

/// Digits of length at most 4 have a value below 10^length.
proof fn lemma_digits_value_bound(s: Seq<char>)
    requires
        all_digits(s),
        s.len() <= 4,
    ensures
        0 <= digits_value(s) <= 9999,
        s.len() == 2 ==> digits_value(s) <= 99,
{
    lemma_digits_value_range(s);
    assert(pow10(0) == 1);
    assert(pow10(1) == 10);
    assert(pow10(2) == 100);
    assert(pow10(3) == 1000);
    assert(pow10(4) == 10000);
}

/// The date written at `s[w..w + 10]`.
fn read_date(s: &Vec<char>, w: usize) -> (r: Option<CivilDate>)
    requires
        w <= 1,
        w + 10 <= s.len(),
        w == 1 ==> (s@[0] == '+' || s@[0] == '-'),
    ensures
        r == date_at_width(s@, w as int),
{
    if s[w + 4] != '-' || s[w + 7] != '-' {
        return None;
    }
    let y = match field_value(s, w, 4) {
        Some(v) => v,
        None => return None,
    };
    let m = match field_value(s, w + 5, 2) {
        Some(v) => v,
        None => return None,
    };
    let d = match field_value(s, w + 8, 2) {
        Some(v) => v,
        None => return None,
    };
    proof {
        lemma_digits_value_bound(s@.subrange(w as int, w + 4));
        lemma_digits_value_bound(s@.subrange(w + 5, w + 7));
        lemma_digits_value_bound(s@.subrange(w + 8, w + 10));
    }
    let year: i32 = if w == 1 && s[0] == '-' {
        -(y as i32)
    } else {
        y as i32
    };
    assert(year == year_field(s@, w as int));
    CivilDate::new(year, m as u8, d as u8)
}

/// The hour and minute written at `s[at..at + 5]`.
fn read_clock(s: &Vec<char>, at: usize) -> (r: Option<(u8, u8)>)
    requires
        at + 5 <= s.len(),
    ensures
        r == clock_at_width(s@, at as int),
{
    if s[at + 2] != ':' {
        return None;
    }
    let h = match field_value(s, at, 2) {
        Some(v) => v,
        None => return None,
    };
    let m = match field_value(s, at + 3, 2) {
        Some(v) => v,
        None => return None,
    };
    if h >= 24 || m >= 60 {
        return None;
    }
    Some((h as u8, m as u8))
}

fn sign_width_of(s: &Vec<char>) -> (r: usize)
    ensures
        r == sign_width(s@),
{
    if s.len() > 0 && (s[0] == '+' || s[0] == '-') {
        1
    } else {
        0
    }
}

/// Reads `[year]-[month]-[day]`.
pub fn parse_date_chars(s: &Vec<char>) -> (r: Option<CivilDate>)
    ensures
        r == parsed_date(s@),
        r matches Some(d) ==> d.wf(),
{
    let w = sign_width_of(s);
    if s.len() != w + 10 {
        return None;
    }
    read_date(s, w)
}

/// Reads `[hour]:[minute]`.
pub fn parse_clock_chars(s: &Vec<char>) -> (r: Option<(u8, u8)>)
    ensures
        r == parsed_clock(s@),
        r matches Some((h, m)) ==> h < 24 && m < 60,
{
    if s.len() != 5 {
        return None;
    }
    let r = read_clock(s, 0);
    proof {
        if r is Some {
            lemma_digits_value_bound(s@.subrange(0, 2));
            lemma_digits_value_bound(s@.subrange(3, 5));
        }
    }
    r
}

/// Reads `[year]-[month]-[day] [hour]:[minute]`.
pub fn parse_date_time_chars(s: &Vec<char>) -> (r: Option<(CivilDate, u8, u8)>)
    ensures
        r == parsed_date_time(s@),
        r matches Some((d, h, m)) ==> d.wf() && h < 24 && m < 60,
{
    let w = sign_width_of(s);
    if s.len() != w + 16 || s[w + 10] != ' ' {
        return None;
    }
    let d = read_date(s, w);
    let c = read_clock(s, w + 11);
    proof {
        if c is Some {
            lemma_digits_value_bound(s@.subrange(w + 11, w + 13));
            lemma_digits_value_bound(s@.subrange(w + 14, w + 16));
        }
    }
    match (d, c) {
        (Some(d), Some((h, m))) => Some((d, h, m)),
        _ => None,
    }
}

fn is_undecided_word(t: &Vec<char>) -> (r: bool)
    ensures
        r == (t@ == undecided_word()),
{
    let word = String::from_str("未定");
    let s = string_of(t);
    same_text(s.as_str(), word.as_str())
}

/// What reading the due input `value` at `offset` gives: the due date it denotes,
/// or the format message.
pub open spec fn parse_due_result(value: Seq<char>, offset: UtcOffset, r: Result<Due, String>) -> bool {
    &&& r is Ok <==> due_of_input(value, offset) is Some
    &&& r matches Ok(d) ==> due_of_input(value, offset) == Some(d) && d.wf()
    &&& r matches Err(m) ==> m@ == due_format_error()
}

/// Reads the due input `value` for a user at `offset`: blank or `未定` for none,
/// `YYYY-MM-DD` for a date, `YYYY-MM-DD HH:MM` for a local date and time. Leading
/// and trailing white space is ignored.
pub fn parse_due_at(value: &str, offset: &UtcOffset) -> (r: Result<Due, String>)
    requires
        offset.wf(),
    ensures
        parse_due_result(value@, *offset, r),
{
    let chars = chars_of(value);
    let t = trim_chars(&chars);
    if t.len() == 0 || is_undecided_word(&t) {
        return Ok(Due::Unset);
    }
    if let Some(d) = parse_date_chars(&t) {
        return Ok(Due::Date(d));
    }
    if let Some((d, h, m)) = parse_date_time_chars(&t) {
        if let Some(ts) = instant_at(&d, h, m, offset) {
            return Ok(Due::DateTime(ts));
        }
    }
    Err(String::from_str("納期は YYYY-MM-DD または YYYY-MM-DD HH:MM で入力してください"))
}

/// Reads the due input `value` at the system's current offset from UTC.
pub fn parse_due(value: &str) -> (r: Result<Due, String>)
    ensures
        exists|offset: UtcOffset| offset.wf() && parse_due_result(value@, offset, r),
{
    let offset = UtcOffset::current_local();
    parse_due_at(value, &offset)
}

/// The characters of `date_text(d)`.
pub fn date_text_chars(d: &CivilDate) -> (r: Vec<char>)
    requires
        d.wf(),
    ensures
        r@ == date_text(*d),
{
    let mut out: Vec<char> = Vec::new();
    let y: i32 = d.year;
    let digits: Vec<char> = if y < 0 {
        out.push('-');
        let a: u64 = (-(y as i64)) as u64;
        padded_decimal_chars(a, 4)
    } else {
        padded_decimal_chars(y as u64, 4)
    };
    let mut s = string_of(&out);
    append_chars(&mut s, &digits);
    let mut tail: Vec<char> = Vec::new();
    tail.push('-');
    let mm = padded_decimal_chars(d.month as u64, 2);
    let dd = padded_decimal_chars(d.day as u64, 2);
    append_chars(&mut s, &tail);
    append_chars(&mut s, &mm);
    append_chars(&mut s, &tail);
    append_chars(&mut s, &dd);
    let r = chars_of(s.as_str());
    proof {
        if y < 0 {
            assert(seq!['-'] + padded_decimal((-y) as nat, 4) == out@ + digits@);
        } else {
            assert(out@ =~= Seq::<char>::empty());
        }
        assert(r@ =~= date_text(*d));
    }
    r
}

/// `date.to_string()`: `YYYY-MM-DD`.
pub fn date_text_string(d: &CivilDate) -> (r: String)
    requires
        d.wf(),
    ensures
        r@ == date_text(*d),
{
    let c = date_text_chars(d);
    string_of(&c)
}

/// The characters of `clock_text(hour, minute)`.
pub fn clock_text_chars(hour: u8, minute: u8) -> (r: Vec<char>)
    ensures
        r@ == clock_text(hour as int, minute as int),
{
    let h = padded_decimal_chars(hour as u64, 2);
    let m = padded_decimal_chars(minute as u64, 2);
    let mut s = string_of(&h);
    let mut sep: Vec<char> = Vec::new();
    sep.push(':');
    append_chars(&mut s, &sep);
    append_chars(&mut s, &m);
    let r = chars_of(s.as_str());
    assert(r@ =~= clock_text(hour as int, minute as int));
    r
}

/// `s` is the due-input text of `due` at `offset`.
pub open spec fn due_input_formatted(due: Due, offset: UtcOffset, s: Seq<char>) -> bool {
    match due {
        Due::Unset => s == Seq::<char>::empty(),
        Due::Date(d) => s == date_text(d),
        Due::DateTime(t) => exists|local: CivilDate|
            local_date_of(t, offset, local) && s == due_input_text(due, offset, local),
    }
}

/// The text of the due input for `due` at `offset`: nothing, `YYYY-MM-DD`, or the
/// local `YYYY-MM-DD HH:MM` of a due instant.
pub open spec fn due_input_value(due: Due, offset: UtcOffset) -> Seq<char> {
    match due {
        Due::DateTime(t) => due_input_text(due, offset, date_of_day(local_day(t, offset))),
        _ => due_input_text(due, offset, CivilDate { year: 1970, month: 1, day: 1 }),
    }
}

/// The text written into the due input for `due`, for a user at `offset`.
pub fn format_due_input_at(due: &Due, offset: &UtcOffset) -> (r: String)
    requires
        due.wf(),
        offset.wf(),
    ensures
        due_input_formatted(*due, *offset, r@),
        r@ == due_input_value(*due, *offset),
        crate::roundtrip::shown_exactly(*due, *offset) ==> due_of_input(r@, *offset) == Some(*due),
{
    match due {
        Due::Unset => {
            proof {
                crate::roundtrip::lemma_due_input_round_trip(*due, *offset, CivilDate { year: 1970, month: 1, day: 1 });
            }
            String::new()
        },
        Due::Date(d) => {
            proof {
                crate::roundtrip::lemma_due_input_round_trip(*due, *offset, CivilDate { year: 1970, month: 1, day: 1 });
            }
            date_text_string(d)
        },
        Due::DateTime(t) => {
            let local = date_at(t, offset);
            proof {
                if crate::roundtrip::shown_exactly(*due, *offset) {
                    crate::roundtrip::lemma_due_input_round_trip(*due, *offset, local);
                }
            }
            let (h, m) = clock_at(t, offset);
            let mut s = date_text_string(&local);
            let mut sep: Vec<char> = Vec::new();
            sep.push(' ');
            append_chars(&mut s, &sep);
            let c = clock_text_chars(h, m);
            append_chars(&mut s, &c);
            assert(local_date_of(*t, *offset, local));
            assert(s@ =~= due_input_text(*due, *offset, local));
            s
        },
    }
}

/// The text written into the due input for `due`, at the system's current offset.
pub fn format_due_input(due: &Due) -> (r: String)
    requires
        due.wf(),
    ensures
        exists|offset: UtcOffset| offset.wf() && due_input_formatted(*due, offset, r@),
{
    let offset = UtcOffset::current_local();
    format_due_input_at(due, &offset)
}

/// The due date as shown on a task: nothing, or `期限 ` followed by the input text.
pub open spec fn due_display_formatted(due: Due, offset: UtcOffset, s: Seq<char>) -> bool {
    match due {
        Due::Unset => s == Seq::<char>::empty(),
        _ => s.len() >= "期限 "@.len() && s.subrange(0, "期限 "@.len() as int) == "期限 "@
            && due_input_formatted(due, offset, s.subrange("期限 "@.len() as int, s.len() as int)),
    }
}

pub fn format_due_display_at(due: &Due, offset: &UtcOffset) -> (r: String)
    requires
        due.wf(),
        offset.wf(),
    ensures
        due_display_formatted(*due, *offset, r@),
        r@ == if due is Unset {
            Seq::<char>::empty()
        } else {
            "期限 "@ + due_input_value(*due, *offset)
        },
{
    match due {
        Due::Unset => String::new(),
        _ => {
            let mut s = String::from_str("期限 ");
            let body = format_due_input_at(due, offset);
            let chars = chars_of(body.as_str());
            let ghost head = s@;
            append_chars(&mut s, &chars);
            assert(s@.subrange(0, head.len() as int) =~= head);
            assert(s@.subrange(head.len() as int, s@.len() as int) =~= body@);
            s
        },
    }
}

/// The due date as shown on a task, at the system's current offset.
pub fn format_due_display(due: &Due) -> (r: String)
    requires
        due.wf(),
    ensures
        exists|offset: UtcOffset| offset.wf() && due_display_formatted(*due, offset, r@),
{
    let offset = UtcOffset::current_local();
    format_due_display_at(due, &offset)
}

/// The calendar date of a due date at `offset`: the date itself, or the local date
/// of a due instant.
pub open spec fn due_date_of(due: Due, offset: UtcOffset, r: Option<CivilDate>) -> bool {
    match due {
        Due::Unset => r is None,
        Due::Date(d) => r == Some(d),
        Due::DateTime(t) => r matches Some(d) && local_date_of(t, offset, d),
    }
}

/// The calendar date of `due` at `offset`.
pub open spec fn due_date_value(due: Due, offset: UtcOffset) -> Option<CivilDate> {
    match due {
        Due::Unset => None,
        Due::Date(d) => Some(d),
        Due::DateTime(t) => Some(date_of_day(local_day(t, offset))),
    }
}

/// The calendar date of `due` for a user at `offset`.
pub fn due_date_at(due: &Due, offset: &UtcOffset) -> (r: Option<CivilDate>)
    requires
        due.wf(),
        offset.wf(),
    ensures
        due_date_of(*due, *offset, r),
        r == due_date_value(*due, *offset),
        r matches Some(d) ==> d.wf() && due_day(*due, *offset) == Some(d.days()),
        r is None <==> due_day(*due, *offset) is None,
{
    match due {
        Due::Unset => None,
        Due::Date(d) => Some(*d),
        Due::DateTime(t) => Some(date_at(t, offset)),
    }
}

/// The calendar date of `due` at the system's current offset.
pub fn due_date(due: &Due) -> (r: Option<CivilDate>)
    requires
        due.wf(),
    ensures
        exists|offset: UtcOffset| offset.wf() && due_date_of(*due, offset, r),
        r matches Some(d) ==> d.wf(),
{
    let offset = UtcOffset::current_local();
    due_date_at(due, &offset)
}

/// `due` falls on `today` for a user at `offset`.
pub open spec fn due_today(due: Due, today: CivilDate, offset: UtcOffset) -> bool {
    match due {
        Due::Unset => false,
        Due::Date(d) => d == today,
        Due::DateTime(t) => today.days() == local_day(t, offset),
    }
}

/// The day number (days since 1970-01-01) on which `due` falls at `offset`.
pub open spec fn due_day(due: Due, offset: UtcOffset) -> Option<int> {
    match due {
        Due::Unset => None,
        Due::Date(d) => Some(d.days()),
        Due::DateTime(t) => Some(local_day(t, offset)),
    }
}

/// `due` falls within the seven days that follow `today`, today included.
pub open spec fn due_upcoming(due: Due, today: CivilDate, offset: UtcOffset) -> bool {
    match due_day(due, offset) {
        None => false,
        Some(n) => today.days() <= n <= today.days() + 7,
    }
}

/// The due classes of the smart views, in days from `today`: a due date is due
/// today only on `today`, upcoming from today through seven days ahead and no
/// further, and overdue exactly when it is before `today`. An instant counts by its
/// local day at `offset`. Nothing without a due date is in any class.
pub proof fn lemma_due_classes(due: Due, today: CivilDate, now: Timestamp, offset: UtcOffset)
    requires
        today.wf(),
    ensures
        due_upcoming(due, today, offset) ==> (due_day(due, offset) matches Some(n) && today.days() <= n
            && n <= today.days() + 7),
        (due_day(due, offset) matches Some(n) && today.days() <= n && n <= today.days() + 7) ==> due_upcoming(
            due,
            today,
            offset,
        ),
        due_today(due, today, offset) ==> due_day(due, offset) == Some(today.days()),
        due_today(due, today, offset) ==> due_upcoming(due, today, offset),
        due matches Due::Date(d) ==> (d.wf() ==> (due_today(due, today, offset) <==> d.days() == today.days())),
        due matches Due::Date(d) ==> (due_overdue(due, now, today) <==> d.days() < today.days()),
        due is Date ==> (due_overdue(due, now, today) ==> !due_upcoming(due, today, offset)),
        due matches Due::DateTime(t) ==> (due_overdue(due, now, today) <==> t.nanos < now.nanos),
        due is Unset ==> !due_upcoming(due, today, offset) && !due_today(due, today, offset) && !due_overdue(
            due,
            now,
            today,
        ),
{
    if let Due::Date(d) = due {
        if d.wf() && d.days() == today.days() {
            lemma_days_injective(d, today);
        }
    }
}

/// `due` has passed: a due date before `today` or a due instant before `now`.
pub open spec fn due_overdue(due: Due, now: Timestamp, today: CivilDate) -> bool {
    match due {
        Due::Unset => false,
        Due::Date(d) => d.days() < today.days(),
        Due::DateTime(t) => t.nanos < now.nanos,
    }
}

/// Whether `due` falls on `today` for a user at `offset`.
pub fn due_is_today(due: &Due, today: &CivilDate, offset: &UtcOffset) -> (r: bool)
    requires
        due.wf(),
        today.wf(),
        offset.wf(),
    ensures
        r == due_today(*due, *today, *offset),
{
    match due {
        Due::Unset => false,
        Due::Date(d) => *d == *today,
        Due::DateTime(t) => {
            let local = date_at(t, offset);
            local.day_number() == today.day_number()
        },
    }
}

/// Whether `due` falls within the seven days after `today` (inclusive of today),
/// for a user at `offset`.
pub fn due_is_upcoming(due: &Due, today: &CivilDate, offset: &UtcOffset) -> (r: bool)
    requires
        due.wf(),
        today.wf(),
        offset.wf(),
    ensures
        r == due_upcoming(*due, *today, *offset),
{
    match due_date_at(due, offset) {
        None => false,
        Some(d) => {
            let n = d.day_number();
            let base = today.day_number();
            base <= n && (n as i64) <= (base as i64) + 7
        },
    }
}

/// Whether `due` has passed: a due date before `today`, or a due instant before `now`.
pub fn due_is_overdue(due: &Due, now: &Timestamp, today: &CivilDate) -> (r: bool)
    requires
        due.wf(),
        today.wf(),
    ensures
        r == due_overdue(*due, *now, *today),
{
    match due {
        Due::Unset => false,
        Due::Date(d) => d.is_before(today),
        Due::DateTime(t) => t.nanos < now.nanos,
    }
}

/// The local `HH:MM` of a due instant at `offset`; nothing for other due dates.
pub fn due_time_value_at(due: &Due, offset: &UtcOffset) -> (r: Option<String>)
    requires
        due.wf(),
        offset.wf(),
    ensures
        r is Some <==> due is DateTime,
        *due matches Due::DateTime(t) ==> r matches Some(s) && s@ == clock_text(
            local_hour(t, *offset),
            local_minute(t, *offset),
        ),
{
    match due {
        Due::DateTime(t) => {
            let (h, m) = clock_at(t, offset);
            let c = clock_text_chars(h, m);
            Some(string_of(&c))
        },
        _ => None,
    }
}

/// The 96 quarter-hour choices `00:00`, `00:15`, ..., `23:45`.
pub fn due_time_options() -> (r: Vec<String>)
    ensures
        r.len() == 96,
        forall|i: int| 0 <= i < 96 ==> #[trigger] r@[i]@ == clock_text(i / 4, (i % 4) * 15),
{
    let mut out: Vec<String> = Vec::new();
    let mut hour: u8 = 0;
    while hour < 24
        invariant
            hour <= 24,
            out.len() == 4 * hour,
            forall|i: int| 0 <= i < out.len() ==> #[trigger] out@[i]@ == clock_text(i / 4, (i % 4) * 15),
        decreases 24 - hour,
    {
        let mut q: u8 = 0;
        while q < 4
            invariant
                hour < 24,
                q <= 4,
                out.len() == 4 * hour + q,
                forall|i: int| 0 <= i < out.len() ==> #[trigger] out@[i]@ == clock_text(i / 4, (i % 4) * 15),
            decreases 4 - q,
        {
            let c = clock_text_chars(hour, q * 15);
            out.push(string_of(&c));
            proof {
                let i = 4 * hour + q;
                assert(i / 4 == hour as int);
                assert(i % 4 == q as int);
            }
            q = q + 1;
        }
        hour = hour + 1;
    }
    out
}

/// The due input after choosing a time: the date of the current input with the
/// chosen `HH:MM`, or only the date when the time is removed.
/// What choosing the time `selected` (or removing the time) gives for the due input
/// `current` at `offset`.
pub open spec fn with_time_result(
    current: Seq<char>,
    selected: Option<Seq<char>>,
    offset: UtcOffset,
    r: Result<String, String>,
) -> bool {
    match due_of_input(current, offset) {
        None => r matches Err(m) && m@ == due_format_error(),
        Some(due) => match selected {
            None => r matches Ok(s) && (match due {
                Due::Unset => s@ == Seq::<char>::empty(),
                Due::Date(d) => s@ == date_text(d),
                Due::DateTime(t) => exists|local: CivilDate|
                    local_date_of(t, offset, local) && s@ == date_text(local),
            }),
            Some(time) => match parsed_clock(time) {
                None => r matches Err(m) && m@ == time_format_error(),
                Some((h, m)) => match due {
                    Due::Unset => r matches Err(e) && e@ == time_without_date_error(),
                    Due::Date(d) => r matches Ok(s) && s@ == date_text(d) + seq![' '] + clock_text(
                        h as int,
                        m as int,
                    ),
                    Due::DateTime(t) => r matches Ok(s) && exists|local: CivilDate|
                        local_date_of(t, offset, local) && s@ == date_text(local) + seq![' ']
                            + clock_text(h as int, m as int),
                },
            },
        },
    }
}

pub open spec fn optional_text(t: Option<&str>) -> Option<Seq<char>> {
    match t {
        Some(s) => Some(s@),
        None => None,
    }
}

pub fn due_input_with_time_at(current: &str, selected_time: Option<&str>, offset: &UtcOffset) -> (r:
    Result<String, String>)
    requires
        offset.wf(),
    ensures
        with_time_result(current@, optional_text(selected_time), *offset, r),
{
    let due = parse_due_at(current, offset)?;
    match selected_time {
        None => match due_date_at(&due, offset) {
            None => Ok(String::new()),
            Some(d) => Ok(date_text_string(&d)),
        },
        Some(time) => {
            let chars = chars_of(time);
            let (h, m) = match parse_clock_chars(&chars) {
                Some(c) => c,
                None => return Err(String::from_str("時刻は HH:MM 形式で指定してください")),
            };
            let d = match due_date_at(&due, offset) {
                Some(d) => d,
                None => return Err(String::from_str("時刻を選ぶ前に日付を指定してください")),
            };
            let mut s = date_text_string(&d);
            let mut sep: Vec<char> = Vec::new();
            sep.push(' ');
            append_chars(&mut s, &sep);
            let c = clock_text_chars(h, m);
            append_chars(&mut s, &c);
            Ok(s)
        },
    }
}

/// The due input after choosing a time, at the system's current offset.
pub fn due_input_with_time(current: &str, selected_time: Option<&str>) -> (r: Result<String, String>)
    ensures
        exists|offset: UtcOffset|
            offset.wf() && with_time_result(current@, optional_text(selected_time), offset, r),
{
    let offset = UtcOffset::current_local();
    due_input_with_time_at(current, selected_time, &offset)
}

/// The due input after picking `date` in the calendar: the picked date, keeping the
/// time of the current input when it holds one; empty when no date is picked.
/// The due input after picking `date` (or nothing) with current input `current` at
/// `offset`.
pub open spec fn picked_input(date: Option<CivilDate>, current: Seq<char>, offset: UtcOffset, r: Seq<char>) -> bool {
    match date {
        None => r == Seq::<char>::empty(),
        Some(d) => match due_of_input(current, offset) {
            Some(Due::DateTime(t)) => r == date_text(d) + seq![' '] + clock_text(
                local_hour(t, offset),
                local_minute(t, offset),
            ),
            _ => r == date_text(d),
        },
    }
}

pub fn picker_due_input_value_at(date: Option<CivilDate>, current: &str, offset: &UtcOffset) -> (r:
    String)
    requires
        offset.wf(),
        date matches Some(d) ==> d.wf(),
    ensures
        picked_input(date, current@, *offset, r@),
{
    let d = match date {
        None => return String::new(),
        Some(d) => d,
    };
    let mut s = date_text_string(&d);
    match parse_due_at(current, offset) {
        Ok(due) => match due_time_value_at(&due, offset) {
            Some(time) => {
                let mut sep: Vec<char> = Vec::new();
                sep.push(' ');
                append_chars(&mut s, &sep);
                let c = chars_of(time.as_str());
                append_chars(&mut s, &c);
                s
            },
            None => s,
        },
        Err(_) => s,
    }
}

/// The due input after picking `date` in the calendar, at the system's current offset.
pub fn picker_due_input_value(date: Option<CivilDate>, current: &str) -> (r: String)
    requires
        date matches Some(d) ==> d.wf(),
    ensures
        exists|offset: UtcOffset| offset.wf() && picked_input(date, current@, offset, r@),
{
    let offset = UtcOffset::current_local();
    picker_due_input_value_at(date, current, &offset)
}

/// The instant at which a due-range filter boundary starts: midnight of `date` at
/// `offset`, when it lies in the range the library keeps.
pub fn date_to_filter_datetime(date: &CivilDate, offset: &UtcOffset) -> (r: Option<Timestamp>)
    requires
        date.wf(),
        offset.wf(),
    ensures
        r is Some <==> MIN_INSTANT_NANOS <= instant_of_local(*date, 0, 0, *offset) <= MAX_INSTANT_NANOS,
        r matches Some(t) ==> t.nanos == instant_of_local(*date, 0, 0, *offset),
{
    crate::calendar::midnight_at(date, offset)
}

/// The error of the due input and the window's error message while the due input
/// is being typed into, after the typed text read as `parsed`. While the input shows
/// an error, the error follows the text: it goes once the text reads as a due, and
/// the window's message goes with it when that message is the input's error; any
/// other message stays. While the input shows no error, typing changes neither.
pub fn errors_after_due_typing(
    due_error: Option<String>,
    error: Option<String>,
    parsed: Result<Due, String>,
) -> (r: (Option<String>, Option<String>))
    ensures
        due_error is None ==> r.0 is None && r.1 == error,
        (due_error is Some && parsed is Err) ==> r.0 == Some(parsed->Err_0) && r.1 == error,
        (due_error is Some && parsed is Ok) ==> r.0 is None && (if (error is Some && error->Some_0@ == due_error->Some_0@) {
            r.1 is None
        } else {
            r.1 == error
        }),
{
    match due_error {
        None => (None, error),
        Some(old) => match parsed {
            Err(m) => (Some(m), error),
            Ok(_) => {
                let same = match &error {
                    Some(e) => same_text(e.as_str(), old.as_str()),
                    None => false,
                };
                if same {
                    (None, None)
                } else {
                    (None, error)
                }
            },
        },
    }
}

} // verus!
