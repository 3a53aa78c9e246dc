//! Reading back what was written: the due input text of a due date parses to the
//! same due date.
use vstd::prelude::*;

use crate::calendar::{
    CivilDate, Timestamp, UtcOffset, local_day, local_seconds, MAX_INSTANT_NANOS, MIN_INSTANT_NANOS, MAX_LOCAL_DAY, MIN_LOCAL_DAY,
    NANOS_PER_SECOND, SECONDS_PER_DAY, instant_of_local,
};
use crate::due::{
    clock_at_width, clock_text, date_at_width, date_shape, date_text, due_input_text, due_of_input,
    local_date_of, local_hour, local_minute, parsed_date, parsed_date_time, sign_width,
    undecided_word, year_field,
};
use crate::task::Due;
use crate::text::{
    all_digits, decimal, digit_char, digits_value, is_digit, lemma_decimal_digits, lemma_decimal_len,
    padded_decimal, pow10, trim_end, trim_start, trimmed, white_space,
};

verus! {

/// A due that the input text shows exactly: an instant that falls on a whole minute
/// of the local clock at `offset`, on a local date within the years -9999 to 9999;
/// other dues always are.
pub open spec fn shown_exactly(due: Due, offset: UtcOffset) -> bool {
    match due {
        Due::DateTime(t) => {
            &&& (t.nanos as int) % (NANOS_PER_SECOND as int) == 0
            &&& local_seconds(t, offset) % 60 == 0
            &&& MIN_LOCAL_DAY <= local_seconds(t, offset) / (SECONDS_PER_DAY as int) <= MAX_LOCAL_DAY
        },
        _ => true,
    }
}

proof fn lemma_zeros_value(k: nat)
    ensures
        all_digits(Seq::new(k, |i: int| '0')),
        digits_value(Seq::new(k, |i: int| '0')) == 0,
    decreases k,
{
    let z = Seq::new(k, |i: int| '0');
    if k > 0 {
        lemma_zeros_value((k - 1) as nat);
        assert(z.drop_last() =~= Seq::new((k - 1) as nat, |i: int| '0'));
    }
}

proof fn lemma_digits_concat(a: Seq<char>, b: Seq<char>)
    ensures
        digits_value(a + b) == digits_value(a) * pow10(b.len()) + digits_value(b),
    decreases b.len(),
{
    if b.len() == 0 {
        assert(a + b =~= a);
    } else {
        lemma_digits_concat(a, b.drop_last());
        assert((a + b).drop_last() =~= a + b.drop_last());
        assert((a + b).last() == b.last());
        assert(digits_value(a) * pow10(b.len()) == digits_value(a) * pow10((b.len() - 1) as nat) * 10)
            by (nonlinear_arith)
            requires
                pow10(b.len()) == 10 * pow10((b.len() - 1) as nat),
        ;
    }
}

/// A number below `10^w` (with `w` two or four) written with `w` digits reads back as
/// itself.
proof fn lemma_padded(n: nat, w: nat)
    requires
        (w == 2 && n < 100) || (w == 4 && n < 10000),
    ensures
        padded_decimal(n, w).len() == w,
        all_digits(padded_decimal(n, w)),
        digits_value(padded_decimal(n, w)) == n,
{
    let d = decimal(n);
    lemma_decimal_len(n);
    lemma_decimal_digits(n);
    assert(d.len() <= w);
    if d.len() < w {
        let k = (w - d.len()) as nat;
        let z = Seq::new(k, |i: int| '0');
        lemma_zeros_value(k);
        lemma_digits_concat(z, d);
        assert(padded_decimal(n, w) == z + d);
        assert forall|i: int| 0 <= i < (z + d).len() implies is_digit((z + d)[i]) by {
            if i < k {
                assert((z + d)[i] == '0');
            } else {
                assert((z + d)[i] == d[i - k]);
            }
        }
    }
}

/// The year digits of a date's text: four digits, after a `-` for a negative year.
proof fn lemma_date_text_fields(d: CivilDate, tail: Seq<char>)
    requires
        d.wf(),
    ensures
        ({
            let s = date_text(d) + tail;
            let w = if d.year < 0 { 1int } else { 0int };
            &&& date_text(d).len() == w + 10
            &&& date_text(d)[0] == '-' || is_digit(date_text(d)[0])
            &&& is_digit(date_text(d).last())
            &&& sign_width(s) == w
            &&& date_at_width(s, w) == Some(d)
        }),
{
    let y = d.year as int;
    let ay: nat = if y < 0 { (-y) as nat } else { y as nat };
    lemma_padded(ay, 4);
    lemma_padded(d.month as nat, 2);
    lemma_padded(d.day as nat, 2);
    let yd = padded_decimal(ay, 4);
    let md = padded_decimal(d.month as nat, 2);
    let dd = padded_decimal(d.day as nat, 2);
    let digits = if y < 0 { seq!['-'] + yd } else { yd };
    let w: int = if y < 0 { 1 } else { 0 };
    let t = date_text(d);
    assert(t == digits + seq!['-'] + md + seq!['-'] + dd);
    let s = t + tail;
    assert(t.len() == w + 10);
    assert(s.subrange(w, w + 4) =~= yd);
    assert(s[w + 4] == '-');
    assert(s.subrange(w + 5, w + 7) =~= md);
    assert(s[w + 7] == '-');
    assert(s.subrange(w + 8, w + 10) =~= dd);
    assert(t.last() == dd[1]);
    assert(is_digit(dd[1]));
    if y < 0 {
        assert(s[0] == '-');
        assert(t[0] == '-');
    } else {
        assert(t[0] == yd[0]);
        assert(is_digit(yd[0]));
        assert(s[0] == yd[0]);
    }
    assert(date_shape(s, w));
    assert(year_field(s, w) == y);
}

/// A text that starts and ends with a character that is not white space is its own
/// trimmed form.
proof fn lemma_trimmed_itself(s: Seq<char>)
    requires
        s.len() > 0,
        !white_space(s[0]),
        !white_space(s.last()),
    ensures
        trimmed(s) == s,
{
    assert(trim_start(s) == s);
    assert(trim_end(s) == s);
}

proof fn lemma_clock_fields(s: Seq<char>, at: int, h: int, m: int)
    requires
        0 <= h < 24,
        0 <= m < 60,
        0 <= at,
        at + 5 <= s.len(),
        s.subrange(at, at + 5) == clock_text(h, m),
    ensures
        clock_at_width(s, at) == Some((h as u8, m as u8)),
        is_digit(s[at + 4]),
{
    lemma_padded(h as nat, 2);
    lemma_padded(m as nat, 2);
    let c = clock_text(h, m);
    assert(s.subrange(at, at + 2) =~= padded_decimal(h as nat, 2)) by {
        assert forall|i: int| 0 <= i < 2 implies #[trigger] s.subrange(at, at + 2)[i] == padded_decimal(h as nat, 2)[i] by {
            assert(s[at + i] == c[i]);
        }
    }
    assert(s[at + 2] == c[2]);
    assert(s.subrange(at + 3, at + 5) =~= padded_decimal(m as nat, 2)) by {
        assert forall|i: int| 0 <= i < 2 implies #[trigger] s.subrange(at + 3, at + 5)[i] == padded_decimal(m as nat, 2)[i] by {
            assert(s[at + 3 + i] == c[3 + i]);
        }
    }
    assert(s[at + 4] == c[4]);
    assert(c[4] == padded_decimal(m as nat, 2)[1]);
}

/// The local clock of a whole-minute instant, read back at the same offset, gives
/// the instant.
proof fn lemma_whole_minute(t: Timestamp, offset: UtcOffset, local: CivilDate)
    requires
        local_date_of(t, offset, local),
        (t.nanos as int) % (NANOS_PER_SECOND as int) == 0,
        local_seconds(t, offset) % 60 == 0,
        MIN_LOCAL_DAY <= local_seconds(t, offset) / (SECONDS_PER_DAY as int) <= MAX_LOCAL_DAY,
    ensures
        instant_of_local(local, local_hour(t, offset), local_minute(t, offset), offset) == t.nanos,
        0 <= local_hour(t, offset) < 24,
        0 <= local_minute(t, offset) < 60,
{
    let ls = local_seconds(t, offset);
    let q = ls / 86400;
    let r = ls % 86400;
    let h = r / 3600;
    let m = (ls % 3600) / 60;
    assert(local.days() == q);
    assert(ls == 86400 * q + r && 0 <= r < 86400) by (nonlinear_arith)
        requires
            q == ls / 86400,
            r == ls % 86400,
    ;
    assert(ls % 3600 == r % 3600) by (nonlinear_arith)
        requires
            ls == 86400 * q + r,
            0 <= r < 86400,
    ;
    assert(r == 3600 * h + r % 3600 && 0 <= h < 24) by (nonlinear_arith)
        requires
            h == r / 3600,
            0 <= r < 86400,
    ;
    assert(r % 3600 == 60 * m + (r % 3600) % 60 && 0 <= m < 60) by (nonlinear_arith)
        requires
            m == (r % 3600) / 60,
    ;
    assert((r % 3600) % 60 == ls % 60) by (nonlinear_arith)
        requires
            ls == 86400 * q + r,
            0 <= r < 86400,
    ;
    assert(q * 86400 + h * 3600 + m * 60 == ls);
    let secs = (t.nanos as int) / (NANOS_PER_SECOND as int);
    assert(ls - offset.seconds == secs);
    assert(secs * 1_000_000_000 == t.nanos) by (nonlinear_arith)
        requires
            secs == (t.nanos as int) / 1_000_000_000,
            (t.nanos as int) % 1_000_000_000 == 0,
    ;
}

/// What is written into the due input for `due` reads back as `due` at the same
/// offset, provided a due instant falls on a whole minute there (the input shows
/// minutes only). `local` is the local date of a due instant.
pub proof fn lemma_due_input_round_trip(due: Due, offset: UtcOffset, local: CivilDate)
    requires
        due.wf(),
        offset.wf(),
        shown_exactly(due, offset),
        due matches Due::DateTime(t) ==> local_date_of(t, offset, local),
    ensures
        due_of_input(due_input_text(due, offset, local), offset) == Some(due),
{
    reveal_strlit("未定");
    let s = due_input_text(due, offset, local);
    match due {
        Due::Unset => {
            assert(trimmed(s).len() == 0) by {
                assert(s.len() == 0);
                assert(trim_start(s) == s);
                assert(trim_end(s) == s);
            }
        },
        Due::Date(d) => {
            lemma_date_text_fields(d, Seq::empty());
            assert(date_text(d) + Seq::<char>::empty() =~= s);
            lemma_trimmed_itself(s);
            assert(s != undecided_word()) by {
                assert(undecided_word()[0] == '未');
            }
            assert(parsed_date(s) == Some(d));
        },
        Due::DateTime(t) => {
            let h = local_hour(t, offset);
            let m = local_minute(t, offset);
            lemma_whole_minute(t, offset, local);
            let tail = seq![' '] + clock_text(h, m);
            lemma_date_text_fields(local, tail);
            let dt = date_text(local);
            assert(s =~= dt + tail);
            let w = if local.year < 0 { 1int } else { 0int };
            assert(s.len() == w + 16) by {
                lemma_padded(h as nat, 2);
                lemma_padded(m as nat, 2);
            }
            assert(s[w + 10] == ' ');
            assert(s.subrange(w + 11, w + 16) =~= clock_text(h, m));
            lemma_clock_fields(s, w + 11, h, m);
            assert(s[0] == dt[0]);
            assert(s.last() == s[w + 15]);
            lemma_trimmed_itself(s);
            assert(s != undecided_word()) by {
                assert(undecided_word().len() == 2);
            }
            assert(parsed_date(s) is None);
            assert(parsed_date_time(s) == Some((local, h as u8, m as u8)));
            assert(MIN_INSTANT_NANOS <= t.nanos <= MAX_INSTANT_NANOS);
        },
    }
}

/// A progress value written in decimal reads back as itself.
pub proof fn lemma_progress_round_trip(p: u8)
    requires
        p <= 100,
    ensures
        crate::editing::progress_of_text(decimal(p as nat)) == Some(p),
{
    let d = decimal(p as nat);
    lemma_decimal_len(p as nat);
    lemma_decimal_digits(p as nat);
    assert(is_digit(d[0]));
    assert(is_digit(d.last()));
    lemma_trimmed_itself(d);
    assert(d[0] != '+');
}

} // verus!
