//! Export of notes: UTC date-time rendering of timestamps, CSV field
//! escaping, and the CSV document.
use vstd::prelude::*;
use crate::db::Note;
use crate::db::opt_view;
use crate::text::{dec, dec_pad, digits_value, is_digit, law_dec_denotes, push_char, push_dec, push_dec_pad, push_str, chars_of, str_eq};

verus! {

/// Gregorian leap year.
pub open spec fn is_leap(y: int) -> bool {
    y % 4 == 0 && (y % 100 != 0 || y % 400 == 0)
}

/// Number of days in year `y`.
pub open spec fn year_len(y: int) -> int {
    if is_leap(y) { 366 } else { 365 }
}

/// Days from 1970-01-01 to January 1st of year `y`.
pub open spec fn days_before_year(y: int) -> int
    decreases y - 1970,
{
    if y <= 1970 {
        0
    } else {
        days_before_year(y - 1) + year_len(y - 1)
    }
}

/// Days of the year before the first day of month `i + 1` (for `i` in 0..=12).
pub open spec fn month_start(leap: bool, i: int) -> int {
    let feb: int = if leap { 1 } else { 0 };
    if i <= 0 { 0 }
    else if i == 1 { 31 }
    else if i == 2 { 59 + feb }
    else if i == 3 { 90 + feb }
    else if i == 4 { 120 + feb }
    else if i == 5 { 151 + feb }
    else if i == 6 { 181 + feb }
    else if i == 7 { 212 + feb }
    else if i == 8 { 243 + feb }
    else if i == 9 { 273 + feb }
    else if i == 10 { 304 + feb }
    else if i == 11 { 334 + feb }
    else { 365 + feb }
}

/// Year `y`, month `mo` and day `d` are the calendar date `days` days after
/// 1970-01-01.
pub open spec fn is_civil_date(days: int, y: int, mo: int, d: int) -> bool {
    let r = days - days_before_year(y);
    &&& y >= 1970
    &&& 0 <= r < year_len(y)
    &&& 1 <= mo <= 12
    &&& month_start(is_leap(y), mo - 1) <= r < month_start(is_leap(y), mo)
    &&& d == r - month_start(is_leap(y), mo - 1) + 1
}

/// The calendar date `days` days after 1970-01-01, as (year, month, day).
pub open spec fn civil_date(days: int) -> (int, int, int) {
    choose|t: (int, int, int)| is_civil_date(days, t.0, t.1, t.2)
}

/// Whole seconds of a millisecond timestamp (a timestamp within the first
/// second before the epoch counts as the epoch).
pub open spec fn secs_of(ms: i64) -> int {
    if ms < 0 { 0 } else { ms / 1000 }
}

/// `YYYY-MM-DD HH:MM:SS`, each field zero-padded.
pub open spec fn iso_text(y: int, mo: int, d: int, h: int, mi: int, s: int) -> Seq<char> {
    dec_pad(y as nat, 4) + seq!['-'] + dec_pad(mo as nat, 2) + seq!['-'] + dec_pad(d as nat, 2)
        + seq![' '] + dec_pad(h as nat, 2) + seq![':'] + dec_pad(mi as nat, 2) + seq![':']
        + dec_pad(s as nat, 2)
}

/// The UTC date-time text of a millisecond timestamp.
#[verifier::opaque]
pub open spec fn iso_of(ms: i64) -> Seq<char> {
    let s = secs_of(ms);
    let c = civil_date(s / 86400);
    iso_text(c.0, c.1, c.2, (s / 3600) % 24, (s / 60) % 60, s % 60)
}

/// The rendered date-time of a timestamp is the calendar date of its day
/// followed by the hours, minutes and seconds elapsed in that day.
pub proof fn law_iso_of_fields(ms: i64, y: int, mo: int, d: int, h: int, mi: int, sec: int)
    requires
        is_civil_date(secs_of(ms) / 86400, y, mo, d),
        0 <= h < 24,
        0 <= mi < 60,
        0 <= sec < 60,
        h * 3600 + mi * 60 + sec == secs_of(ms) % 86400,
    ensures
        iso_of(ms) == iso_text(y, mo, d, h, mi, sec),
{
    let s = secs_of(ms);
    let q = s / 86400;
    vstd::arithmetic::div_mod::lemma_fundamental_div_mod(s, 86400);
    let a = 24 * q + h;
    vstd::arithmetic::div_mod::lemma_fundamental_div_mod_converse(s, 3600, a, mi * 60 + sec);
    vstd::arithmetic::div_mod::lemma_fundamental_div_mod_converse(a, 24, q, h);
    let b = 1440 * q + 60 * h + mi;
    vstd::arithmetic::div_mod::lemma_fundamental_div_mod_converse(s, 60, b, sec);
    vstd::arithmetic::div_mod::lemma_fundamental_div_mod_converse(b, 60, 24 * q + h, mi);
    let t = (y, mo, d);
    assert(is_civil_date(q, t.0, t.1, t.2));
    let c = civil_date(q);
    assert(is_civil_date(q, c.0, c.1, c.2));
    law_civil_date_unique(q, y, mo, d, c.0, c.1, c.2);
    reveal(iso_of);
}

proof fn lemma_days_before_year_step(y1: int, y2: int)
    requires
        1970 <= y1 < y2,
    ensures
        days_before_year(y1) + year_len(y1) <= days_before_year(y2),
    decreases y2 - y1,
{
    if y2 > y1 + 1 {
        lemma_days_before_year_step(y1, y2 - 1);
    }
}

proof fn lemma_month_start_mono(leap: bool, i: int, j: int)
    requires
        0 <= i <= j <= 12,
    ensures
        month_start(leap, i) <= month_start(leap, j),
{
}

/// A day count has at most one calendar date.
pub proof fn law_civil_date_unique(days: int, y1: int, m1: int, d1: int, y2: int, m2: int, d2: int)
    requires
        is_civil_date(days, y1, m1, d1),
        is_civil_date(days, y2, m2, d2),
    ensures
        y1 == y2 && m1 == m2 && d1 == d2,
{
    if y1 < y2 {
        lemma_days_before_year_step(y1, y2);
    } else if y2 < y1 {
        lemma_days_before_year_step(y2, y1);
    }
    assert(y1 == y2);
    if m1 < m2 {
        lemma_month_start_mono(is_leap(y1), m1, m2 - 1);
    } else if m2 < m1 {
        lemma_month_start_mono(is_leap(y1), m2, m1 - 1);
    }
}

/// Gregorian day count: January 1st of year `y` lies 365 days per year after
/// 1970-01-01, plus one day for each leap year in between (every fourth year,
/// except centuries not divisible by 400).
pub proof fn law_days_before_year_count(y: int)
    requires
        y >= 1970,
    ensures
        days_before_year(y) == 365 * (y - 1970) + ((y - 1) / 4 - (y - 1) / 100 + (y - 1) / 400) - 477,
    decreases y - 1970,
{
    if y > 1970 {
        law_days_before_year_count(y - 1);
        let x = y - 1;
        assert(x / 4 - (x - 1) / 4 == if x % 4 == 0 { 1int } else { 0int });
        assert(x / 100 - (x - 1) / 100 == if x % 100 == 0 { 1int } else { 0int });
        assert(x / 400 - (x - 1) / 400 == if x % 400 == 0 { 1int } else { 0int });
        assert(x % 400 == 0 ==> x % 100 == 0 && x % 4 == 0);
        assert(x % 100 == 0 ==> x % 4 == 0);
    }
}

/// The calendar repeats every 400 years, which hold 146097 days.
pub proof fn law_four_century_cycle(y: int)
    requires
        y >= 1970,
    ensures
        days_before_year(y + 400) == days_before_year(y) + 146097,
        is_leap(y + 400) == is_leap(y),
{
    law_days_before_year_count(y);
    law_days_before_year_count(y + 400);
    assert((y + 399) / 4 == (y - 1) / 4 + 100);
    assert((y + 399) / 100 == (y - 1) / 100 + 4);
    assert((y + 399) / 400 == (y - 1) / 400 + 1);
}

/// Days in month `m` (1 to 12) of the Gregorian calendar: thirty days hath
/// September, April, June and November; February has 28, or 29 in a leap
/// year; all the rest have 31.
pub open spec fn days_in_month(leap: bool, m: int) -> int {
    if m == 2 {
        if leap { 29 } else { 28 }
    } else if m == 4 || m == 6 || m == 9 || m == 11 {
        30
    } else {
        31
    }
}

/// The year starts with January, and each month spans exactly its Gregorian
/// number of days: month `m` starts right after the days of the months before
/// it.
pub proof fn law_month_lengths(leap: bool, m: int)
    requires
        1 <= m <= 12,
    ensures
        month_start(leap, 0) == 0,
        month_start(leap, m) == month_start(leap, m - 1) + days_in_month(leap, m),
{
}

/// A calendar date names a day that exists in its month, and the epoch day
/// is January 1st, 1970.
pub proof fn law_civil_date_in_month(days: int, y: int, mo: int, d: int)
    requires
        is_civil_date(days, y, mo, d),
    ensures
        1 <= d <= days_in_month(is_leap(y), mo),
        is_civil_date(0, 1970, 1, 1),
{
    law_month_lengths(is_leap(y), mo);
}

/// The day after a date is the next day of the same month, or the first of
/// the next month at the end of a month, or January 1st of the next year at
/// the end of December.
pub proof fn law_civil_date_next_day(days: int, y: int, mo: int, d: int)
    requires
        is_civil_date(days, y, mo, d),
    ensures
        d < days_in_month(is_leap(y), mo) ==> is_civil_date(days + 1, y, mo, d + 1),
        d == days_in_month(is_leap(y), mo) && mo < 12 ==> is_civil_date(days + 1, y, mo + 1, 1),
        d == days_in_month(is_leap(y), mo) && mo == 12 ==> is_civil_date(days + 1, y + 1, 1, 1),
{
    law_month_lengths(is_leap(y), mo);
    if mo < 12 {
        law_month_lengths(is_leap(y), mo + 1);
    }
    if d == days_in_month(is_leap(y), mo) && mo == 12 {
        assert(days_before_year(y + 1) == days_before_year(y) + year_len(y));
        law_month_lengths(is_leap(y + 1), 1);
    }
}

fn is_leap_year(y: u64) -> (r: bool)
    ensures
        r == is_leap(y as int),
{
    y % 4 == 0 && (y % 100 != 0 || y % 400 == 0)
}

fn month_start_days(leap: bool, i: u64) -> (r: u64)
    requires
        i <= 12,
    ensures
        r as int == month_start(leap, i as int),
{
    let feb: u64 = if leap { 1 } else { 0 };
    if i == 0 { 0 }
    else if i == 1 { 31 }
    else if i == 2 { 59 + feb }
    else if i == 3 { 90 + feb }
    else if i == 4 { 120 + feb }
    else if i == 5 { 151 + feb }
    else if i == 6 { 181 + feb }
    else if i == 7 { 212 + feb }
    else if i == 8 { 243 + feb }
    else if i == 9 { 273 + feb }
    else if i == 10 { 304 + feb }
    else if i == 11 { 334 + feb }
    else { 365 + feb }
}

/// Converts a millisecond timestamp to a `YYYY-MM-DD HH:MM:SS` date-time
/// string in UTC.
pub fn ts_to_iso(ms: i64) -> (r: String)
    requires
        ms > -1000,
    ensures
        r@ == iso_of(ms),
{
    let secs: u64 = if ms < 0 { 0 } else { (ms as u64) / 1000 };
    assert(secs as int == secs_of(ms));
    let s = secs % 60;
    let m = (secs / 60) % 60;
    let h = (secs / 3600) % 24;
    let total: u64 = secs / 86400;
    let mut days: u64 = total;
    let mut y: u64 = 1970;
    assert(total <= 106751991167) by {
        assert(secs <= 9223372036854775);
    }
    loop
        invariant
            1970 <= y,
            days <= total,
            total <= 106751991167,
            days + days_before_year(y as int) == total,
            365 * (y - 1970) <= total - days,
        ensures
            1970 <= y,
            days + days_before_year(y as int) == total,
            days < year_len(y as int),
        decreases days,
    {
        let dy: u64 = if is_leap_year(y) { 366 } else { 365 };
        if days < dy {
            break;
        }
        days = days - dy;
        y = y + 1;
    }
    let leap = is_leap_year(y);
    let mut mo: u64 = 12;
    let mut i: u64 = 1;
    while i < 12
        invariant_except_break
            mo == 12,
        invariant
            1 <= i <= 12,
            leap == is_leap(y as int),
            days < month_start(leap, 12),
            forall|j: int| 0 <= j < i ==> month_start(leap, j) <= days,
        ensures
            1 <= mo <= 12,
            month_start(leap, mo - 1) <= days < month_start(leap, mo as int),
        decreases 12 - i,
    {
        if days < month_start_days(leap, i) {
            mo = i;
            break;
        }
        i = i + 1;
    }
    assert(month_start(leap, mo - 1) <= days < month_start(leap, mo as int));
    let d = days - month_start_days(leap, mo - 1) + 1;
    proof {
        assert(is_civil_date(total as int, y as int, mo as int, d as int));
        let t = (y as int, mo as int, d as int);
        assert(is_civil_date(total as int, t.0, t.1, t.2));
        let c = civil_date(total as int);
        assert(is_civil_date(total as int, c.0, c.1, c.2));
        law_civil_date_unique(total as int, y as int, mo as int, d as int, c.0, c.1, c.2);
    }
    let mut out = String::new();
    push_dec_pad(&mut out, y, 4);
    push_char(&mut out, '-');
    push_dec_pad(&mut out, mo, 2);
    push_char(&mut out, '-');
    push_dec_pad(&mut out, d, 2);
    push_char(&mut out, ' ');
    push_dec_pad(&mut out, h, 2);
    push_char(&mut out, ':');
    push_dec_pad(&mut out, m, 2);
    push_char(&mut out, ':');
    push_dec_pad(&mut out, s, 2);
    proof {
        reveal(iso_of);
        assert(out@ =~= iso_of(ms));
    }
    out
}

/// A character as written inside a quoted CSV field.
pub open spec fn quote_piece(c: char) -> Seq<char> {
    if c == '"' { seq!['"', '"'] } else { seq![c] }
}

/// Every double quote written twice.
pub open spec fn double_quotes(s: Seq<char>) -> Seq<char>
    decreases s.len(),
{
    if s.len() == 0 {
        Seq::empty()
    } else {
        quote_piece(s[0]) + double_quotes(s.drop_first())
    }
}

proof fn lemma_double_quotes_push(s: Seq<char>, c: char)
    ensures
        double_quotes(s.push(c)) == double_quotes(s) + quote_piece(c),
    decreases s.len(),
{
    if s.len() == 0 {
        assert(s.push(c).drop_first() =~= Seq::<char>::empty());
        assert(double_quotes(Seq::<char>::empty()) == Seq::<char>::empty());
        assert(s.push(c)[0] == c);
        assert(double_quotes(s) == Seq::<char>::empty());
        assert(double_quotes(s.push(c)) =~= quote_piece(c));
    } else {
        assert(s.push(c).drop_first() =~= s.drop_first().push(c));
        lemma_double_quotes_push(s.drop_first(), c);
        assert(double_quotes(s.push(c)) =~= double_quotes(s) + quote_piece(c));
    }
}

/// A character that makes a spreadsheet read the cell as a formula.
pub open spec fn is_formula_start(c: char) -> bool {
    c == '=' || c == '+' || c == '-' || c == '@'
}

/// A CSV field value: double quotes doubled, and a single quote put in front
/// when the value would start with a formula character (CWE-1236).
pub open spec fn csv_escaped(s: Seq<char>) -> Seq<char> {
    let e = double_quotes(s);
    if e.len() > 0 && is_formula_start(e[0]) {
        seq!['\''] + e
    } else {
        e
    }
}

/// Escapes a CSV field value: doubles internal double quotes and prefixes a
/// single quote if the value starts with `=`, `+`, `-` or `@`.
pub fn csv_escape(s: &str) -> (r: String)
    ensures
        r@ == csv_escaped(s@),
{
    let cs = chars_of(s);
    let mut escaped = String::new();
    let mut i: usize = 0;
    while i < cs.len()
        invariant
            i <= cs.len(),
            cs@ == s@,
            escaped@ == double_quotes(s@.take(i as int)),
        decreases cs.len() - i,
    {
        let c = cs[i];
        proof {
            assert(s@.take(i + 1) =~= s@.take(i as int).push(c));
            lemma_double_quotes_push(s@.take(i as int), c);
        }
        if c == '"' {
            push_char(&mut escaped, '"');
            push_char(&mut escaped, '"');
        } else {
            push_char(&mut escaped, c);
        }
        i = i + 1;
    }
    assert(s@.take(cs.len() as int) =~= s@);
    let ec = chars_of(escaped.as_str());
    if ec.len() > 0 && (ec[0] == '=' || ec[0] == '+' || ec[0] == '-' || ec[0] == '@') {
        let mut out = String::new();
        push_char(&mut out, '\'');
        push_str(&mut out, escaped.as_str());
        assert(out@ =~= csv_escaped(s@));
        out
    } else {
        escaped
    }
}

/// The first character of an escaped value never starts a formula.
pub proof fn law_csv_escape_never_starts_formula(s: Seq<char>)
    ensures
        csv_escaped(s).len() > 0 ==> !is_formula_start(csv_escaped(s)[0]),
{
}

/// Escaping loses nothing: the characters of the value come back when the
/// prefix is dropped and doubled quotes are read as one.
pub proof fn law_csv_escape_round_trip(s: Seq<char>)
    ensures
        undouble_quotes(double_quotes(s)) == s,
    decreases s.len(),
{
    if s.len() > 0 {
        let e = double_quotes(s);
        let rest = double_quotes(s.drop_first());
        law_csv_escape_round_trip(s.drop_first());
        if s[0] == '"' {
            assert(e.subrange(2, e.len() as int) =~= rest);
        } else {
            assert(e.subrange(1, e.len() as int) =~= rest);
        }
        assert(undouble_quotes(e) =~= s);
    }
}

/// Number of double quotes at the start of the text.
pub open spec fn leading_quotes(e: Seq<char>) -> nat
    decreases e.len(),
{
    if e.len() > 0 && e[0] == '"' {
        1 + leading_quotes(e.drop_first())
    } else {
        0
    }
}

/// Every maximal run of double quotes in the text has even length.
pub open spec fn quote_runs_even(e: Seq<char>) -> bool
    decreases e.len(),
{
    if e.len() == 0 {
        true
    } else if e[0] == '"' {
        let k = leading_quotes(e);
        proof {
            lemma_leading_quotes_bound(e);
            assert(k >= 1);
        }
        k % 2 == 0 && quote_runs_even(e.skip(k as int))
    } else {
        quote_runs_even(e.drop_first())
    }
}

/// The leading quotes lie within the text and end at a non-quote.
pub proof fn lemma_leading_quotes_bound(e: Seq<char>)
    ensures
        leading_quotes(e) <= e.len(),
        leading_quotes(e) < e.len() ==> e[leading_quotes(e) as int] != '"',
    decreases e.len(),
{
    if e.len() > 0 && e[0] == '"' {
        lemma_leading_quotes_bound(e.drop_first());
        let k = leading_quotes(e.drop_first());
        if k < e.drop_first().len() {
            assert(e[(k + 1) as int] == e.drop_first()[k as int]);
        }
    }
}

proof fn lemma_double_quotes_runs(s: Seq<char>)
    ensures
        quote_runs_even(double_quotes(s)),
    decreases s.len(),
{
    if s.len() > 0 {
        let rest = double_quotes(s.drop_first());
        let e = double_quotes(s);
        lemma_double_quotes_runs(s.drop_first());
        if s[0] == '"' {
            assert(e =~= seq!['"', '"'] + rest);
            assert(e.drop_first().drop_first() =~= rest);
            assert(leading_quotes(e) == 2 + leading_quotes(rest)) by {
                assert(e.drop_first() =~= seq!['"'] + rest);
                assert(leading_quotes(e.drop_first()) == 1 + leading_quotes(rest));
            }
            lemma_leading_quotes_bound(rest);
            if rest.len() > 0 && rest[0] == '"' {
                assert(e.skip(leading_quotes(e) as int) =~= rest.skip(leading_quotes(rest) as int));
            } else {
                assert(leading_quotes(rest) == 0);
                assert(e.skip(2) =~= rest);
            }
        } else {
            assert(e =~= seq![s[0]] + rest);
            assert(e.drop_first() =~= rest);
        }
    }
}

/// Every maximal run of double quotes in an escaped value has even length, so
/// the value between a pair of double quotes is one well-formed CSV field.
pub proof fn law_csv_escape_quote_runs_even(s: Seq<char>)
    ensures
        quote_runs_even(csv_escaped(s)),
{
    let e = double_quotes(s);
    lemma_double_quotes_runs(s);
    if e.len() > 0 && is_formula_start(e[0]) {
        assert((seq!['\''] + e).drop_first() =~= e);
    }
}

/// A value starting with `=`, `+`, `-` or `@` is written behind a single
/// quote; any other value is written without one. Either way the rest reads
/// back as the value when doubled quotes are read as one.
pub proof fn law_csv_escape_guards_formulas(s: Seq<char>)
    ensures
        s.len() > 0 && (s[0] == '=' || s[0] == '+' || s[0] == '-' || s[0] == '@') ==> csv_escaped(s).len() > 0
            && csv_escaped(s)[0] == '\'' && undouble_quotes(csv_escaped(s).drop_first()) == s,
        !(s.len() > 0 && (s[0] == '=' || s[0] == '+' || s[0] == '-' || s[0] == '@')) ==> undouble_quotes(
            csv_escaped(s),
        ) == s,
{
    law_csv_escape_round_trip(s);
    let e = double_quotes(s);
    if s.len() > 0 {
        assert(e == quote_piece(s[0]) + double_quotes(s.drop_first()));
        if s[0] == '"' {
            assert(e[0] == '"');
        } else {
            assert(e[0] == s[0]);
        }
        assert((seq!['\''] + e).drop_first() =~= e);
    } else {
        assert(e.len() == 0);
    }
}

/// Reading a doubled-quote text back: a pair of double quotes is one.
pub open spec fn undouble_quotes(e: Seq<char>) -> Seq<char>
    decreases e.len(),
{
    if e.len() == 0 {
        Seq::empty()
    } else if e.len() >= 2 && e[0] == '"' && e[1] == '"' {
        seq!['"'] + undouble_quotes(e.subrange(2, e.len() as int))
    } else {
        seq![e[0]] + undouble_quotes(e.subrange(1, e.len() as int))
    }
}

/// A timestamp that the date-time rendering accepts.
pub open spec fn ts_renderable(ms: i64) -> bool {
    ms > -1000
}

/// A note whose timestamps can be exported.
pub open spec fn exportable(n: Note) -> bool {
    &&& ts_renderable(n.created_at)
    &&& ts_renderable(n.updated_at)
    &&& (n.completed_at matches Some(ca) ==> ts_renderable(ca) && i64::MIN <= ca - n.created_at <= i64::MAX)
    &&& (n.due_date matches Some(t) ==> ts_renderable(t))
}

/// The date-time text of an optional timestamp (empty when absent).
pub open spec fn opt_iso(o: Option<i64>) -> Seq<char> {
    match o {
        Some(t) => iso_of(t),
        None => Seq::empty(),
    }
}

/// Whole minutes from creation to completion; `0` for less than a minute
/// backwards, empty for more than that backwards or when not completed.
pub open spec fn duration_text(n: Note) -> Seq<char> {
    match n.completed_at {
        Some(ca) => {
            let diff = ca - n.created_at;
            if diff >= 0 {
                dec((diff / 60000) as nat)
            } else if diff > -60000 {
                seq!['0']
            } else {
                Seq::empty()
            }
        },
        None => Seq::empty(),
    }
}

/// The minutes column: for a note completed no earlier than it was created,
/// a string of digits denoting the whole minutes between the two; `0` when
/// completion is less than a minute before creation; empty when it is a
/// minute or more before, or when the note is not completed.
pub proof fn law_duration_minutes(n: Note)
    ensures
        match n.completed_at {
            Some(ca) => {
                &&& ca - n.created_at >= 0 ==> duration_text(n).len() >= 1
                    && digits_value(duration_text(n)) * 60000 <= ca - n.created_at
                    && ca - n.created_at < (digits_value(duration_text(n)) + 1) * 60000
                &&& ca - n.created_at >= 0 ==> forall|i: int|
                    0 <= i < duration_text(n).len() ==> is_digit(#[trigger] duration_text(n)[i])
                &&& -60000 < ca - n.created_at < 0 ==> duration_text(n) == seq!['0']
                &&& ca - n.created_at <= -60000 ==> duration_text(n).len() == 0
            },
            None => duration_text(n).len() == 0,
        },
{
    if let Some(ca) = n.completed_at {
        let diff = ca - n.created_at;
        if diff >= 0 {
            let m = (diff / 60000) as nat;
            law_dec_denotes(m);
            vstd::arithmetic::div_mod::lemma_fundamental_div_mod(diff, 60000);
        }
    }
}

/// A field in double quotes.
pub open spec fn quoted(x: Seq<char>) -> Seq<char> {
    seq!['"'] + x + seq!['"']
}

/// The status, kind and parent columns of a note's line (with separators).
pub open spec fn row_kind_part(n: Note) -> Seq<char> {
    let status = if n.completed { "已完成"@ } else { "未完成"@ };
    let kind = if n.parent_id is Some { "子任务"@ } else { "主任务"@ };
    let parent = match opt_view(n.parent_id) { Some(p) => p, None => Seq::empty() };
    quoted(status) + seq![','] + quoted(kind) + seq![','] + quoted(parent) + seq![',']
}

/// The four date-time columns of a note's line (with separators).
pub open spec fn row_dates_part(n: Note) -> Seq<char> {
    quoted(iso_of(n.created_at)) + seq![','] + quoted(opt_iso(n.completed_at)) + seq![',']
        + quoted(iso_of(n.updated_at)) + seq![','] + quoted(opt_iso(n.due_date)) + seq![',']
}

/// The CSV line of one note: id, escaped title, status, kind, parent id,
/// colour, created, completed, updated, due, minutes taken.
#[verifier::opaque]
pub open spec fn csv_row(n: Note) -> Seq<char> {
    quoted(n.id@) + seq![','] + quoted(csv_escaped(n.title@)) + seq![','] + row_kind_part(n)
        + quoted(n.color@) + seq![','] + row_dates_part(n) + duration_text(n) + seq!['\n']
}

/// The CSV lines of the notes, in order.
pub open spec fn csv_rows(s: Seq<Note>) -> Seq<char>
    decreases s.len(),
{
    if s.len() == 0 {
        Seq::empty()
    } else {
        csv_rows(s.drop_last()) + csv_row(s.last())
    }
}

/// The header line (with a UTF-8 byte order mark so spreadsheets read it as UTF-8).
pub open spec fn csv_header() -> Seq<char> {
    "\u{feff}id,标题,状态,类型,父任务ID,颜色,创建时间,完成时间,更新时间,截止日期,耗时(分钟)\n"@
}

/// Whether every note of the list can be exported.
pub fn all_exportable(notes: &Vec<Note>) -> (r: bool)
    ensures
        r == forall|i: int| 0 <= i < notes@.len() ==> exportable(#[trigger] notes@[i]),
{
    let mut i: usize = 0;
    while i < notes.len()
        invariant
            i <= notes.len(),
            forall|j: int| 0 <= j < i ==> exportable(#[trigger] notes@[j]),
        decreases notes.len() - i,
    {
        let n = &notes[i];
        if !(n.created_at > -1000 && n.updated_at > -1000) {
            return false;
        }
        match n.completed_at {
            Some(ca) => {
                if ca <= -1000 {
                    return false;
                }
                let diff: i128 = (ca as i128) - (n.created_at as i128);
                if diff < (i64::MIN as i128) || diff > (i64::MAX as i128) {
                    return false;
                }
            },
            None => {},
        }
        match n.due_date {
            Some(t) => {
                if t <= -1000 {
                    return false;
                }
            },
            None => {},
        }
        i = i + 1;
    }
    true
}

fn push_quoted(out: &mut String, x: &str)
    ensures
        final(out)@ == old(out)@ + quoted(x@),
{
    push_char(out, '"');
    push_str(out, x);
    push_char(out, '"');
    assert(out@ =~= old(out)@ + quoted(x@));
}

fn push_opt_iso(out: &mut String, o: Option<i64>)
    requires
        o matches Some(t) ==> ts_renderable(t),
    ensures
        final(out)@ == old(out)@ + quoted(opt_iso(o)),
{
    match o {
        Some(t) => {
            let s = ts_to_iso(t);
            push_quoted(out, s.as_str());
        },
        None => {
            push_quoted(out, "");
            proof {
                reveal_strlit("");
            }
        },
    }
}

fn push_duration(out: &mut String, n: &Note)
    requires
        exportable(*n),
    ensures
        final(out)@ == old(out)@ + duration_text(*n),
{
    match n.completed_at {
        Some(ca) => {
            let diff: i64 = ca - n.created_at;
            if diff >= 0 {
                push_dec(out, (diff as u64) / 60000);
            } else if diff > -60000 {
                push_char(out, '0');
            }
            assert(out@ =~= old(out)@ + duration_text(*n));
        },
        None => {
            assert(out@ =~= old(out)@ + duration_text(*n));
        },
    }
}

fn push_kind_part(out: &mut String, n: &Note)
    ensures
        final(out)@ == old(out)@ + row_kind_part(*n),
{
    let ghost start = out@;
    if n.completed {
        push_quoted(out, "已完成");
    } else {
        push_quoted(out, "未完成");
    }
    push_char(out, ',');
    if n.parent_id.is_some() {
        push_quoted(out, "子任务");
    } else {
        push_quoted(out, "主任务");
    }
    push_char(out, ',');
    match &n.parent_id {
        Some(p) => push_quoted(out, p.as_str()),
        None => {
            push_quoted(out, "");
            proof {
                reveal_strlit("");
            }
        },
    }
    push_char(out, ',');
    assert(out@ =~= start + row_kind_part(*n));
}

fn push_dates_part(out: &mut String, n: &Note)
    requires
        exportable(*n),
    ensures
        final(out)@ == old(out)@ + row_dates_part(*n),
{
    let ghost start = out@;
    let created = ts_to_iso(n.created_at);
    push_quoted(out, created.as_str());
    push_char(out, ',');
    push_opt_iso(out, n.completed_at);
    push_char(out, ',');
    let updated = ts_to_iso(n.updated_at);
    push_quoted(out, updated.as_str());
    push_char(out, ',');
    push_opt_iso(out, n.due_date);
    push_char(out, ',');
    assert(out@ =~= start + row_dates_part(*n));
}

fn push_csv_row(out: &mut String, n: &Note)
    requires
        exportable(*n),
    ensures
        final(out)@ == old(out)@ + csv_row(*n),
{
    let ghost start = out@;
    push_quoted(out, n.id.as_str());
    push_char(out, ',');
    let title = csv_escape(n.title.as_str());
    push_quoted(out, title.as_str());
    push_char(out, ',');
    let ghost a = out@;
    push_kind_part(out, n);
    push_quoted(out, n.color.as_str());
    push_char(out, ',');
    let ghost b = out@;
    push_dates_part(out, n);
    push_duration(out, n);
    push_char(out, '\n');
    assert(a =~= start + quoted(n.id@) + seq![','] + quoted(csv_escaped(n.title@)) + seq![',']);
    assert(b =~= a + row_kind_part(*n) + quoted(n.color@) + seq![',']);
    reveal(csv_row);
    assert(out@ =~= start + csv_row(*n));
}

/// Exports all notes in the given format. Only `csv` is supported: a header
/// line, then one line per note in the given sequence. Any other format is
/// refused with an error naming it, whatever the notes hold.
pub fn export_notes(notes: &Vec<Note>, format: &str) -> (r: Result<String, String>)
    requires
        format@ == "csv"@ ==> forall|i: int| 0 <= i < notes@.len() ==> exportable(#[trigger] notes@[i]),
    ensures
        format@ == "csv"@ ==> (r matches Ok(s) && s@ == csv_header() + csv_rows(notes@)),
        format@ != "csv"@ ==> (r matches Err(e) && e@ == "不支持的导出格式: "@ + format@),
{
    if str_eq(format, "csv") {
        let mut csv = String::from_str("\u{feff}id,标题,状态,类型,父任务ID,颜色,创建时间,完成时间,更新时间,截止日期,耗时(分钟)\n");
        let mut i: usize = 0;
        while i < notes.len()
            invariant
                i <= notes.len(),
                forall|j: int| 0 <= j < notes@.len() ==> exportable(#[trigger] notes@[j]),
                csv@ == csv_header() + csv_rows(notes@.take(i as int)),
            decreases notes.len() - i,
        {
            proof {
                assert(notes@.take(i + 1).drop_last() =~= notes@.take(i as int));
                assert(notes@.take(i + 1).last() == notes@[i as int]);
            }
            push_csv_row(&mut csv, &notes[i]);
            i = i + 1;
        }
        assert(notes@.take(notes.len() as int) =~= notes@);
        Ok(csv)
    } else {
        let mut e = String::from_str("不支持的导出格式: ");
        push_str(&mut e, format);
        Err(e)
    }
}

/// Soft-deleted notes are purged once deleted longer than this (30 days, in
/// milliseconds).
pub const PURGE_AFTER_MS: i64 = 2592000000;

/// A reminder is due when it fell within this last stretch of time (60 s,
/// in milliseconds) before `now`.
pub const REMINDER_WINDOW_MS: i64 = 60000;

/// The deletion time before which tombstones are purged at `now`.
pub fn purge_cutoff(now: i64) -> (r: i64)
    requires
        now >= i64::MIN + PURGE_AFTER_MS,
    ensures
        r == now - PURGE_AFTER_MS,
{
    now - PURGE_AFTER_MS
}

/// The start (exclusive) of the stretch in which a reminder counts as due at
/// `now`.
pub fn reminder_window_start(now: i64) -> (r: i64)
    requires
        now >= i64::MIN + REMINDER_WINDOW_MS,
    ensures
        r == now - REMINDER_WINDOW_MS,
{
    now - REMINDER_WINDOW_MS
}

} // verus!
