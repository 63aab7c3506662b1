//! Calendar date and time of day of a match, and the grammar of the
//! date line found on a match page (day, Polish genitive month name,
//! year, and an `HH:MM` clock time).

use vstd::prelude::*;

verus! {

use crate::num::{all_digits, digits_val, parse_u8_range, parse_u32_range};
use crate::text::{chars_vec, seq_eq_nocase, split_spaces, ws_tokens, eq_nocase_lit, find_char, prefix_to, lemma_prefix_to_run};

/// A Gregorian leap year.
pub open spec fn is_leap_year(y: int) -> bool {
    y % 4 == 0 && (y % 100 != 0 || y % 400 == 0)
}

/// Days in a month of the Gregorian calendar.
pub open spec fn days_in_month(y: int, m: int) -> int {
    if m == 2 {
        if is_leap_year(y) {
            29
        } else {
            28
        }
    } else if m == 4 || m == 6 || m == 9 || m == 11 {
        30
    } else {
        31
    }
}

/// Calendar date and time of day of a match, in the site's local
/// time.
#[derive(Debug, Clone, Copy, PartialEq, Eq, Structural)]
pub struct GameDate {
    pub year: u16,
    pub month: u8,
    pub day: u8,
    pub hour: u8,
    pub minute: u8,
}

impl GameDate {
    /// The fields form a valid Gregorian calendar date and clock
    /// time.
    pub open spec fn wf(self) -> bool {
        &&& 1 <= self.year <= 9999
        &&& 1 <= self.month <= 12
        &&& 1 <= self.day <= days_in_month(self.year as int, self.month as int)
        &&& self.hour < 24
        &&& self.minute < 60
    }

    /// Builds a date, accepting exactly the valid calendar dates.
    pub fn new(year: u16, month: u8, day: u8, hour: u8, minute: u8) -> (r: Option<GameDate>)
        ensures
            r is Some <==> (GameDate { year, month, day, hour, minute }).wf(),
            r is Some ==> r->0 == (GameDate { year, month, day, hour, minute }),
    {
        let d = GameDate { year, month, day, hour, minute };
        if 1 <= year && year <= 9999 && 1 <= month && month <= 12 && 1 <= day && day
            <= days_in_month_exec(year, month) && hour < 24 && minute < 60 {
            Some(d)
        } else {
            None
        }
    }
}

/// Executable form of [`is_leap_year`].
pub fn leap_year(y: u16) -> (r: bool)
    ensures
        r == is_leap_year(y as int),
{
    y % 4 == 0 && (y % 100 != 0 || y % 400 == 0)
}

/// Executable form of [`days_in_month`].
pub fn days_in_month_exec(y: u16, m: u8) -> (r: u8)
    ensures
        r == days_in_month(y as int, m as int),
{
    if m == 2 {
        if leap_year(y) {
            29
        } else {
            28
        }
    } else if m == 4 || m == 6 || m == 9 || m == 11 {
        30
    } else {
        31
    }
}

/// Month number for a Polish genitive month name, compared without
/// regard to ASCII letter case.
pub open spec fn month_of(s: Seq<char>) -> Option<u8> {
    if seq_eq_nocase(s, "stycznia"@) {
        Option::Some(1u8)
    } else if seq_eq_nocase(s, "lutego"@) {
        Option::Some(2u8)
    } else if seq_eq_nocase(s, "marca"@) {
        Option::Some(3u8)
    } else if seq_eq_nocase(s, "kwietnia"@) {
        Option::Some(4u8)
    } else if seq_eq_nocase(s, "maja"@) {
        Option::Some(5u8)
    } else if seq_eq_nocase(s, "czerwca"@) {
        Option::Some(6u8)
    } else if seq_eq_nocase(s, "lipca"@) {
        Option::Some(7u8)
    } else if seq_eq_nocase(s, "sierpnia"@) {
        Option::Some(8u8)
    } else if seq_eq_nocase(s, "września"@) {
        Option::Some(9u8)
    } else if seq_eq_nocase(s, "października"@) {
        Option::Some(10u8)
    } else if seq_eq_nocase(s, "listopada"@) {
        Option::Some(11u8)
    } else if seq_eq_nocase(s, "grudnia"@) {
        Option::Some(12u8)
    } else {
        Option::None
    }
}

/// Executable form of [`month_of`].
pub fn parse_month(tok: &Vec<char>) -> (r: Option<u8>)
    ensures
        r == month_of(tok@),
{
    if eq_nocase_lit(tok, "stycznia") {
        Some(1)
    } else if eq_nocase_lit(tok, "lutego") {
        Some(2)
    } else if eq_nocase_lit(tok, "marca") {
        Some(3)
    } else if eq_nocase_lit(tok, "kwietnia") {
        Some(4)
    } else if eq_nocase_lit(tok, "maja") {
        Some(5)
    } else if eq_nocase_lit(tok, "czerwca") {
        Some(6)
    } else if eq_nocase_lit(tok, "lipca") {
        Some(7)
    } else if eq_nocase_lit(tok, "sierpnia") {
        Some(8)
    } else if eq_nocase_lit(tok, "września") {
        Some(9)
    } else if eq_nocase_lit(tok, "października") {
        Some(10)
    } else if eq_nocase_lit(tok, "listopada") {
        Some(11)
    } else if eq_nocase_lit(tok, "grudnia") {
        Some(12)
    } else {
        None
    }
}

/// `s` without its trailing commas.
pub open spec fn strip_trailing_commas(s: Seq<char>) -> Seq<char>
    decreases s.len(),
{
    if s.len() > 0 && s.last() == ',' {
        strip_trailing_commas(s.drop_last())
    } else {
        s
    }
}

proof fn lemma_strip_commas_take(s: Seq<char>, k: int)
    requires
        0 <= k <= s.len(),
        forall|i: int| k <= i < s.len() ==> s[i] == ',',
        k == 0 || s[k - 1] != ',',
    ensures
        strip_trailing_commas(s) =~= s.take(k),
    decreases s.len() - k,
{
    if k == s.len() {
        assert(strip_trailing_commas(s) =~= s.take(k));
    } else {
        let t = s.drop_last();
        lemma_strip_commas_take(t, k);
        assert(t.take(k) =~= s.take(k));
    }
}

/// The clock-time grammar: the digits before the first colon are the
/// hour, those between the first and second colon (or the end) are
/// the minute; the hour must be below 24 and the minute below 60.
pub open spec fn time_value(s: Seq<char>) -> Option<(u8, u8)> {
    let k = prefix_to(s, ':') as int;
    if k == s.len() {
        Option::None
    } else {
        let hour_t = s.take(k);
        let rest = s.skip(k + 1);
        let minute_t = rest.take(prefix_to(rest, ':') as int);
        if hour_t.len() > 0 && all_digits(hour_t) && digits_val(hour_t) < 24 && minute_t.len() > 0
            && all_digits(minute_t) && digits_val(minute_t) < 60 {
            Option::Some((digits_val(hour_t) as u8, digits_val(minute_t) as u8))
        } else {
            Option::None
        }
    }
}

/// Executable form of [`time_value`].
pub fn parse_clock(tok: &Vec<char>) -> (r: Option<(u8, u8)>)
    ensures
        r == time_value(tok@),
{
    let n = tok.len();
    let j = match find_char(tok, 0, ':') {
        None => {
            proof {
                lemma_prefix_to_run(tok@, ':', n as int);
            }
            return None;
        },
        Some(j) => j,
    };
    proof {
        lemma_prefix_to_run(tok@, ':', j as int);
    }
    let ghost rest = tok@.skip(j + 1);
    let k = match find_char(tok, j + 1, ':') {
        None => {
            proof {
                assert(forall|i: int| 0 <= i < rest.len() ==> rest[i] != ':');
                lemma_prefix_to_run(rest, ':', rest.len() as int);
            }
            n
        },
        Some(k) => {
            proof {
                assert(forall|i: int| 0 <= i < k - (j + 1) ==> rest[i] != ':');
                assert(rest[k - (j + 1)] == tok@[k as int]);
                lemma_prefix_to_run(rest, ':', k - (j + 1));
            }
            k
        },
    };
    proof {
        assert(tok@.take(j as int) =~= tok@.subrange(0, j as int));
        assert(rest.take(k - (j + 1)) =~= tok@.subrange(j + 1, k as int));
    }
    let hour = match parse_u8_range(tok, 0, j) {
        None => {
            return None;
        },
        Some(h) => h,
    };
    let minute = match parse_u8_range(tok, j + 1, k) {
        None => {
            return None;
        },
        Some(m) => m,
    };
    if hour < 24 && minute < 60 {
        Some((hour, minute))
    } else {
        None
    }
}

/// The date-line grammar.  The first four whitespace-separated
/// tokens are the day of the month, the Polish month name, the year
/// (shedding trailing commas), and the clock time; the calendar
/// fields must form a valid date.
pub open spec fn date_value(s: Seq<char>) -> Option<GameDate> {
    let toks = ws_tokens(s);
    if toks.len() < 4 {
        Option::None
    } else {
        let day_t = toks[0];
        let year_t = strip_trailing_commas(toks[2]);
        if day_t.len() > 0 && all_digits(day_t) && digits_val(day_t) <= u8::MAX && year_t.len() > 0
            && all_digits(year_t) && digits_val(year_t) <= 9999 {
            match (month_of(toks[1]), time_value(toks[3])) {
                (Option::Some(m), Option::Some((hour, minute))) => {
                    let d = GameDate {
                        year: digits_val(year_t) as u16,
                        month: m,
                        day: digits_val(day_t) as u8,
                        hour,
                        minute,
                    };
                    if d.wf() {
                        Option::Some(d)
                    } else {
                        Option::None
                    }
                },
                _ => Option::None,
            }
        } else {
            Option::None
        }
    }
}

/// Decodes the date line of a match page.  Returns exactly what the
/// date-line grammar assigns to the text, and nothing for any other
/// string.
pub fn parse_date(text: &str) -> (r: Option<GameDate>)
    ensures
        r == date_value(text@),
{
    let v = chars_vec(text);
    let toks = split_spaces(&v);
    if toks.len() < 4 {
        return None;
    }
    proof {
        assert(toks@[0].deep_view() == ws_tokens(text@)[0]);
        assert(toks@[1].deep_view() == ws_tokens(text@)[1]);
        assert(toks@[2].deep_view() == ws_tokens(text@)[2]);
        assert(toks@[3].deep_view() == ws_tokens(text@)[3]);
        assert(toks@[0].deep_view() =~= toks@[0]@);
        assert(toks@[1].deep_view() =~= toks@[1]@);
        assert(toks@[2].deep_view() =~= toks@[2]@);
        assert(toks@[3].deep_view() =~= toks@[3]@);
    }
    let day_tok = &toks[0];
    let n0 = day_tok.len();
    let day = match parse_u8_range(day_tok, 0, n0) {
        None => {
            proof {
                assert(day_tok@.subrange(0, n0 as int) =~= day_tok@);
            }
            return None;
        },
        Some(d) => {
            proof {
                assert(day_tok@.subrange(0, n0 as int) =~= day_tok@);
            }
            d
        },
    };
    let month = match parse_month(&toks[1]) {
        None => {
            return None;
        },
        Some(m) => m,
    };
    let year_tok = &toks[2];
    let mut yend = year_tok.len();
    while yend > 0 && year_tok[yend - 1] == ','
        invariant
            yend <= year_tok@.len(),
            forall|i: int| yend <= i < year_tok@.len() ==> year_tok@[i] == ',',
        decreases yend,
    {
        yend = yend - 1;
    }
    proof {
        lemma_strip_commas_take(year_tok@, yend as int);
        assert(year_tok@.take(yend as int) =~= year_tok@.subrange(0, yend as int));
    }
    let year32 = match parse_u32_range(year_tok, 0, yend) {
        None => {
            return None;
        },
        Some(y) => y,
    };
    if year32 > 9999 {
        return None;
    }
    let year = year32 as u16;
    let (hour, minute) = match parse_clock(&toks[3]) {
        None => {
            return None;
        },
        Some(hm) => hm,
    };
    GameDate::new(year, month, day, hour, minute)
}

} // verus!
