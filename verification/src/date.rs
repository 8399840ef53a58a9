//! Calendar dates as the catalog reads them, ISO-style parsing through
//! `chrono`, and the two file names a date is looked up under.

use chrono::Datelike;
use vstd::prelude::*;

use crate::text::{
    decimal, is_digit, lemma_decimal_injective, lemma_decimal_shape, lemma_split_at_last_dash,
    lemma_zero_padded, no_dash, push_decimal, push_zero_padded, zero_padded,
};

verus! {

/// A calendar date: proleptic Gregorian year, month `1..=12`, day `1..=31`.
#[derive(Clone, Copy, Debug, PartialEq, Eq, Structural)]
pub struct Date {
    pub year: i32,
    pub month: u32,
    pub day: u32,
}

#[verifier::external_type_specification]
#[verifier::external_body]
pub struct ExParseError(chrono::ParseError);

/// A date string that does not parse as `YYYY-MM-DD`; carries `chrono`'s
/// reason.
#[derive(Debug)]
pub struct DateError(pub chrono::ParseError);

/// What `chrono` parses from `s` under the format `%Y-%m-%d`, as
/// `(year, month, day)`, or `None` when it rejects `s`.
pub uninterp spec fn chrono_parse_ymd(s: Seq<char>) -> Option<(i32, u32, u32)>;

/// Calls `chrono::NaiveDate::parse_from_str(s, "%Y-%m-%d")` and reads the
/// year, month and day of the parsed date. The contract names the outcome:
/// `chrono`'s acceptance rules (signs, padding, calendar validity) are not
/// restated; the error value is carried through unexamined. Of a parsed date
/// it states what `chrono::Datelike` documents: the month is in `1..=12` and
/// the day in `1..=31`.
#[verifier::external_body]
fn chrono_parse_iso_date(s: &str) -> (res: Result<(i32, u32, u32), chrono::ParseError>)
    ensures
        res is Ok <==> chrono_parse_ymd(s@) is Some,
        res matches Ok(t) ==> chrono_parse_ymd(s@) == Some(t),
        res matches Ok(t) ==> 1 <= t.1 <= 12 && 1 <= t.2 <= 31,
{
    match chrono::NaiveDate::parse_from_str(s, "%Y-%m-%d") {
        Ok(d) => Ok((d.year(), d.month(), d.day())),
        Err(e) => Err(e),
    }
}

/// Parse a `YYYY-MM-DD` string into a [`Date`].
pub fn parse_date(s: &str) -> (res: Result<Date, DateError>)
    ensures
        res is Ok <==> chrono_parse_ymd(s@) is Some,
        res matches Ok(d) ==> chrono_parse_ymd(s@) == Some((d.year, d.month, d.day)),
        res matches Ok(d) ==> 1 <= d.month <= 12 && 1 <= d.day <= 31,
{
    match chrono_parse_iso_date(s) {
        Ok((year, month, day)) => Ok(Date { year, month, day }),
        Err(e) => Err(DateError(e)),
    }
}

/// The year as `%Y` writes it: zero-padded to four digits inside `0..=9999`,
/// otherwise with an explicit sign.
pub open spec fn year_text(y: int) -> Seq<char> {
    if 0 <= y <= 9999 {
        zero_padded(y as nat, 4)
    } else if y < 0 {
        seq!['-'] + zero_padded((-y) as nat, 4)
    } else {
        seq!['+'] + decimal(y as nat)
    }
}

/// `YYYY-MM-DD` for `d`.
pub open spec fn ymd_text(d: Date) -> Seq<char> {
    year_text(d.year as int) + seq!['-'] + zero_padded(d.month as nat, 2) + seq!['-']
        + zero_padded(d.day as nat, 2)
}

/// `MM-DD` for `d`.
pub open spec fn md_text(d: Date) -> Seq<char> {
    zero_padded(d.month as nat, 2) + seq!['-'] + zero_padded(d.day as nat, 2)
}

/// The file holding the stamp that fires on `d` only.
pub open spec fn specific_name(d: Date) -> Seq<char> {
    ymd_text(d) + ".json"@
}

/// The file holding the stamp that fires on `d`'s month and day every year.
pub open spec fn recurring_name(d: Date) -> Seq<char> {
    md_text(d) + ".json"@
}

/// `year_text` is injective on the years a date can hold.
pub proof fn lemma_year_text_injective(y1: i32, y2: i32)
    requires
        year_text(y1 as int) == year_text(y2 as int),
    ensures
        y1 == y2,
{
    let t1 = year_text(y1 as int);
    let t2 = year_text(y2 as int);
    lemma_zero_padded(0, 0, 4);
    if 0 <= y1 <= 9999 {
        lemma_zero_padded(y1 as nat, 0, 4);
        assert(is_digit(t1[0]));
    }
    if 0 <= y2 <= 9999 {
        lemma_zero_padded(y2 as nat, 0, 4);
        assert(is_digit(t2[0]));
    }
    if 0 <= y1 <= 9999 && 0 <= y2 <= 9999 {
        lemma_zero_padded(y1 as nat, y2 as nat, 4);
    } else if y1 < 0 && y2 < 0 {
        assert(t1.drop_first() == zero_padded((-y1) as nat, 4));
        assert(t2.drop_first() == zero_padded((-y2) as nat, 4));
        lemma_zero_padded((-y1) as nat, (-y2) as nat, 4);
    } else if y1 > 9999 && y2 > 9999 {
        assert(t1.drop_first() == decimal(y1 as nat));
        assert(t2.drop_first() == decimal(y2 as nat));
        lemma_decimal_injective(y1 as nat, y2 as nat);
    } else {
        if y1 < 0 {
            assert(t1[0] == '-');
        } else if y1 > 9999 {
            assert(t1[0] == '+');
        }
        if y2 < 0 {
            assert(t2[0] == '-');
        } else if y2 > 9999 {
            assert(t2[0] == '+');
        }
        assert(t1[0] != t2[0]);
    }
}

/// Zero-padded numbers and the `.json` suffix hold no `'-'`.
proof fn lemma_parts_dash_free(n: nat, width: nat)
    ensures
        no_dash(zero_padded(n, width)),
        no_dash(zero_padded(n, width) + ".json"@),
{
    lemma_zero_padded(n, 0, width);
    reveal_strlit(".json");
    let z = zero_padded(n, width);
    assert forall|i: int| 0 <= i < (z + ".json"@).len() implies #[trigger] (z + ".json"@)[i]
        != '-' by {
        if i < z.len() {
            assert(is_digit(z[i]));
        }
    }
}

/// `specific_name(d)` split at its last dash.
proof fn lemma_specific_name_split(d: Date)
    ensures
        specific_name(d) == (year_text(d.year as int) + seq!['-'] + zero_padded(d.month as nat, 2))
            + seq!['-'] + (zero_padded(d.day as nat, 2) + ".json"@),
{
    assert(specific_name(d) =~= (year_text(d.year as int) + seq!['-'] + zero_padded(
        d.month as nat,
        2,
    )) + seq!['-'] + (zero_padded(d.day as nat, 2) + ".json"@));
}

/// `recurring_name(d)` split at its last dash.
proof fn lemma_recurring_name_split(d: Date)
    ensures
        recurring_name(d) == zero_padded(d.month as nat, 2) + seq!['-'] + (zero_padded(
            d.day as nat,
            2,
        ) + ".json"@),
{
    assert(recurring_name(d) =~= zero_padded(d.month as nat, 2) + seq!['-'] + (zero_padded(
        d.day as nat,
        2,
    ) + ".json"@));
}

/// Two days with one date-specific file name are the same day: a
/// date-specific stamp fires on one date only.
pub proof fn lemma_specific_name_injective(d1: Date, d2: Date)
    requires
        specific_name(d1) == specific_name(d2),
    ensures
        d1 == d2,
{
    lemma_specific_name_split(d1);
    lemma_specific_name_split(d2);
    lemma_parts_dash_free(d1.day as nat, 2);
    lemma_parts_dash_free(d2.day as nat, 2);
    lemma_parts_dash_free(d1.month as nat, 2);
    lemma_parts_dash_free(d2.month as nat, 2);
    let a1 = year_text(d1.year as int) + seq!['-'] + zero_padded(d1.month as nat, 2);
    let a2 = year_text(d2.year as int) + seq!['-'] + zero_padded(d2.month as nat, 2);
    let b1 = zero_padded(d1.day as nat, 2) + ".json"@;
    let b2 = zero_padded(d2.day as nat, 2) + ".json"@;
    lemma_split_at_last_dash(a1, b1, a2, b2);
    lemma_split_at_last_dash(
        year_text(d1.year as int),
        zero_padded(d1.month as nat, 2),
        year_text(d2.year as int),
        zero_padded(d2.month as nat, 2),
    );
    reveal_strlit(".json");
    assert(zero_padded(d1.day as nat, 2) =~= b1.subrange(0, b1.len() - 5));
    assert(zero_padded(d2.day as nat, 2) =~= b2.subrange(0, b2.len() - 5));
    lemma_year_text_injective(d1.year, d2.year);
    lemma_zero_padded(d1.month as nat, d2.month as nat, 2);
    lemma_zero_padded(d1.day as nat, d2.day as nat, 2);
}

/// Two days with one recurring file name share their month and day.
pub proof fn lemma_recurring_name_injective(d1: Date, d2: Date)
    requires
        recurring_name(d1) == recurring_name(d2),
    ensures
        d1.month == d2.month,
        d1.day == d2.day,
{
    lemma_recurring_name_split(d1);
    lemma_recurring_name_split(d2);
    lemma_parts_dash_free(d1.day as nat, 2);
    lemma_parts_dash_free(d2.day as nat, 2);
    let b1 = zero_padded(d1.day as nat, 2) + ".json"@;
    let b2 = zero_padded(d2.day as nat, 2) + ".json"@;
    lemma_split_at_last_dash(zero_padded(d1.month as nat, 2), b1, zero_padded(d2.month as nat, 2), b2);
    reveal_strlit(".json");
    assert(zero_padded(d1.day as nat, 2) =~= b1.subrange(0, b1.len() - 5));
    assert(zero_padded(d2.day as nat, 2) =~= b2.subrange(0, b2.len() - 5));
    lemma_zero_padded(d1.month as nat, d2.month as nat, 2);
    lemma_zero_padded(d1.day as nat, d2.day as nat, 2);
}

/// A date-specific file name is never a recurring one, whatever the dates.
pub proof fn lemma_specific_never_recurring(d1: Date, d2: Date)
    ensures
        specific_name(d1) != recurring_name(d2),
{
    if specific_name(d1) == recurring_name(d2) {
        lemma_specific_name_split(d1);
        lemma_recurring_name_split(d2);
        lemma_parts_dash_free(d1.day as nat, 2);
        lemma_parts_dash_free(d2.day as nat, 2);
        lemma_parts_dash_free(d2.month as nat, 2);
        let a1 = year_text(d1.year as int) + seq!['-'] + zero_padded(d1.month as nat, 2);
        lemma_split_at_last_dash(
            a1,
            zero_padded(d1.day as nat, 2) + ".json"@,
            zero_padded(d2.month as nat, 2),
            zero_padded(d2.day as nat, 2) + ".json"@,
        );
        let i = year_text(d1.year as int).len() as int;
        assert(a1[i] == '-');
    }
}

fn push_year(s: &mut String, y: i32)
    ensures
        final(s)@ == old(s)@ + year_text(y as int),
{
    if 0 <= y && y <= 9999 {
        push_zero_padded(s, y as u64, 4);
    } else if y < 0 {
        s.append("-");
        proof {
            reveal_strlit("-");
        }
        let magnitude: i64 = -(y as i64);
        push_zero_padded(s, magnitude as u64, 4);
    } else {
        s.append("+");
        proof {
            reveal_strlit("+");
        }
        push_decimal(s, y as u64);
    }
}

fn push_month_day(s: &mut String, d: &Date)
    ensures
        final(s)@ == old(s)@ + md_text(*d),
{
    push_zero_padded(s, d.month as u64, 2);
    s.append("-");
    proof {
        reveal_strlit("-");
    }
    push_zero_padded(s, d.day as u64, 2);
}

/// `<YYYY-MM-DD>.json`: the file of the stamp that fires on `date` only.
pub fn specific_file_name(date: &Date) -> (name: String)
    ensures
        name@ == specific_name(*date),
{
    let mut s = String::new();
    push_year(&mut s, date.year);
    s.append("-");
    proof {
        reveal_strlit("-");
    }
    push_month_day(&mut s, date);
    s.append(".json");
    s
}

/// `<MM-DD>.json`: the file of the stamp that fires on `date`'s month and
/// day in every year.
pub fn recurring_file_name(date: &Date) -> (name: String)
    ensures
        name@ == recurring_name(*date),
{
    let mut s = String::new();
    push_month_day(&mut s, date);
    s.append(".json");
    s
}

} // verus!
