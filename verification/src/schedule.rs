use vstd::prelude::*;

verus! {

/// Teaching weeks counted per term.
pub const WEEKS_PER_TERM: i32 = 30;

/// Terms per school year.
pub const TERMS_PER_YEAR: i32 = 2;

/// Date counts per school year.
pub open spec fn counts_per_year() -> int {
    (WEEKS_PER_TERM as int) * (TERMS_PER_YEAR as int)
}

/// School year that date count `d` refers to, counting back from `now_year`.
pub open spec fn count_year(now_year: int, d: int) -> int {
    now_year - d / counts_per_year()
}

/// Term (1 or 2) that date count `d` refers to.
pub open spec fn count_term(d: int) -> int {
    (d % counts_per_year()) / (WEEKS_PER_TERM as int) + 1
}

/// Teaching week (starting at 1) that date count `d` refers to.
pub open spec fn count_week(d: int) -> int {
    d % (WEEKS_PER_TERM as int) + 1
}

/// Maps a date count onto the (school year, term, week) it stands for:
/// count 0 is week 1 of the first term of `now_year`, the counts go
/// through the weeks of a term, then the terms of a year, then back one
/// school year at a time.
pub fn date_count_to_year_term_week(now_year: i32, date_count: i32) -> (r: (i32, i32, i64))
    requires
        0 <= date_count,
        i32::MIN + (date_count as int) / counts_per_year() <= now_year,
    ensures
        r.0 == count_year(now_year as int, date_count as int),
        r.1 == count_term(date_count as int),
        r.2 == count_week(date_count as int),
{
    let per_year: i32 = WEEKS_PER_TERM * TERMS_PER_YEAR;
    let year: i32 = now_year - date_count / per_year;
    let term: i32 = (date_count % per_year) / WEEKS_PER_TERM + 1;
    let week: i32 = date_count % WEEKS_PER_TERM + 1;
    (year, term, week as i64)
}

/// Law: every non-negative date count names a week between 1 and 30 of
/// term 1 or 2 of a year not after `now_year`, and the date count can be
/// read back from that triple, so no two date counts name the same week.
pub proof fn lemma_date_count_round_trip(now_year: int, d: int)
    requires
        0 <= d,
    ensures
        count_year(now_year, d) <= now_year,
        1 <= count_term(d) <= 2,
        1 <= count_week(d) <= 30,
        d == (now_year - count_year(now_year, d)) * 60 + (count_term(d) - 1) * 30 + count_week(d)
            - 1,
{
    let q = d / 60;
    let r = d % 60;
    assert(d == q * 60 + r && 0 <= r < 60 && q >= 0) by (nonlinear_arith)
        requires
            q == d / 60,
            r == d % 60,
            d >= 0,
    ;
    assert(r / 30 * 30 + d % 30 == r && 0 <= r / 30 <= 1 && 0 <= d % 30 < 30) by (nonlinear_arith)
        requires
            d == q * 60 + r,
            0 <= r < 60,
            q >= 0,
    ;
}

/// Law: two date counts that name the same (year, term, week) are equal.
pub proof fn lemma_date_count_injective(now_year: int, d1: int, d2: int)
    requires
        0 <= d1,
        0 <= d2,
        count_year(now_year, d1) == count_year(now_year, d2),
        count_term(d1) == count_term(d2),
        count_week(d1) == count_week(d2),
    ensures
        d1 == d2,
{
    lemma_date_count_round_trip(now_year, d1);
    lemma_date_count_round_trip(now_year, d2);
}

/// Law: the date counts `0 .. 360` cover the six school years ending at
/// `now_year`.
pub proof fn lemma_date_count_span(now_year: int, d: int)
    requires
        0 <= d < 360,
    ensures
        now_year - 5 <= count_year(now_year, d) <= now_year,
{
    assert(0 <= d / 60 <= 5) by (nonlinear_arith)
        requires
            0 <= d < 360,
    ;
}

} // verus!
