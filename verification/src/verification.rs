//! When a place was last verified, and whether that is recent enough.

use crate::dates::day_start;
use crate::dates::day_start_of;
use crate::element::OverpassElement;
use crate::element::RecordView;
use crate::text::sorts_after;
use crate::text::text_after;
use vstd::prelude::*;

verus! {

/// The later of two dates written year first: `candidate` if it sorts after
/// `best`, else `best`.
pub open spec fn later_date(candidate: Seq<char>, best: Seq<char>) -> Seq<char> {
    if text_after(candidate, best) {
        candidate
    } else {
        best
    }
}

/// The date of the most recent survey or check that the tags of a record
/// tell of; empty when they tell of none.
pub open spec fn verification_text(record: RecordView) -> Seq<char> {
    later_date(
        record.tag("check_date:currency:XBT"@),
        later_date(
            record.tag("check_date"@),
            later_date(record.tag("survey:date"@), Seq::empty()),
        ),
    )
}

/// The start of the day on which a record was last verified, if its tags
/// give a date that can be read.
pub open spec fn verification_date(record: RecordView) -> Option<i64> {
    day_start(verification_text(record))
}

/// A record is up to date when its most recent verification is dated after
/// `limit`.
pub open spec fn up_to_date(record: RecordView, limit: Seq<char>) -> bool {
    text_after(verification_text(record), limit)
}

/// A record was surveyed after `limit` when its `survey:date` or its
/// `check_date` is dated after it.
pub open spec fn surveyed_after(record: RecordView, limit: Seq<char>) -> bool {
    text_after(record.tag("survey:date"@), limit) || text_after(record.tag("check_date"@), limit)
}

impl OverpassElement {
    /// Whether the `survey:date` or the `check_date` is dated after `limit`.
    pub fn surveyed_after(&self, limit: &str) -> (fresh: bool)
        ensures
            fresh == surveyed_after(self@, limit@),
    {
        sorts_after(self.tag("survey:date"), limit) || sorts_after(self.tag("check_date"), limit)
    }

    /// The date of the most recent survey or check, empty when there is none.
    pub fn verification_text(&self) -> (date: &str)
        ensures
            date@ == verification_text(self@),
    {
        let mut best = "";
        proof {
            reveal_strlit("");
        }
        assert(best@ =~= Seq::<char>::empty());
        let survey = self.tag("survey:date");
        if sorts_after(survey, best) {
            best = survey;
        }
        let check = self.tag("check_date");
        if sorts_after(check, best) {
            best = check;
        }
        let bitcoin_check = self.tag("check_date:currency:XBT");
        if sorts_after(bitcoin_check, best) {
            best = bitcoin_check;
        }
        best
    }

    /// The start of the day of the most recent verification.
    pub fn verification_date(&self) -> (date: Option<i64>)
        ensures
            date == verification_date(self@),
    {
        day_start_of(self.verification_text())
    }

    /// Whether the most recent verification is dated after `limit`.
    pub fn up_to_date(&self, limit: &str) -> (fresh: bool)
        ensures
            fresh == up_to_date(self@, limit@),
    {
        sorts_after(self.verification_text(), limit)
    }
}

/// The timestamp `t` is there and not after `now`.
pub open spec fn is_past(t: Option<i64>, now: i64) -> bool {
    t is Some && t->0 <= now
}

/// How many of the timestamps are there and not after `now`.
pub open spec fn past_count(dates: Seq<Option<i64>>, now: i64) -> nat
    decreases dates.len(),
{
    if dates.len() == 0 {
        0
    } else {
        past_count(dates.drop_last(), now) + if is_past(dates.last(), now) {
            1nat
        } else {
            0nat
        }
    }
}

/// The sum of the timestamps that are there and not after `now`.
pub open spec fn past_sum(dates: Seq<Option<i64>>, now: i64) -> int
    decreases dates.len(),
{
    if dates.len() == 0 {
        0
    } else {
        past_sum(dates.drop_last(), now) + if is_past(dates.last(), now) {
            dates.last()->0 as int
        } else {
            0
        }
    }
}

/// The quotient of `sum` by `count`, rounded toward zero.
pub open spec fn quotient_toward_zero(sum: int, count: int) -> int {
    if sum >= 0 {
        sum / count
    } else {
        -((-sum) / count)
    }
}

/// The mean, rounded toward zero, of the timestamps that are there and not
/// after `now`; nothing when there is none. Dates in the future are left
/// out: they are errors of entry.
pub open spec fn average_date(dates: Seq<Option<i64>>, now: i64) -> Option<i64> {
    if past_count(dates, now) == 0 {
        None
    } else {
        Some(quotient_toward_zero(past_sum(dates, now), past_count(dates, now) as int) as i64)
    }
}

/// The sum of the past timestamps is bounded by their count times the bounds
/// of a timestamp.
pub proof fn lemma_past_sum_bounds(dates: Seq<Option<i64>>, now: i64)
    ensures
        past_count(dates, now) <= dates.len(),
        past_count(dates, now) * (-0x8000_0000_0000_0000) <= past_sum(dates, now) <= past_count(
            dates,
            now,
        ) * 0x7fff_ffff_ffff_ffff,
    decreases dates.len(),
{
    if dates.len() > 0 {
        lemma_past_sum_bounds(dates.drop_last(), now);
    }
}

/// The mean of `count` timestamps is a timestamp.
pub proof fn lemma_quotient_between(sum: int, count: int)
    requires
        count > 0,
        count * (-0x8000_0000_0000_0000) <= sum <= count * 0x7fff_ffff_ffff_ffff,
    ensures
        -0x8000_0000_0000_0000 <= quotient_toward_zero(sum, count) <= 0x7fff_ffff_ffff_ffff,
{
    if sum >= 0 {
        assert(0 <= sum / count <= 0x7fff_ffff_ffff_ffff) by (nonlinear_arith)
            requires
                count > 0,
                0 <= sum <= count * 0x7fff_ffff_ffff_ffff,
        ;
    } else {
        assert(0 <= (-sum) / count <= 0x8000_0000_0000_0000) by (nonlinear_arith)
            requires
                count > 0,
                0 < -sum <= count * 0x8000_0000_0000_0000,
        ;
    }
}

/// The mean of the timestamps that are not in the future.
pub fn average_date_of(dates: &Vec<Option<i64>>, now: i64) -> (mean: Option<i64>)
    ensures
        mean == average_date(dates@, now),
{
    let mut sum: i128 = 0;
    let mut count: usize = 0;
    let mut i: usize = 0;
    assert(dates@.take(0) =~= Seq::<Option<i64>>::empty());
    while i < dates.len()
        invariant
            i <= dates@.len(),
            count == past_count(dates@.take(i as int), now),
            sum == past_sum(dates@.take(i as int), now),
            count <= i,
            count * (-0x8000_0000_0000_0000) <= sum <= count * 0x7fff_ffff_ffff_ffff,
        decreases dates@.len() - i,
    {
        proof {
            assert(dates@.take(i + 1).drop_last() =~= dates@.take(i as int));
            lemma_past_sum_bounds(dates@.take(i + 1), now);
        }
        match dates[i] {
            Some(t) => {
                if t <= now {
                    sum = sum + t as i128;
                    count = count + 1;
                }
            },
            None => {},
        }
        i += 1;
    }
    assert(dates@.take(dates@.len() as int) =~= dates@);
    if count == 0 {
        return None;
    }
    proof {
        lemma_quotient_between(sum as int, count as int);
    }
    let mean: i128 = if sum >= 0 {
        sum / (count as i128)
    } else {
        -((-sum) / (count as i128))
    };
    Some(mean as i64)
}

} // verus!
