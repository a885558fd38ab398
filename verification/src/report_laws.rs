//! What holds of the statistics of every region.

use crate::element::RowView;
use crate::report::average_text;
use crate::report::has_tag;
use crate::report::is_fresh;
use crate::report::tags_of;
use crate::report::verification_dates;
use crate::verification::is_past;
use crate::verification::past_count;
use crate::verification::past_sum;
use vstd::prelude::*;
use vstd::seq_lib::to_multiset_contains;
use vstd::seq_lib::to_multiset_len;
use vstd::seq_lib::to_multiset_remove;

verus! {

/// A list holds one accepted item more than what is left of it when an
/// accepted item is taken out, and as many when another is.
pub proof fn lemma_filter_len_remove<A>(items: Seq<A>, keep: spec_fn(A) -> bool, i: int)
    requires
        0 <= i < items.len(),
    ensures
        items.filter(keep).len() == items.remove(i).filter(keep).len() + if keep(items[i]) {
            1nat
        } else {
            0nat
        },
{
    let head = items.take(i);
    let one = seq![items[i]];
    let tail = items.skip(i + 1);
    assert(items =~= head + one + tail);
    assert(items.remove(i) =~= head + tail);
    Seq::filter_distributes_over_add(head + one, tail, keep);
    Seq::filter_distributes_over_add(head, one, keep);
    Seq::filter_distributes_over_add(head, tail, keep);
    Seq::<A>::empty().lemma_filter_push(items[i], keep);
    assert(Seq::<A>::empty().push(items[i]) =~= one);
    assert(Seq::<A>::empty().filter(keep) =~= Seq::<A>::empty()) by {
        reveal(Seq::filter);
    }
}

/// How many items of a list are accepted does not depend on their order.
pub proof fn lemma_filter_len_ignores_order<A>(a: Seq<A>, b: Seq<A>, keep: spec_fn(A) -> bool)
    requires
        a.to_multiset() == b.to_multiset(),
    ensures
        a.filter(keep).len() == b.filter(keep).len(),
    decreases a.len(),
{
    to_multiset_len(a);
    to_multiset_len(b);
    if a.len() == 0 {
        assert(a =~= b);
    } else {
        let last = a.len() - 1;
        let x = a[last];
        to_multiset_contains(a, x);
        to_multiset_contains(b, x);
        assert(a.contains(x));
        let i = choose|i: int| 0 <= i < b.len() && b[i] == x;
        to_multiset_remove(a, last);
        to_multiset_remove(b, i);
        lemma_filter_len_ignores_order(a.remove(last), b.remove(i), keep);
        lemma_filter_len_remove(a, keep, last);
        lemma_filter_len_remove(b, keep, i);
    }
}

/// The count and the sum of the past days of two lists, one after the
/// other, are the sums of their counts and of their sums.
pub proof fn lemma_past_of_both(a: Seq<Option<i64>>, b: Seq<Option<i64>>, now: i64)
    ensures
        past_count(a + b, now) == past_count(a, now) + past_count(b, now),
        past_sum(a + b, now) == past_sum(a, now) + past_sum(b, now),
    decreases b.len(),
{
    if b.len() == 0 {
        assert(a + b =~= a);
    } else {
        assert((a + b).drop_last() =~= a + b.drop_last());
        assert((a + b).last() == b.last());
        lemma_past_of_both(a, b.drop_last(), now);
    }
}

/// Taking a day out of a list takes it out of the count and of the sum of
/// the past days, if it is one of them.
pub proof fn lemma_past_remove(dates: Seq<Option<i64>>, now: i64, i: int)
    requires
        0 <= i < dates.len(),
    ensures
        past_count(dates, now) == past_count(dates.remove(i), now) + if is_past(dates[i], now) {
            1nat
        } else {
            0nat
        },
        past_sum(dates, now) == past_sum(dates.remove(i), now) + if is_past(dates[i], now) {
            dates[i]->0 as int
        } else {
            0
        },
{
    let head = dates.take(i);
    let one = seq![dates[i]];
    let tail = dates.skip(i + 1);
    assert(dates =~= head + one + tail);
    assert(dates.remove(i) =~= head + tail);
    lemma_past_of_both(head + one, tail, now);
    lemma_past_of_both(head, one, now);
    lemma_past_of_both(head, tail, now);
    assert(one.drop_last() =~= Seq::<Option<i64>>::empty());
    assert(past_count(one.drop_last(), now) == 0);
    assert(past_sum(one.drop_last(), now) == 0);
}

/// The count and the sum of the past days of verification do not depend on
/// the order of the rows.
pub proof fn lemma_dates_ignore_order(a: Seq<RowView>, b: Seq<RowView>, now: i64)
    requires
        a.to_multiset() == b.to_multiset(),
    ensures
        past_count(verification_dates(a), now) == past_count(verification_dates(b), now),
        past_sum(verification_dates(a), now) == past_sum(verification_dates(b), now),
    decreases a.len(),
{
    to_multiset_len(a);
    to_multiset_len(b);
    if a.len() == 0 {
        assert(a =~= b);
    } else {
        let last = a.len() - 1;
        let x = a[last];
        to_multiset_contains(a, x);
        to_multiset_contains(b, x);
        assert(a.contains(x));
        let i = choose|i: int| 0 <= i < b.len() && b[i] == x;
        to_multiset_remove(a, last);
        to_multiset_remove(b, i);
        lemma_dates_ignore_order(a.remove(last), b.remove(i), now);
        assert(verification_dates(a.remove(last)) =~= verification_dates(a).remove(last));
        assert(verification_dates(b.remove(i)) =~= verification_dates(b).remove(i));
        lemma_past_remove(verification_dates(a), now, last);
        lemma_past_remove(verification_dates(b), now, i);
    }
}

/// The statistics of a region do not depend on the order of its rows: two
/// lists that hold the same rows, each as often in the one as in the other,
/// have the same statistics.
pub proof fn law_statistics_ignore_order(a: Seq<RowView>, b: Seq<RowView>, limit: Seq<char>, now: i64)
    requires
        a.to_multiset() == b.to_multiset(),
    ensures
        average_text(a, now) == average_text(b, now),
        tags_of(a, limit, average_text(a, now)) == tags_of(b, limit, average_text(b, now)),
{
    to_multiset_len(a);
    to_multiset_len(b);
    lemma_filter_len_ignores_order(a, b, has_tag("amenity"@, "atm"@));
    lemma_filter_len_ignores_order(a, b, has_tag("payment:onchain"@, "yes"@));
    lemma_filter_len_ignores_order(a, b, has_tag("payment:lightning"@, "yes"@));
    lemma_filter_len_ignores_order(a, b, has_tag("payment:lightning_contactless"@, "yes"@));
    lemma_filter_len_ignores_order(a, b, has_tag("payment:bitcoin"@, "yes"@));
    lemma_filter_len_ignores_order(a, b, is_fresh(limit));
    lemma_dates_ignore_order(a, b, now);
}

} // verus!
