//! Reports: the statistics of a region on one day, and when one is written.

use crate::dates::format_iso8601;
use crate::dates::freshness_limit;
use crate::dates::freshness_limit_of;
use crate::dates::iso8601_text;
use crate::text::option_text;
use crate::element::rows;
use crate::element::Element;
use crate::element::RowView;
use crate::reconcile::Summary;
use crate::region::borrowed_rows;
use crate::region::is_member;
use crate::region::picked;
use crate::region::region_elements;
use crate::region::Boundary;
use crate::text::same_text;
use crate::verification::average_date;
use crate::verification::average_date_of;
use crate::verification::up_to_date;
use crate::verification::verification_date;
use vstd::prelude::*;

verus! {

/// The statistics of a region.
#[derive(Clone, Debug)]
pub struct ReportTags {
    pub total_elements: usize,
    pub total_atms: usize,
    pub total_elements_onchain: usize,
    pub total_elements_lightning: usize,
    pub total_elements_lightning_contactless: usize,
    pub up_to_date_elements: usize,
    pub outdated_elements: usize,
    pub legacy_elements: usize,
    /// The mean day of verification, in ISO 8601 form; absent when no place
    /// has a usable date.
    pub avg_verification_date: Option<String>,
}

/// What a [`ReportTags`] holds.
pub struct TagsView {
    pub total_elements: nat,
    pub total_atms: nat,
    pub total_elements_onchain: nat,
    pub total_elements_lightning: nat,
    pub total_elements_lightning_contactless: nat,
    pub up_to_date_elements: nat,
    pub outdated_elements: nat,
    pub legacy_elements: nat,
    pub avg_verification_date: Option<Seq<char>>,
}

impl View for ReportTags {
    type V = TagsView;

    open spec fn view(&self) -> TagsView {
        TagsView {
            total_elements: self.total_elements as nat,
            total_atms: self.total_atms as nat,
            total_elements_onchain: self.total_elements_onchain as nat,
            total_elements_lightning: self.total_elements_lightning as nat,
            total_elements_lightning_contactless: self.total_elements_lightning_contactless as nat,
            up_to_date_elements: self.up_to_date_elements as nat,
            outdated_elements: self.outdated_elements as nat,
            legacy_elements: self.legacy_elements as nat,
            avg_verification_date: option_text(self.avg_verification_date),
        }
    }
}

/// The rows whose tag `name` has the value `value`.
pub open spec fn has_tag(name: Seq<char>, value: Seq<char>) -> spec_fn(RowView) -> bool {
    |row: RowView| row.data.tag(name) == value
}

/// The rows that are up to date with respect to `limit`.
pub open spec fn is_fresh(limit: Seq<char>) -> spec_fn(RowView) -> bool {
    |row: RowView| up_to_date(row.data, limit)
}

/// The days of verification of the rows, in order.
pub open spec fn verification_dates(members: Seq<RowView>) -> Seq<Option<i64>> {
    members.map_values(|row: RowView| verification_date(row.data))
}

/// The mean day of verification of the rows, as it is written in a report.
pub open spec fn average_text(members: Seq<RowView>, now: i64) -> Option<Seq<char>> {
    match average_date(verification_dates(members), now) {
        Some(mean) => iso8601_text(mean),
        None => None,
    }
}

/// The statistics of the rows `members`, where a verification counts as
/// recent if it is dated after `limit`, and `average` is the mean day of
/// verification as it is to be written.
pub open spec fn tags_of(
    members: Seq<RowView>,
    limit: Seq<char>,
    average: Option<Seq<char>>,
) -> TagsView {
    TagsView {
        total_elements: members.len(),
        total_atms: members.filter(has_tag("amenity"@, "atm"@)).len(),
        total_elements_onchain: members.filter(has_tag("payment:onchain"@, "yes"@)).len(),
        total_elements_lightning: members.filter(has_tag("payment:lightning"@, "yes"@)).len(),
        total_elements_lightning_contactless: members.filter(
            has_tag("payment:lightning_contactless"@, "yes"@),
        ).len(),
        up_to_date_elements: members.filter(is_fresh(limit)).len(),
        outdated_elements: (members.len() - members.filter(is_fresh(limit)).len()) as nat,
        legacy_elements: members.filter(has_tag("payment:bitcoin"@, "yes"@)).len(),
        avg_verification_date: average,
    }
}

/// How many of the rows have the value `value` for the tag `name`.
pub fn count_tagged(elements: &Vec<&Element>, name: &str, value: &str) -> (count: usize)
    ensures
        count == borrowed_rows(elements@).filter(has_tag(name@, value@)).len(),
{
    let ghost members = borrowed_rows(elements@);
    let ghost wanted = has_tag(name@, value@);
    let mut count: usize = 0;
    let mut i: usize = 0;
    proof {
        assert(members.take(0) =~= Seq::<RowView>::empty());
        members.take(0).lemma_filter_len(wanted);
    }
    while i < elements.len()
        invariant
            i <= elements@.len(),
            members == borrowed_rows(elements@),
            wanted == has_tag(name@, value@),
            count == members.take(i as int).filter(wanted).len(),
            count <= i,
        decreases elements@.len() - i,
    {
        let row = elements[i];
        proof {
            assert(members[i as int] == row@);
            assert(members.take(i + 1) =~= members.take(i as int).push(members[i as int]));
            members.take(i as int).lemma_filter_push(members[i as int], wanted);
        }
        if same_text(row.data.tag(name), value) {
            count += 1;
        }
        i += 1;
    }
    assert(members.take(elements@.len() as int) =~= members);
    count
}

/// How many of the rows were verified after `limit`.
pub fn count_up_to_date(elements: &Vec<&Element>, limit: &str) -> (count: usize)
    ensures
        count == borrowed_rows(elements@).filter(is_fresh(limit@)).len(),
        count <= elements@.len(),
{
    let ghost members = borrowed_rows(elements@);
    let ghost wanted = is_fresh(limit@);
    let mut count: usize = 0;
    let mut i: usize = 0;
    proof {
        assert(members.take(0) =~= Seq::<RowView>::empty());
        members.take(0).lemma_filter_len(wanted);
    }
    while i < elements.len()
        invariant
            i <= elements@.len(),
            members == borrowed_rows(elements@),
            wanted == is_fresh(limit@),
            count == members.take(i as int).filter(wanted).len(),
            count <= i,
        decreases elements@.len() - i,
    {
        let row = elements[i];
        proof {
            assert(members[i as int] == row@);
            assert(members.take(i + 1) =~= members.take(i as int).push(members[i as int]));
            members.take(i as int).lemma_filter_push(members[i as int], wanted);
        }
        if row.data.up_to_date(limit) {
            count += 1;
        }
        i += 1;
    }
    assert(members.take(elements@.len() as int) =~= members);
    count
}

/// The statistics of the given rows.
///
/// `limit` is the date after which a verification counts as recent, and
/// `average` the mean day of verification as it is to be written.
pub fn tally(elements: &Vec<&Element>, limit: &str, average: Option<String>) -> (tags: ReportTags)
    ensures
        tags@ == tags_of(borrowed_rows(elements@), limit@, option_text(average)),
{
    let fresh = count_up_to_date(elements, limit);
    ReportTags {
        total_elements: elements.len(),
        total_atms: count_tagged(elements, "amenity", "atm"),
        total_elements_onchain: count_tagged(elements, "payment:onchain", "yes"),
        total_elements_lightning: count_tagged(elements, "payment:lightning", "yes"),
        total_elements_lightning_contactless: count_tagged(
            elements,
            "payment:lightning_contactless",
            "yes",
        ),
        up_to_date_elements: fresh,
        outdated_elements: elements.len() - fresh,
        legacy_elements: count_tagged(elements, "payment:bitcoin", "yes"),
        avg_verification_date: average,
    }
}

/// The days of verification of the given rows.
pub fn verification_dates_of(elements: &Vec<&Element>) -> (dates: Vec<Option<i64>>)
    ensures
        dates@ == verification_dates(borrowed_rows(elements@)),
{
    let mut dates: Vec<Option<i64>> = Vec::new();
    let mut i: usize = 0;
    while i < elements.len()
        invariant
            i <= elements@.len(),
            dates@.len() == i,
            forall|j: int| 0 <= j < i ==> dates@[j] == verification_date(elements@[j]@.data),
        decreases elements@.len() - i,
    {
        dates.push(elements[i].data.verification_date());
        i += 1;
    }
    assert(dates@ =~= verification_dates(borrowed_rows(elements@)));
    dates
}

/// Why no statistics could be computed.
#[derive(Clone, Copy, Debug, PartialEq, Eq, Structural)]
pub enum ReportError {
    /// The day one year before the time of the report cannot be written as a
    /// calendar date.
    DateOutOfRange,
}

/// The statistics of the given rows at the time `now`.
///
/// A verification counts as recent if it is dated after the day one year
/// before `now`. The mean day of verification is taken over the days that
/// are not after `now`, and is absent where there is none or where it
/// cannot be written.
pub fn generate_report_tags(
    elements: &Vec<&Element>,
    now: i64,
) -> (result: Result<ReportTags, ReportError>)
    ensures
        match result {
            Ok(tags) => freshness_limit(now) is Some && tags@ == tags_of(
                borrowed_rows(elements@),
                freshness_limit(now)->0,
                average_text(borrowed_rows(elements@), now),
            ),
            Err(_) => freshness_limit(now) is None,
        },
{
    let limit = match freshness_limit_of(now) {
        Some(limit) => limit,
        None => {
            return Err(ReportError::DateOutOfRange);
        },
    };
    let dates = verification_dates_of(elements);
    let average = match average_date_of(&dates, now) {
        Some(mean) => format_iso8601(mean),
        None => None,
    };
    Ok(tally(elements, limit.as_str(), average))
}

/// How a changed report is written.
#[derive(Clone, Copy, Debug, PartialEq, Eq, Structural)]
pub enum ReportPolicy {
    /// Every report is a snapshot in time: a change makes a new row.
    Snapshot,
    /// The report of a day accumulates: the changes of a cycle are added to
    /// the counters of the row that is there.
    Cumulative,
}

/// One stored report: the statistics of a region on one day, and how many
/// rows the cycles of that day created, updated and deleted.
#[derive(Clone, Debug)]
pub struct Report {
    pub area_id: i64,
    pub date: String,
    pub tags: ReportTags,
    pub counters: Summary,
}

/// What a [`Report`] holds.
pub struct ReportView {
    pub area_id: i64,
    pub date: Seq<char>,
    pub tags: TagsView,
    pub counters: Summary,
}

impl View for Report {
    type V = ReportView;

    open spec fn view(&self) -> ReportView {
        ReportView {
            area_id: self.area_id,
            date: self.date@,
            tags: self.tags@,
            counters: self.counters,
        }
    }
}

/// What is written for a region and a day.
#[derive(Clone, Debug)]
pub enum ReportAction {
    /// A new row is inserted.
    Insert(Report),
    /// The counters of the row that is there are set to `counters`.
    Accumulate { counters: Summary },
    /// Nothing is written.
    Skip,
}

/// What a [`ReportAction`] holds.
pub enum ActionView {
    Insert(ReportView),
    Accumulate { counters: Summary },
    Skip,
}

impl View for ReportAction {
    type V = ActionView;

    open spec fn view(&self) -> ActionView {
        match self {
            ReportAction::Insert(report) => ActionView::Insert(report@),
            ReportAction::Accumulate { counters } => ActionView::Accumulate { counters: *counters },
            ReportAction::Skip => ActionView::Skip,
        }
    }
}

/// What an optional report holds.
pub open spec fn option_report(report: Option<&Report>) -> Option<ReportView> {
    match report {
        Some(r) => Some(r@),
        None => None,
    }
}

/// A cycle that changed nothing.
pub open spec fn no_changes() -> Summary {
    Summary { created: 0, updated: 0, deleted: 0 }
}

/// The sum of two counters, held at the greatest number where it would pass it.
pub open spec fn counter_sum(a: usize, b: usize) -> usize {
    if a + b > usize::MAX {
        usize::MAX
    } else {
        (a + b) as usize
    }
}

/// The counters of a day after a cycle with the changes `delta`.
pub open spec fn accumulated(counters: Summary, delta: Summary) -> Summary {
    Summary {
        created: counter_sum(counters.created, delta.created),
        updated: counter_sum(counters.updated, delta.updated),
        deleted: counter_sum(counters.deleted, delta.deleted),
    }
}

/// What is written for the region `area_id` on the day `date`.
///
/// `existing` is the report to compare with: under the snapshot policy the
/// latest report of the region, under the cumulative policy the report of
/// the region for that day. `tags` are the statistics just computed, and
/// `delta` counts the changes of the cycle. Where there is no report yet,
/// one is inserted. Where there is one, a snapshot is inserted only if the
/// statistics differ from it, and the counters accumulate only if the cycle
/// changed something.
pub open spec fn decision(
    policy: ReportPolicy,
    area_id: i64,
    date: Seq<char>,
    existing: Option<ReportView>,
    tags: TagsView,
    delta: Summary,
) -> ActionView {
    match existing {
        None => ActionView::Insert(ReportView { area_id, date, tags, counters: delta }),
        Some(report) => match policy {
            ReportPolicy::Snapshot => if report.tags == tags {
                ActionView::Skip
            } else {
                ActionView::Insert(ReportView { area_id, date, tags, counters: delta })
            },
            ReportPolicy::Cumulative => if delta == no_changes() {
                ActionView::Skip
            } else {
                ActionView::Accumulate { counters: accumulated(report.counters, delta) }
            },
        },
    }
}

/// The report to compare with once `action` is carried out.
pub open spec fn latest_after(
    existing: Option<ReportView>,
    action: ActionView,
) -> Option<ReportView> {
    match action {
        ActionView::Insert(report) => Some(report),
        ActionView::Accumulate { counters } => match existing {
            Some(report) => Some(ReportView { counters, ..report }),
            None => None,
        },
        ActionView::Skip => existing,
    }
}

/// Whether two optional texts are the same.
pub fn same_option_text(a: &Option<String>, b: &Option<String>) -> (same: bool)
    ensures
        same == (option_text(*a) == option_text(*b)),
{
    match (a, b) {
        (Some(x), Some(y)) => same_text(x.as_str(), y.as_str()),
        (None, None) => true,
        _ => false,
    }
}

impl ReportTags {
    /// Whether two sets of statistics are the same, value by value.
    pub fn same_as(&self, other: &ReportTags) -> (same: bool)
        ensures
            same == (self@ == other@),
    {
        self.total_elements == other.total_elements && self.total_atms == other.total_atms
            && self.total_elements_onchain == other.total_elements_onchain
            && self.total_elements_lightning == other.total_elements_lightning
            && self.total_elements_lightning_contactless
            == other.total_elements_lightning_contactless && self.up_to_date_elements
            == other.up_to_date_elements && self.outdated_elements == other.outdated_elements
            && self.legacy_elements == other.legacy_elements && same_option_text(
            &self.avg_verification_date,
            &other.avg_verification_date,
        )
    }
}

/// Decides what is written for the region `area_id` on the day `date`.
pub fn decide_report(
    policy: ReportPolicy,
    area_id: i64,
    date: &str,
    existing: Option<&Report>,
    tags: ReportTags,
    delta: Summary,
) -> (action: ReportAction)
    ensures
        action@ == decision(policy, area_id, date@, option_report(existing), tags@, delta),
{
    match existing {
        None => ReportAction::Insert(Report { area_id, date: date.to_owned(), tags, counters: delta }),
        Some(report) => match policy {
            ReportPolicy::Snapshot => {
                if report.tags.same_as(&tags) {
                    ReportAction::Skip
                } else {
                    ReportAction::Insert(
                        Report { area_id, date: date.to_owned(), tags, counters: delta },
                    )
                }
            },
            ReportPolicy::Cumulative => {
                if delta.created == 0 && delta.updated == 0 && delta.deleted == 0 {
                    ReportAction::Skip
                } else {
                    ReportAction::Accumulate {
                        counters: Summary {
                            created: report.counters.created.saturating_add(delta.created),
                            updated: report.counters.updated.saturating_add(delta.updated),
                            deleted: report.counters.deleted.saturating_add(delta.deleted),
                        },
                    }
                }
            },
        },
    }
}

/// Computes the statistics of a region over a snapshot and decides what is
/// written for the day `date`.
///
/// The region holds the live rows within `boundary`. `existing` is the
/// report to compare with, as `decision` takes it, and `delta` counts the
/// changes of the cycle that led to the snapshot.
pub fn aggregate(
    policy: ReportPolicy,
    area_id: i64,
    boundary: &Boundary,
    snapshot: &Vec<Element>,
    date: &str,
    existing: Option<&Report>,
    delta: Summary,
    now: i64,
) -> (result: Result<ReportAction, ReportError>)
    ensures
        match result {
            Ok(action) => freshness_limit(now) is Some && action@ == decision(
                policy,
                area_id,
                date@,
                option_report(existing),
                tags_of(
                    picked(rows(snapshot@), is_member(*boundary, rows(snapshot@))),
                    freshness_limit(now)->0,
                    average_text(
                        picked(rows(snapshot@), is_member(*boundary, rows(snapshot@))),
                        now,
                    ),
                ),
                delta,
            ),
            Err(_) => freshness_limit(now) is None,
        },
{
    let members = region_elements(snapshot, boundary);
    match generate_report_tags(&members, now) {
        Ok(tags) => Ok(decide_report(policy, area_id, date, existing, tags, delta)),
        Err(e) => Err(e),
    }
}

/// Running the aggregation a second time, on a snapshot that no cycle has
/// changed in between, writes nothing: with the same statistics and no
/// changes to count, the report that the first run left is kept as it is.
pub proof fn law_second_run_writes_nothing(
    policy: ReportPolicy,
    area_id: i64,
    date: Seq<char>,
    existing: Option<ReportView>,
    tags: TagsView,
    delta: Summary,
)
    ensures
        decision(
            policy,
            area_id,
            date,
            latest_after(existing, decision(policy, area_id, date, existing, tags, delta)),
            tags,
            no_changes(),
        ) == ActionView::Skip,
{
}

/// Under the snapshot policy a report whose statistics are those just
/// computed is never written again, whatever the cycle counted.
pub proof fn law_same_statistics_are_skipped(
    area_id: i64,
    date: Seq<char>,
    existing: ReportView,
    delta: Summary,
)
    ensures
        decision(ReportPolicy::Snapshot, area_id, date, Some(existing), existing.tags, delta)
            == ActionView::Skip,
{
}

} // verus!
