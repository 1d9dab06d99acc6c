//! ballast-survey: a read-only inventory of reclaimable disk weight.
//!
//! The library holds the survey's rules: which directories are reclaimable,
//! how a walk prunes matched directories, how sizes are tallied, how a Rust
//! `target/` is ranked for reaping, and how the final report is ordered,
//! filtered and summed. Reading the disk, the environment and the clock is
//! left to the caller, which hands the library plain values.

pub mod classify;
pub mod cli;
pub mod cloudaware;
pub mod emit;
pub mod json;
pub mod paths;
pub mod roots;
pub mod size;
pub mod table;
pub mod text;
pub mod timestamp;
pub mod walk;

pub use classify::{EntryKind, SurveyEntry};
pub use cloudaware::BinNameOverrides;
pub use emit::{Output, Summary};

use vstd::prelude::*;
use cloudaware::{InstallFacts, annotate_entries, annotated, annotated_is_unique};
use emit::{build_output, kept_bytes, kept_count, survey_order, survey_order_floor_prefix, survey_order_is_unique, sum_bytes};
use timestamp::{Timestamp, days_between};

verus! {

/// Options for controlling cloud-aware annotation during a survey.
#[derive(Clone, Debug)]
pub struct SurveyOptions {
    /// When `true`, skip cloud-aware annotation entirely: no entry carries
    /// `cloud_info`.
    pub no_cloudaware: bool,
    /// Per-crate binary name overrides: crate dir name to installed binary name.
    pub bin_name_overrides: BinNameOverrides,
}

impl Default for SurveyOptions {
    /// Cloud-aware annotation on, no binary name overrides.
    fn default() -> (o: SurveyOptions)
        ensures
            !o.no_cloudaware,
            o.bin_name_overrides.view() == Map::<Seq<char>, Seq<char>>::empty(),
    {
        SurveyOptions { no_cloudaware: false, bin_name_overrides: BinNameOverrides::new() }
    }
}

/// `out` is the report that a survey makes of `entries`, found in walk order,
/// with the findings `facts`, under the floor `min_bytes`, at `now`: the
/// entries, annotated unless cloud-aware annotation is off, in survey order,
/// under a summary of what reaches the floor, stamped `now`.
pub open spec fn surveys(
    out: Output,
    entries: Seq<SurveyEntry>,
    facts: Seq<Option<InstallFacts>>,
    min_bytes: u64,
    now: Timestamp,
    no_cloudaware: bool,
) -> bool {
    &&& no_cloudaware ==> survey_order(out.entries@, entries, min_bytes)
    &&& !no_cloudaware ==> exists|annotated_entries: Seq<SurveyEntry>|
        annotated(entries, facts, annotated_entries) && survey_order(out.entries@, annotated_entries, min_bytes)
    &&& out.summary.reclaimable_bytes == kept_bytes(entries, min_bytes)
    &&& out.summary.entry_count == kept_count(entries, min_bytes)
    &&& out.summary.scanned_at == now
}

/// Finishes a survey from the entries that the walks of its roots found, in
/// walk order: unless `opts` turns cloud-aware annotation off, every
/// `RustTarget` entry is annotated from the findings `facts[i]` made for it;
/// then the report keeps the entries with at least `min_bytes` bytes, sorted
/// by bytes descending, under a summary stamped `now`.
pub fn survey_from_entries(
    entries: Vec<SurveyEntry>,
    facts: &Vec<Option<InstallFacts>>,
    min_bytes: u64,
    now: Timestamp,
    opts: &SurveyOptions,
) -> (out: Output)
    requires
        kept_bytes(entries@, min_bytes) <= u64::MAX,
        !opts.no_cloudaware ==> facts@.len() == entries@.len(),
        !opts.no_cloudaware ==> forall|i: int|
            0 <= i < entries@.len() && (#[trigger] entries@[i]).kind == EntryKind::RustTarget ==> facts@[i] is Some,
    ensures
        opts.no_cloudaware ==> survey_order(out.entries@, entries@, min_bytes),
        !opts.no_cloudaware ==> exists|annotated_entries: Seq<SurveyEntry>|
            annotated(entries@, facts@, annotated_entries) && survey_order(out.entries@, annotated_entries, min_bytes),
        out.summary.reclaimable_bytes == sum_bytes(out.entries@),
        out.summary.reclaimable_bytes == kept_bytes(entries@, min_bytes),
        out.summary.entry_count == out.entries@.len(),
        out.summary.entry_count == kept_count(entries@, min_bytes),
        out.summary.scanned_at == now,
        surveys(out, entries@, facts@, min_bytes, now, opts.no_cloudaware),
        opts.no_cloudaware && (forall|i: int| 0 <= i < entries@.len() ==> (#[trigger] entries@[i]).cloud_info is None)
            ==> forall|k: int| 0 <= k < out.entries@.len() ==> (#[trigger] out.entries@[k]).cloud_info is None,
        !opts.no_cloudaware ==> forall|k: int|
            0 <= k < out.entries@.len() && (#[trigger] out.entries@[k]).kind == EntryKind::RustTarget
                ==> out.entries@[k].cloud_info is Some,
{
    let mut entries = entries;
    let ghost start = entries@;
    if !opts.no_cloudaware {
        annotate_entries(&mut entries, facts);
        proof {
            lemma_annotation_keeps_totals(start, facts@, entries@, min_bytes);
        }
    }
    let ghost before = entries@;
    let out = build_output(entries, min_bytes, now);
    proof {
        emit::survey_order_draws_from_input(out.entries@, before, min_bytes);
        if !opts.no_cloudaware {
            assert(annotated(start, facts@, before) && survey_order(out.entries@, before, min_bytes));
            assert forall|k: int| 0 <= k < out.entries@.len() && (#[trigger] out.entries@[k]).kind == EntryKind::RustTarget
                implies out.entries@[k].cloud_info is Some by {
                let j = choose|j: int| 0 <= j < before.len() && before[j] == out.entries@[k];
                assert(cloudaware::annotated_entry(start[j], facts@[j], before[j]));
            }
        } else {
            assert forall|k: int| 0 <= k < out.entries@.len() && (forall|i: int| 0 <= i < start.len() ==> (#[trigger] start[i]).cloud_info is None)
                implies (#[trigger] out.entries@[k]).cloud_info is None by {
                let j = choose|j: int| 0 <= j < before.len() && before[j] == out.entries@[k];
                assert(before[j] == start[j]);
            }
        }
    }
    out
}

/// Annotation changes no entry's size, so the totals over the floor stay.
proof fn lemma_annotation_keeps_totals(
    before: Seq<SurveyEntry>,
    facts: Seq<Option<InstallFacts>>,
    after: Seq<SurveyEntry>,
    min_bytes: u64,
)
    requires
        annotated(before, facts, after),
    ensures
        kept_bytes(after, min_bytes) == kept_bytes(before, min_bytes),
        kept_count(after, min_bytes) == kept_count(before, min_bytes),
{
    lemma_annotation_keeps_totals_from(before, facts, after, min_bytes, 0);
    assert(before.subrange(0, before.len() as int) =~= before);
    assert(after.subrange(0, after.len() as int) =~= after);
}

proof fn lemma_annotation_keeps_totals_from(
    before: Seq<SurveyEntry>,
    facts: Seq<Option<InstallFacts>>,
    after: Seq<SurveyEntry>,
    min_bytes: u64,
    k: int,
)
    requires
        annotated(before, facts, after),
        0 <= k <= before.len(),
    ensures
        kept_bytes(after.subrange(k, after.len() as int), min_bytes) == kept_bytes(
            before.subrange(k, before.len() as int),
            min_bytes,
        ),
        kept_count(after.subrange(k, after.len() as int), min_bytes) == kept_count(
            before.subrange(k, before.len() as int),
            min_bytes,
        ),
    decreases before.len() - k,
{
    if k < before.len() {
        lemma_annotation_keeps_totals_from(before, facts, after, min_bytes, k + 1);
        assert(cloudaware::annotated_entry(before[k], facts[k], after[k]));
        assert(before.subrange(k, before.len() as int).drop_first() =~= before.subrange(k + 1, before.len() as int));
        assert(after.subrange(k, after.len() as int).drop_first() =~= after.subrange(k + 1, after.len() as int));
    }
}

/// A survey is determined by what it is given: the same entries, findings,
/// floor, instant and options give the same report. No clock is read; time
/// enters only through `now`.
pub proof fn survey_is_determined(
    a: Output,
    b: Output,
    entries: Seq<SurveyEntry>,
    facts: Seq<Option<InstallFacts>>,
    min_bytes: u64,
    now: Timestamp,
    no_cloudaware: bool,
)
    requires
        surveys(a, entries, facts, min_bytes, now, no_cloudaware),
        surveys(b, entries, facts, min_bytes, now, no_cloudaware),
    ensures
        a.entries@ == b.entries@,
        a.summary == b.summary,
{
    if no_cloudaware {
        survey_order_is_unique(a.entries@, b.entries@, entries, min_bytes);
    } else {
        let xa = choose|x: Seq<SurveyEntry>| annotated(entries, facts, x) && survey_order(a.entries@, x, min_bytes);
        let xb = choose|x: Seq<SurveyEntry>| annotated(entries, facts, x) && survey_order(b.entries@, x, min_bytes);
        annotated_is_unique(entries, facts, xa, xb);
        survey_order_is_unique(a.entries@, b.entries@, xa, min_bytes);
    }
}

/// Raising the floor only drops the smallest entries: the report of a survey
/// under a higher floor lists the first entries of its report under a lower
/// one, exactly those that reach the higher floor.
pub proof fn raising_the_floor_keeps_a_prefix(
    low: Output,
    high: Output,
    entries: Seq<SurveyEntry>,
    facts: Seq<Option<InstallFacts>>,
    low_floor: u64,
    high_floor: u64,
    now: Timestamp,
    no_cloudaware: bool,
)
    requires
        low_floor <= high_floor,
        surveys(low, entries, facts, low_floor, now, no_cloudaware),
        surveys(high, entries, facts, high_floor, now, no_cloudaware),
    ensures
        exists|k: int| {
            &&& 0 <= k <= low.entries@.len()
            &&& high.entries@ == low.entries@.take(k)
            &&& forall|i: int| 0 <= i < k ==> (#[trigger] low.entries@[i]).bytes >= high_floor
            &&& forall|i: int| k <= i < low.entries@.len() ==> (#[trigger] low.entries@[i]).bytes < high_floor
        },
{
    if no_cloudaware {
        survey_order_floor_prefix(low.entries@, high.entries@, entries, low_floor, high_floor);
    } else {
        let xl = choose|x: Seq<SurveyEntry>| annotated(entries, facts, x) && survey_order(low.entries@, x, low_floor);
        let xh = choose|x: Seq<SurveyEntry>| annotated(entries, facts, x) && survey_order(high.entries@, x, high_floor);
        annotated_is_unique(entries, facts, xl, xh);
        survey_order_floor_prefix(low.entries@, high.entries@, xl, low_floor, high_floor);
    }
}

/// Every entry a survey reports keeps the age it was found with: when each
/// entry's age was taken relative to `now`, so is each reported entry's.
pub proof fn survey_ages_follow_now(
    out: Output,
    entries: Seq<SurveyEntry>,
    facts: Seq<Option<InstallFacts>>,
    min_bytes: u64,
    now: Timestamp,
    no_cloudaware: bool,
)
    requires
        surveys(out, entries, facts, min_bytes, now, no_cloudaware),
        forall|i: int| 0 <= i < entries.len() ==> (#[trigger] entries[i]).age_days == days_between(now, entries[i].mtime),
    ensures
        forall|k: int| 0 <= k < out.entries@.len() ==> (#[trigger] out.entries@[k]).age_days == days_between(
            now,
            out.entries@[k].mtime,
        ),
{
    if no_cloudaware {
        emit::survey_order_draws_from_input(out.entries@, entries, min_bytes);
    } else {
        let x = choose|x: Seq<SurveyEntry>| annotated(entries, facts, x) && survey_order(out.entries@, x, min_bytes);
        emit::survey_order_draws_from_input(out.entries@, x, min_bytes);
        assert forall|j: int| 0 <= j < x.len() implies (#[trigger] x[j]).age_days == days_between(now, x[j].mtime) by {
            assert(cloudaware::annotated_entry(entries[j], facts[j], x[j]));
        }
    }
}

} // verus!
