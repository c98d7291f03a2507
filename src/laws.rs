use vstd::prelude::*;
use crate::date::{Date, DateValue};
use crate::engine::{after_map, is_update, resume_spec};
use crate::series::{dated_map, is_sorted, lemma_sorted_unique, lemma_dated_map_at};
use crate::store::SeriesStore;

verus! {

/// Every date of a sorted series lies at or before its last row.
pub proof fn lemma_last_is_latest(rows: Seq<DateValue>, d: Date)
    requires
        is_sorted(rows),
        dated_map(rows).contains_key(d),
    ensures
        rows.len() > 0,
        d.ord() <= rows.last().date.ord(),
{
    let i = choose|i: int| 0 <= i < rows.len() && rows[i].date == d;
    if i < rows.len() - 1 {
        assert(rows[i].date.ord() < rows[rows.len() - 1].date.ord());
    }
}

/// After an update, the source holds nothing after the new resume point: an
/// incremental update that follows it with the same source fetches nothing.
pub proof fn lemma_nothing_after_resume(
    s0: SeriesStore,
    s1: SeriesStore,
    name: Seq<char>,
    src: Map<Date, Seq<char>>,
    force_full: bool,
)
    requires
        s0.wf(),
        is_update(s0, s1, name, src, force_full),
    ensures
        after_map(src, resume_spec(s1.rows_of(name), false)) == Map::<Date, Seq<char>>::empty(),
{
    let rows0 = s0.rows_of(name);
    let rows1 = s1.rows_of(name);
    let r0 = resume_spec(rows0, force_full);
    let a = after_map(src, r0);
    s0.lemma_rows_sorted(name);
    s1.lemma_rows_sorted(name);
    lemma_sorted_unique(rows0);
    let m1 = s1.series_map(name);
    assert forall|d: Date| a.contains_key(d) implies m1.contains_key(d) && d.ord() <= rows1.last().date.ord() by {
        assert(m1.contains_key(d));
        lemma_last_is_latest(rows1, d);
    }
    if rows0.len() > 0 {
        lemma_dated_map_at(rows0, rows0.len() - 1);
        assert(m1.contains_key(rows0.last().date));
        lemma_last_is_latest(rows1, rows0.last().date);
    }
    let r1 = resume_spec(rows1, false);
    assert forall|d: Date| !#[trigger] after_map(src, r1).contains_key(d) by {
        if after_map(src, r1).contains_key(d) {
            if rows1.len() == 0 {
                if rows0.len() > 0 {
                    lemma_dated_map_at(rows0, rows0.len() - 1);
                    assert(m1.contains_key(rows0.last().date));
                    lemma_last_is_latest(rows1, rows0.last().date);
                }
                assert(a.contains_key(d));
            } else {
                assert(a.contains_key(d));
            }
        }
    }
    assert(after_map(src, r1) =~= Map::<Date, Seq<char>>::empty());
}

/// Two incremental updates in a row, with no change of the source between
/// them, leave the series as the first one left it.
pub proof fn lemma_incremental_idempotent(
    s0: SeriesStore,
    s1: SeriesStore,
    s2: SeriesStore,
    name: Seq<char>,
    src: Map<Date, Seq<char>>,
)
    requires
        s0.wf(),
        is_update(s0, s1, name, src, false),
        is_update(s1, s2, name, src, false),
    ensures
        s2.series_map(name) == s1.series_map(name),
        forall|n: Seq<char>| n != name ==> s2.rows_of(n) == s1.rows_of(n),
{
    lemma_nothing_after_resume(s0, s1, name, src, false);
    assert(s2.series_map(name) =~= s1.series_map(name));
}

/// An incremental update right after a full one, with no new source data,
/// adds or changes no row.
pub proof fn lemma_resume_after_full(
    s0: SeriesStore,
    s1: SeriesStore,
    s2: SeriesStore,
    name: Seq<char>,
    src: Map<Date, Seq<char>>,
)
    requires
        s0.wf(),
        is_update(s0, s1, name, src, true),
        is_update(s1, s2, name, src, false),
    ensures
        s2.series_map(name) == s1.series_map(name),
        forall|n: Seq<char>| n != name ==> s2.rows_of(n) == s1.rows_of(n),
{
    lemma_nothing_after_resume(s0, s1, name, src, true);
    assert(s2.series_map(name) =~= s1.series_map(name));
}

/// For a date already persisted, an incremental update keeps the persisted
/// value whatever the source now says, and a full update takes the source's.
pub proof fn lemma_full_supersedes_incremental(
    s0: SeriesStore,
    s_incremental: SeriesStore,
    s_full: SeriesStore,
    name: Seq<char>,
    src: Map<Date, Seq<char>>,
    d: Date,
)
    requires
        s0.wf(),
        s0.series_map(name).contains_key(d),
        src.contains_key(d),
        is_update(s0, s_incremental, name, src, false),
        is_update(s0, s_full, name, src, true),
    ensures
        s_incremental.series_map(name)[d] == s0.series_map(name)[d],
        s_full.series_map(name)[d] == src[d],
{
    s0.lemma_rows_sorted(name);
    lemma_last_is_latest(s0.rows_of(name), d);
    assert(!after_map(src, resume_spec(s0.rows_of(name), false)).contains_key(d));
    assert(after_map(src, resume_spec(s0.rows_of(name), true)).contains_key(d));
}

/// Upserting the same rows twice leaves the series as upserting them once.
pub proof fn lemma_upsert_idempotent(
    s0: SeriesStore,
    s1: SeriesStore,
    s2: SeriesStore,
    name: Seq<char>,
    rows: Seq<DateValue>,
)
    requires
        s1.series_map(name) == s0.series_map(name).union_prefer_right(dated_map(rows)),
        s2.series_map(name) == s1.series_map(name).union_prefer_right(dated_map(rows)),
    ensures
        s2.series_map(name) == s1.series_map(name),
{
    assert(s2.series_map(name) =~= s1.series_map(name));
}

} // verus!
