use vstd::prelude::*;
use crate::date::{Date, DateValue};
use crate::series::{dated_map, unique_dates, lemma_dated_map_push};
use crate::store::SeriesStore;
use crate::registry::Registry;

verus! {

/// Why a source adapter could not answer.
#[derive(Debug)]
pub enum FetchError {
    /// The source database failed: unreachable, malformed query or result, timeout.
    Source(String),
    /// The answer held two values for this date.
    DuplicateDate(Date),
}

/// The outcome of a failed update, tagged with the statistic's name.
#[derive(Debug)]
pub enum UpdateError {
    SourceFailure { name: String, error: FetchError },
}

/// The resume point of an update over the persisted `rows` of a statistic:
/// the latest persisted date, absent when the series is empty or a full
/// recompute is asked for.
pub open spec fn resume_spec(rows: Seq<DateValue>, force_full: bool) -> Option<Date> {
    if force_full || rows.len() == 0 {
        None
    } else {
        Some(rows.last().date)
    }
}

/// The part of the source series `src` that an adapter answers for `resume`:
/// everything when it is absent, else the dates strictly after it.
pub open spec fn after_map(src: Map<Date, Seq<char>>, resume: Option<Date>) -> Map<Date, Seq<char>> {
    Map::new(
        |d: Date| src.contains_key(d) && (resume.is_none() || d.ord() > resume.unwrap().ord()),
        |d: Date| src[d],
    )
}

/// `post` is `pre` after one update of the statistic `name` against the source
/// series `src`: the answer for the resume point is merged into its series and
/// the other statistics are untouched.
pub open spec fn is_update(
    pre: SeriesStore,
    post: SeriesStore,
    name: Seq<char>,
    src: Map<Date, Seq<char>>,
    force_full: bool,
) -> bool {
    &&& post.wf()
    &&& post.series_map(name) == pre.series_map(name).union_prefer_right(
        after_map(src, resume_spec(pre.rows_of(name), force_full)),
    )
    &&& forall|n: Seq<char>| n != name ==> post.rows_of(n) == pre.rows_of(n)
}

/// A date that two data points of `rows` share, if there is one.
pub fn find_duplicate_date(rows: &Vec<DateValue>) -> (r: Option<Date>)
    ensures
        r.is_none() == unique_dates(rows@),
        r.is_some() ==> exists|i: int, j: int|
            0 <= i < j < rows.len() && rows[i].date == r.unwrap() && rows[j].date == r.unwrap(),
{
    let mut j: usize = 0;
    while j < rows.len()
        invariant
            j <= rows.len(),
            unique_dates(rows@.take(j as int)),
        decreases rows.len() - j,
    {
        let mut i: usize = 0;
        while i < j
            invariant
                i <= j < rows.len(),
                forall|k: int| 0 <= k < i ==> rows[k].date != rows[j as int].date,
            decreases j - i,
        {
            if rows[i].date == rows[j].date {
                proof {
                    assert(!unique_dates(rows@));
                }
                return Some(rows[j].date);
            }
            i = i + 1;
        }
        proof {
            assert(unique_dates(rows@.take(j as int + 1))) by {
                let t = rows@.take(j as int + 1);
                assert forall|a: int, b: int| 0 <= a < b < t.len() implies t[a].date != t[b].date by {
                    if b < j {
                        assert(rows@.take(j as int)[a] == t[a]);
                        assert(rows@.take(j as int)[b] == t[b]);
                    }
                }
            }
        }
        j = j + 1;
    }
    proof {
        assert(rows@.take(rows.len() as int) == rows@);
    }
    None
}

/// The resume point for an update of the statistic `name`.
pub fn resume_point(store: &SeriesStore, name: &String, force_full: bool) -> (r: Option<Date>)
    requires
        store.wf(),
    ensures
        r == resume_spec(store.rows_of(name@), force_full),
{
    if force_full {
        None
    } else {
        match store.latest(name) {
            Some(row) => Some(row.date),
            None => None,
        }
    }
}

/// The data points of `source` that an adapter answers for `resume`: all of
/// them when it is absent, else those dated strictly after it.
pub fn select_after(source: &Vec<DateValue>, resume: Option<Date>) -> (r: Vec<DateValue>)
    requires
        unique_dates(source@),
    ensures
        unique_dates(r@),
        dated_map(r@) == after_map(dated_map(source@), resume),
{
    let mut out: Vec<DateValue> = Vec::new();
    let mut k: usize = 0;
    while k < source.len()
        invariant
            k <= source.len(),
            unique_dates(source@),
            unique_dates(out@),
            forall|i: int| 0 <= i < out.len() ==> exists|j: int| 0 <= j < k && source[j].date == #[trigger] out[i].date,
            dated_map(out@) == after_map(dated_map(source@.take(k as int)), resume),
        decreases source.len() - k,
    {
        let ghost t = source@.take(k as int);
        let ghost t1 = source@.take(k as int + 1);
        proof {
            assert(t1 == t.push(source@[k as int]));
            assert(unique_dates(t1));
            lemma_dated_map_push(t, source@[k as int]);
        }
        let keep = match resume {
            None => true,
            Some(d) => source[k].date.is_after(&d),
        };
        if keep {
            let ghost prev = out@;
            out.push(source[k].duplicate());
            proof {
                let r = source@[k as int];
                assert(unique_dates(out@)) by {
                    assert forall|a: int, b: int| 0 <= a < b < out.len() implies out[a].date != out[b].date by {
                        if b == prev.len() {
                            let j = choose|j: int| 0 <= j < k && source[j].date == prev[a].date;
                            assert(out[a] == prev[a]);
                        } else {
                            assert(out[a] == prev[a] && out[b] == prev[b]);
                        }
                    }
                }
                assert(out@ =~= prev.push(out@.last()));
                lemma_dated_map_push(prev, out@.last());
                assert forall|i: int| 0 <= i < out.len() implies exists|j: int| 0 <= j < k + 1 && source[j].date == #[trigger] out[i].date by {
                    if i < prev.len() {
                        assert(out[i] == prev[i]);
                    } else {
                        assert(source[k as int].date == out[i].date);
                    }
                }
                assert(dated_map(out@) =~= after_map(dated_map(t1), resume));
            }
        } else {
            proof {
                assert(dated_map(out@) =~= after_map(dated_map(t1), resume));
            }
        }
        k = k + 1;
    }
    proof {
        assert(source@.take(source.len() as int) == source@);
    }
    out
}

/// Merges what an adapter answered into the series of the statistic `name`.
/// A failed fetch, or an answer that holds a date twice, leaves the store as
/// it was and is reported as a source failure.
pub fn apply_fetched(
    store: &mut SeriesStore,
    name: &String,
    fetched: Result<Vec<DateValue>, FetchError>,
) -> (r: Result<(), UpdateError>)
    requires
        old(store).wf(),
    ensures
        final(store).wf(),
        match fetched {
            Err(_) => r.is_err() && *final(store) == *old(store),
            Ok(rows) => if unique_dates(rows@) {
                r.is_ok()
                    && final(store).series_map(name@) == old(store).series_map(name@).union_prefer_right(dated_map(rows@))
                    && forall|n: Seq<char>| n != name@ ==> final(store).rows_of(n) == old(store).rows_of(n)
            } else {
                r.is_err() && *final(store) == *old(store)
            },
        },
        match r {
            Err(UpdateError::SourceFailure { name: n, error: e }) => n@ == name@ && match fetched {
                Err(f) => e == f,
                Ok(rows) => e matches FetchError::DuplicateDate(d) && exists|i: int, j: int|
                    0 <= i < j < rows.len() && rows[i].date == d && rows[j].date == d,
            },
            Ok(_) => true,
        },
{
    match fetched {
        Err(e) => Err(UpdateError::SourceFailure { name: name.clone(), error: e }),
        Ok(rows) => {
            match find_duplicate_date(&rows) {
                Some(d) => Err(UpdateError::SourceFailure {
                    name: name.clone(),
                    error: FetchError::DuplicateDate(d),
                }),
                None => {
                    store.upsert(name, &rows);
                    Ok(())
                },
            }
        },
    }
}

/// One update of the statistic `name` against the source series `source`:
/// the resume point is read from the store, the source answers for it, and
/// the answer is merged into the store.
pub fn update_from_source(
    store: &mut SeriesStore,
    name: &String,
    source: &Vec<DateValue>,
    force_full: bool,
)
    requires
        old(store).wf(),
        unique_dates(source@),
    ensures
        is_update(*old(store), *final(store), name@, dated_map(source@), force_full),
{
    let resume = resume_point(store, name, force_full);
    let answer = select_after(source, resume);
    store.upsert(name, &answer);
}

/// Whether an adapter's answer is merged: it came back, with each date once.
pub open spec fn is_mergeable(fetched: Result<Vec<DateValue>, FetchError>) -> bool {
    match fetched {
        Ok(rows) => unique_dates(rows@),
        Err(_) => false,
    }
}

/// The series `m` after the answer `fetched` is applied to it.
pub open spec fn merged(
    m: Map<Date, Seq<char>>,
    fetched: Result<Vec<DateValue>, FetchError>,
) -> Map<Date, Seq<char>> {
    match fetched {
        Ok(rows) => if unique_dates(rows@) {
            m.union_prefer_right(dated_map(rows@))
        } else {
            m
        },
        Err(_) => m,
    }
}

/// Applies the adapters' answers to the statistics of `registry`, the i-th
/// answer to the i-th statistic, and reports one outcome per statistic: a
/// failed one leaves its own series as it was and does not stop the others.
pub fn apply_all(
    store: &mut SeriesStore,
    registry: &Registry,
    fetched: Vec<Result<Vec<DateValue>, FetchError>>,
) -> (r: Vec<Result<(), UpdateError>>)
    requires
        old(store).wf(),
        registry.wf(),
        fetched.len() == registry@.len(),
    ensures
        final(store).wf(),
        r.len() == registry@.len(),
        forall|i: int| 0 <= i < r.len() ==> (#[trigger] r[i]).is_ok() == is_mergeable(fetched[i]),
        forall|i: int| 0 <= i < registry@.len() ==> final(store).series_map(#[trigger] registry@[i].0)
            == merged(old(store).series_map(registry@[i].0), fetched[i]),
        forall|n: Seq<char>| !registry.has_name(n) ==> final(store).rows_of(n) == old(store).rows_of(n),
{
    let ghost orig = fetched@;
    let ghost before = *store;
    let stats = registry.all();
    proof {
        registry.lemma_names_unique();
    }
    let mut rest = fetched;
    let mut out: Vec<Result<(), UpdateError>> = Vec::new();
    let mut k: usize = 0;
    while k < stats.len()
        invariant
            registry.wf(),
            stats@.len() == registry@.len(),
            forall|i: int| 0 <= i < stats@.len() ==> (#[trigger] stats@[i].name@, stats@[i].kind) == registry@[i],
            forall|i: int, j: int| 0 <= i < j < registry@.len() ==> registry@[i].0 != registry@[j].0,
            orig.len() == registry@.len(),
            k <= stats.len(),
            rest@ == orig.subrange(k as int, orig.len() as int),
            store.wf(),
            out.len() == k,
            forall|i: int| 0 <= i < k ==> (#[trigger] out[i]).is_ok() == is_mergeable(orig[i]),
            forall|i: int| 0 <= i < k ==> store.series_map(#[trigger] registry@[i].0)
                == merged(before.series_map(registry@[i].0), orig[i]),
            forall|n: Seq<char>| (forall|i: int| 0 <= i < k ==> registry@[i].0 != n)
                ==> store.rows_of(n) == before.rows_of(n),
        decreases stats.len() - k,
    {
        let ghost prev = *store;
        let f = rest.remove(0);
        let name = &stats[k].name;
        proof {
            assert(f == orig[k as int]);
            assert(registry@[k as int].0 == name@);
        }
        let outcome = apply_fetched(store, name, f);
        out.push(outcome);
        proof {
            assert(rest@ =~= orig.subrange(k as int + 1, orig.len() as int));
            assert forall|i: int| 0 <= i < k + 1 implies (#[trigger] out[i]).is_ok() == is_mergeable(orig[i]) by {
                if i == k {
                    assert(out[i] == outcome);
                }
            }
            assert forall|i: int| 0 <= i < k + 1 implies store.series_map(#[trigger] registry@[i].0)
                == merged(before.series_map(registry@[i].0), orig[i]) by {
                if i < k {
                    assert(registry@[i].0 != name@);
                    assert(store.rows_of(registry@[i].0) == prev.rows_of(registry@[i].0));
                } else {
                    assert(prev.rows_of(name@) == before.rows_of(name@));
                }
            }
        }
        k = k + 1;
    }
    proof {
        assert forall|n: Seq<char>| !registry.has_name(n) implies store.rows_of(n) == before.rows_of(n) by {
            assert forall|i: int| 0 <= i < k implies registry@[i].0 != n by {
                if registry@[i].0 == n {
                    assert(registry.has_name(n));
                }
            }
        }
    }
    out
}

} // verus!
