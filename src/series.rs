use vstd::prelude::*;
use crate::date::{Date, DateValue};

verus! {

/// No two data points of `rows` share a date.
pub open spec fn unique_dates(rows: Seq<DateValue>) -> bool {
    forall|i: int, j: int| 0 <= i < j < rows.len() ==> rows[i].date != rows[j].date
}

/// The data points of `rows` come in strictly increasing date order.
pub open spec fn is_sorted(rows: Seq<DateValue>) -> bool {
    forall|i: int, j: int| 0 <= i < j < rows.len() ==> rows[i].date.ord() < rows[j].date.ord()
}

/// What `rows` says of each date: the value recorded for it.
pub open spec fn dated_map(rows: Seq<DateValue>) -> Map<Date, Seq<char>> {
    Map::new(
        |d: Date| exists|i: int| 0 <= i < rows.len() && rows[i].date == d,
        |d: Date| rows[choose|i: int| 0 <= i < rows.len() && rows[i].date == d].value@,
    )
}

pub proof fn lemma_sorted_unique(rows: Seq<DateValue>)
    requires
        is_sorted(rows),
    ensures
        unique_dates(rows),
{
}

/// With unique dates, the map holds the value of the data point at each index.
pub proof fn lemma_dated_map_at(rows: Seq<DateValue>, i: int)
    requires
        unique_dates(rows),
        0 <= i < rows.len(),
    ensures
        dated_map(rows).contains_key(rows[i].date),
        dated_map(rows)[rows[i].date] == rows[i].value@,
{
    let d = rows[i].date;
    assert(exists|k: int| 0 <= k < rows.len() && rows[k].date == d);
    let k = choose|k: int| 0 <= k < rows.len() && rows[k].date == d;
    assert(k == i);
}

/// Extending a sequence with unique dates by one point adds that point to its map.
pub proof fn lemma_dated_map_push(rows: Seq<DateValue>, row: DateValue)
    requires
        unique_dates(rows.push(row)),
    ensures
        dated_map(rows.push(row)) == dated_map(rows).insert(row.date, row.value@),
{
    let s = rows.push(row);
    assert(unique_dates(rows)) by {
        assert forall|i: int, j: int| 0 <= i < j < rows.len() implies rows[i].date != rows[j].date by {
            assert(s[i] == rows[i] && s[j] == rows[j]);
        }
    }
    let a = dated_map(s);
    let b = dated_map(rows).insert(row.date, row.value@);
    assert forall|d: Date| a.contains_key(d) <==> b.contains_key(d) by {
        if a.contains_key(d) {
            let k = choose|k: int| 0 <= k < s.len() && s[k].date == d;
            if k < rows.len() {
                assert(rows[k] == s[k]);
            }
        }
        if b.contains_key(d) && d != row.date {
            let k = choose|k: int| 0 <= k < rows.len() && rows[k].date == d;
            assert(s[k] == rows[k]);
        }
        if d == row.date {
            assert(s[rows.len() as int] == row);
        }
    }
    assert forall|d: Date| #[trigger] a.contains_key(d) implies a[d] == b[d] by {
        let k = choose|k: int| 0 <= k < s.len() && s[k].date == d;
        lemma_dated_map_at(s, k);
        assert(s[rows.len() as int] == row);
        if k < rows.len() {
            assert(rows[k] == s[k]);
            assert(d != row.date);
            lemma_dated_map_at(rows, k);
        }
    }
    assert(a =~= b);
}

/// Writes `row` into the sorted series `rows`: it is added if its date is
/// absent and overwrites the value recorded for its date otherwise.
pub fn upsert_row(rows: &mut Vec<DateValue>, row: DateValue)
    requires
        is_sorted(old(rows)@),
    ensures
        is_sorted(final(rows)@),
        dated_map(final(rows)@) == dated_map(old(rows)@).insert(row.date, row.value@),
{
    let ghost before = rows@;
    let mut p: usize = 0;
    while p < rows.len() && rows[p].date.is_after(&row.date) == false && rows[p].date != row.date
        invariant
            rows@ == before,
            is_sorted(before),
            p <= before.len(),
            forall|j: int| 0 <= j < p ==> before[j].date.ord() < row.date.ord(),
        decreases before.len() - p,
    {
        proof {
            crate::date::lemma_ord_injective(before[p as int].date, row.date);
        }
        p = p + 1;
    }
    let ghost d = row.date;
    let ghost v = row.value@;
    if p < rows.len() && rows[p].date == row.date {
        rows.remove(p);
        rows.insert(p, row);
        proof {
            let after = rows@;
            assert(after == before.update(p as int, after[p as int]));
            assert(is_sorted(after)) by {
                assert forall|i: int, j: int| 0 <= i < j < after.len() implies after[i].date.ord() < after[j].date.ord() by {
                    assert(before[i].date.ord() < before[j].date.ord() || i == p || j == p);
                }
            }
            lemma_sorted_unique(before);
            lemma_sorted_unique(after);
            let a = dated_map(after);
            let b = dated_map(before).insert(d, v);
            assert forall|e: Date| a.contains_key(e) <==> b.contains_key(e) by {
                if a.contains_key(e) {
                    let k = choose|k: int| 0 <= k < after.len() && after[k].date == e;
                    assert(before[k].date == e);
                }
                if b.contains_key(e) && e != d {
                    let k = choose|k: int| 0 <= k < before.len() && before[k].date == e;
                    assert(after[k].date == e);
                }
                if e == d {
                    assert(after[p as int].date == e);
                }
            }
            assert forall|e: Date| #[trigger] a.contains_key(e) implies a[e] == b[e] by {
                let k = choose|k: int| 0 <= k < after.len() && after[k].date == e;
                lemma_dated_map_at(after, k);
                if k != p {
                    lemma_dated_map_at(before, k);
                }
            }
            assert(a =~= b);
        }
    } else {
        rows.insert(p, row);
        proof {
            let after = rows@;
            if p < before.len() {
                crate::date::lemma_ord_injective(before[p as int].date, d);
            }
            assert(forall|j: int| p <= j < before.len() ==> before[j].date.ord() > d.ord()) by {
                assert forall|j: int| p <= j < before.len() implies before[j].date.ord() > d.ord() by {
                    if j > p {
                        assert(before[p as int].date.ord() < before[j].date.ord());
                    }
                }
            }
            assert(is_sorted(after)) by {
                assert forall|i: int, j: int| 0 <= i < j < after.len() implies after[i].date.ord() < after[j].date.ord() by {
                    if i < p && j > p {
                        assert(after[j] == before[j - 1]);
                        assert(after[i] == before[i]);
                    } else if i > p {
                        assert(after[j] == before[j - 1]);
                        assert(after[i] == before[i - 1]);
                    } else if j < p {
                        assert(after[j] == before[j]);
                    }
                }
            }
            lemma_sorted_unique(before);
            lemma_sorted_unique(after);
            let a = dated_map(after);
            let b = dated_map(before).insert(d, v);
            assert forall|e: Date| a.contains_key(e) <==> b.contains_key(e) by {
                if a.contains_key(e) {
                    let k = choose|k: int| 0 <= k < after.len() && after[k].date == e;
                    if k < p {
                        assert(before[k].date == e);
                    } else if k > p {
                        assert(before[k - 1].date == e);
                    }
                }
                if b.contains_key(e) && e != d {
                    let k = choose|k: int| 0 <= k < before.len() && before[k].date == e;
                    if k < p {
                        assert(after[k].date == e);
                    } else {
                        assert(after[k + 1].date == e);
                    }
                }
                if e == d {
                    assert(after[p as int].date == e);
                }
            }
            assert forall|e: Date| #[trigger] a.contains_key(e) implies a[e] == b[e] by {
                let k = choose|k: int| 0 <= k < after.len() && after[k].date == e;
                lemma_dated_map_at(after, k);
                if k < p {
                    lemma_dated_map_at(before, k);
                } else if k > p {
                    lemma_dated_map_at(before, k - 1);
                }
            }
            assert(a =~= b);
        }
    }
}

} // verus!
