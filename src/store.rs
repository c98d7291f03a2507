use vstd::prelude::*;
use crate::date::DateValue;
use crate::series::{dated_map, is_sorted, unique_dates, upsert_row, lemma_dated_map_push};

verus! {

/// The persisted rows of one statistic, in increasing date order.
pub struct NamedSeries {
    pub(crate) name: String,
    pub(crate) rows: Vec<DateValue>,
}

/// The reporting store: rows keyed by (statistic name, date).
pub struct SeriesStore {
    pub(crate) series: Vec<NamedSeries>,
}

impl SeriesStore {
    /// Each statistic has one series, and each series holds each date once,
    /// in increasing date order.
    pub open(crate) spec fn wf(&self) -> bool {
        &&& forall|i: int, j: int|
            0 <= i < j < self.series.len() ==> self.series[i].name@ != self.series[j].name@
        &&& forall|i: int| 0 <= i < self.series.len() ==> is_sorted(#[trigger] self.series[i].rows@)
    }

    /// The names of the statistics that have a series, in storage order.
    pub closed spec fn names(&self) -> Seq<Seq<char>> {
        self.series@.map_values(|n: NamedSeries| n.name@)
    }

    /// The index of the series of the statistic `name`, if it has one.
    pub open(crate) spec fn index_of(&self, name: Seq<char>) -> Option<int> {
        if exists|i: int| 0 <= i < self.series.len() && self.series[i].name@ == name {
            Some(choose|i: int| 0 <= i < self.series.len() && self.series[i].name@ == name)
        } else {
            None
        }
    }

    /// The persisted rows of the statistic `name`, in increasing date order.
    pub open(crate) spec fn rows_of(&self, name: Seq<char>) -> Seq<DateValue> {
        match self.index_of(name) {
            Some(i) => self.series[i].rows@,
            None => Seq::empty(),
        }
    }

    /// The persisted series of the statistic `name`, as a map from date to value.
    pub open spec fn series_map(&self, name: Seq<char>) -> Map<crate::date::Date, Seq<char>> {
        dated_map(self.rows_of(name))
    }

    pub(crate) proof fn lemma_index_of(&self, i: int)
        requires
            self.wf(),
            0 <= i < self.series.len(),
        ensures
            self.index_of(self.series[i].name@) == Some(i),
            self.rows_of(self.series[i].name@) == self.series[i].rows@,
    {
        let n = self.series[i].name@;
        assert(exists|k: int| 0 <= k < self.series.len() && self.series[k].name@ == n);
    }

    pub proof fn lemma_rows_sorted(&self, name: Seq<char>)
        requires
            self.wf(),
        ensures
            is_sorted(self.rows_of(name)),
    {
        if let Some(i) = self.index_of(name) {
            assert(is_sorted(self.series[i].rows@));
        }
    }

    /// An empty store.
    pub fn new() -> (r: SeriesStore)
        ensures
            r.wf(),
            forall|n: Seq<char>| r.rows_of(n) == Seq::<DateValue>::empty(),
    {
        SeriesStore { series: Vec::new() }
    }

    /// Finds the series of the statistic `name`.
    pub fn find(&self, name: &String) -> (r: Option<usize>)
        requires
            self.wf(),
        ensures
            r == (match self.index_of(name@) {
                Some(i) => Some(i as usize),
                None => None::<usize>,
            }),
    {
        let mut i: usize = 0;
        while i < self.series.len()
            invariant
                self.wf(),
                i <= self.series.len(),
                forall|k: int| 0 <= k < i ==> self.series[k].name@ != name@,
            decreases self.series.len() - i,
        {
            if self.series[i].name == *name {
                proof {
                    self.lemma_index_of(i as int);
                }
                return Some(i);
            }
            i = i + 1;
        }
        None
    }

    /// The row of the statistic `name` with the latest date, if it has any.
    pub fn latest(&self, name: &String) -> (r: Option<DateValue>)
        requires
            self.wf(),
        ensures
            self.rows_of(name@).len() == 0 ==> r.is_none(),
            self.rows_of(name@).len() > 0 ==> r.is_some()
                && r.unwrap().date == self.rows_of(name@).last().date
                && r.unwrap().value@ == self.rows_of(name@).last().value@,
    {
        match self.find(name) {
            None => None,
            Some(i) => {
                proof {
                    self.lemma_index_of(i as int);
                }
                let rows = &self.series[i].rows;
                if rows.len() == 0 {
                    None
                } else {
                    Some(rows[rows.len() - 1].duplicate())
                }
            },
        }
    }

    /// The persisted rows of the statistic `name`, in increasing date order.
    pub fn rows(&self, name: &String) -> (r: Vec<DateValue>)
        requires
            self.wf(),
        ensures
            r@.len() == self.rows_of(name@).len(),
            forall|i: int| 0 <= i < r@.len() ==> (#[trigger] r@[i]).date == self.rows_of(name@)[i].date
                && r@[i].value@ == self.rows_of(name@)[i].value@,
    {
        let mut out: Vec<DateValue> = Vec::new();
        if let Some(i) = self.find(name) {
            proof {
                self.lemma_index_of(i as int);
            }
            let rows = &self.series[i].rows;
            let mut k: usize = 0;
            while k < rows.len()
                invariant
                    k <= rows.len(),
                    out@.len() == k,
                    forall|j: int| 0 <= j < k ==> (#[trigger] out@[j]).date == rows@[j].date
                        && out@[j].value@ == rows@[j].value@,
                decreases rows.len() - k,
            {
                out.push(rows[k].duplicate());
                k = k + 1;
            }
        }
        out
    }

    /// Writes `rows` into the series of the statistic `name`: each date absent
    /// from it is added, each date present is overwritten. The series of other
    /// statistics stay as they were.
    pub fn upsert(&mut self, name: &String, rows: &Vec<DateValue>)
        requires
            old(self).wf(),
            unique_dates(rows@),
        ensures
            final(self).wf(),
            final(self).series_map(name@) == old(self).series_map(name@).union_prefer_right(
                dated_map(rows@),
            ),
            forall|n: Seq<char>| n != name@ ==> final(self).rows_of(n) == old(self).rows_of(n),
    {
        let ghost before = *self;
        let idx = match self.find(name) {
            Some(i) => i,
            None => {
                self.series.push(NamedSeries { name: name.clone(), rows: Vec::new() });
                proof {
                    assert forall|n: Seq<char>| n != name@ implies self.rows_of(n) == before.rows_of(n) by {
                        if exists|k: int| 0 <= k < self.series.len() && self.series[k].name@ == n {
                            let k = choose|k: int| 0 <= k < self.series.len() && self.series[k].name@ == n;
                            assert(self.series[k] == before.series[k]);
                        }
                        if exists|k: int| 0 <= k < before.series.len() && before.series[k].name@ == n {
                            let k = choose|k: int| 0 <= k < before.series.len() && before.series[k].name@ == n;
                            assert(self.series[k] == before.series[k]);
                        }
                    }
                    self.lemma_index_of(self.series.len() - 1);
                    assert(dated_map(Seq::<DateValue>::empty()) =~= before.series_map(name@));
                }
                self.series.len() - 1
            },
        };
        let ghost mid = *self;
        proof {
            mid.lemma_index_of(idx as int);
        }
        let mut target = self.series.remove(idx);
        let ghost m0 = dated_map(target.rows@);
        let mut k: usize = 0;
        while k < rows.len()
            invariant
                k <= rows.len(),
                unique_dates(rows@),
                is_sorted(target.rows@),
                target.name@ == name@,
                dated_map(target.rows@) == m0.union_prefer_right(dated_map(rows@.take(k as int))),
            decreases rows.len() - k,
        {
            let ghost prev = target.rows@;
            upsert_row(&mut target.rows, rows[k].duplicate());
            proof {
                let r = rows@[k as int];
                assert(rows@.take(k as int + 1) == rows@.take(k as int).push(r));
                assert(unique_dates(rows@.take(k as int + 1)));
                lemma_dated_map_push(rows@.take(k as int), r);
                assert(dated_map(target.rows@) =~= m0.union_prefer_right(
                    dated_map(rows@.take(k as int + 1)),
                ));
            }
            k = k + 1;
        }
        proof {
            assert(rows@.take(rows.len() as int) == rows@);
        }
        self.series.insert(idx, target);
        proof {
            assert(self.series@ == mid.series@.update(idx as int, target));
            self.lemma_index_of(idx as int);
            assert forall|n: Seq<char>| n != name@ implies self.rows_of(n) == mid.rows_of(n) by {
                if exists|j: int| 0 <= j < self.series.len() && self.series[j].name@ == n {
                    let j = choose|j: int| 0 <= j < self.series.len() && self.series[j].name@ == n;
                    mid.lemma_index_of(j);
                    self.lemma_index_of(j);
                }
                if exists|j: int| 0 <= j < mid.series.len() && mid.series[j].name@ == n {
                    let j = choose|j: int| 0 <= j < mid.series.len() && mid.series[j].name@ == n;
                    mid.lemma_index_of(j);
                    self.lemma_index_of(j);
                }
            }
        }
    }
}

/// In a well-formed store no two rows share the key (statistic name, date):
/// each statistic has one series, and a series holds each date once.
pub proof fn lemma_keys_unique(s: SeriesStore)
    requires
        s.wf(),
    ensures
        forall|i: int, j: int| 0 <= i < j < s.names().len() ==> s.names()[i] != s.names()[j],
        forall|n: Seq<char>| #[trigger] s.rows_of(n).len() > 0 ==> s.names().contains(n),
        forall|n: Seq<char>| unique_dates(#[trigger] s.rows_of(n)),
{
    assert forall|n: Seq<char>| #[trigger] s.rows_of(n).len() > 0 implies s.names().contains(n) by {
        let i = s.index_of(n).unwrap();
        assert(s.names()[i] == n);
    }
    assert forall|n: Seq<char>| unique_dates(#[trigger] s.rows_of(n)) by {
        s.lemma_rows_sorted(n);
        crate::series::lemma_sorted_unique(s.rows_of(n));
    }
}

} // verus!
