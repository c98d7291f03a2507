use vstd::prelude::*;

verus! {

/// How a statistic is shown.
#[derive(PartialEq, Eq, Structural, Clone, Copy, Debug)]
pub enum ChartType {
    /// A time series, one value per day.
    Line,
    /// A single latest value.
    Counter,
}

/// A registered statistic: its unique name and its kind.
#[derive(Debug)]
pub struct Statistic {
    pub name: String,
    pub kind: ChartType,
}

/// Registering a name twice is a configuration error.
#[derive(Debug)]
pub enum RegistryError {
    DuplicateName(String),
}

/// The statistics known to the process, each under a unique name.
pub struct Registry {
    stats: Vec<Statistic>,
}

impl Registry {
    /// The registered statistics, in order of registration, as (name, kind).
    pub closed spec fn view(&self) -> Seq<(Seq<char>, ChartType)> {
        self.stats@.map_values(|s: Statistic| (s.name@, s.kind))
    }

    /// The names are unique.
    pub closed spec fn wf(&self) -> bool {
        forall|i: int, j: int| 0 <= i < j < self.stats.len() ==> self.stats[i].name@ != self.stats[j].name@
    }

    /// Whether a statistic is registered under `name`.
    pub open spec fn has_name(&self, name: Seq<char>) -> bool {
        exists|i: int| 0 <= i < self@.len() && (#[trigger] self@[i]).0 == name
    }

    pub proof fn lemma_names_unique(&self)
        requires
            self.wf(),
        ensures
            forall|i: int, j: int| 0 <= i < j < self@.len() ==> self@[i].0 != self@[j].0,
    {
        assert forall|i: int, j: int| 0 <= i < j < self@.len() implies self@[i].0 != self@[j].0 by {
            assert(self@[i].0 == self.stats[i].name@ && self@[j].0 == self.stats[j].name@);
        }
    }

    pub fn new() -> (r: Registry)
        ensures
            r.wf(),
            r@ == Seq::<(Seq<char>, ChartType)>::empty(),
    {
        let r = Registry { stats: Vec::new() };
        assert(r@ =~= Seq::<(Seq<char>, ChartType)>::empty());
        r
    }

    fn position(&self, name: &String) -> (r: Option<usize>)
        ensures
            match r {
                Some(i) => i < self@.len() && self@[i as int].0 == name@,
                None => !self.has_name(name@),
            },
    {
        let mut i: usize = 0;
        while i < self.stats.len()
            invariant
                i <= self.stats.len(),
                forall|k: int| 0 <= k < i ==> self.stats[k].name@ != name@,
            decreases self.stats.len() - i,
        {
            if self.stats[i].name == *name {
                return Some(i);
            }
            i = i + 1;
        }
        proof {
            assert forall|k: int| 0 <= k < self@.len() implies (#[trigger] self@[k]).0 != name@ by {
                assert(self@[k].0 == self.stats[k].name@);
            }
        }
        None
    }

    /// Adds a statistic; a name that is already registered is refused and
    /// leaves the registry as it was.
    pub fn register(&mut self, name: String, kind: ChartType) -> (r: Result<(), RegistryError>)
        requires
            old(self).wf(),
        ensures
            final(self).wf(),
            old(self).has_name(name@) ==> r.is_err() && final(self)@ == old(self)@,
            !old(self).has_name(name@) ==> r.is_ok() && final(self)@ == old(self)@.push((name@, kind)),
    {
        match self.position(&name) {
            Some(_) => Err(RegistryError::DuplicateName(name)),
            None => {
                let ghost before = self.stats@;
                self.stats.push(Statistic { name, kind });
                proof {
                    assert(self@ =~= old(self)@.push((name@, kind)));
                    assert forall|i: int| 0 <= i < before.len() implies before[i].name@ != name@ by {
                        assert(old(self)@[i].0 == before[i].name@);
                    }
                }
                Ok(())
            },
        }
    }

    /// The statistic registered under `name`, if any.
    pub fn get(&self, name: &String) -> (r: Option<&Statistic>)
        ensures
            r.is_none() == !self.has_name(name@),
            r.is_some() ==> r.unwrap().name@ == name@ && exists|i: int|
                0 <= i < self@.len() && #[trigger] self@[i] == (name@, r.unwrap().kind),
    {
        match self.position(name) {
            Some(i) => {
                let s = &self.stats[i];
                proof {
                    assert(self@[i as int] == (s.name@, s.kind));
                }
                Some(s)
            },
            None => None,
        }
    }

    /// The number of registered statistics.
    pub fn len(&self) -> (r: usize)
        ensures
            r == self@.len(),
    {
        self.stats.len()
    }

    /// The statistics in order of registration.
    pub fn all(&self) -> (r: &Vec<Statistic>)
        ensures
            r@.len() == self@.len(),
            forall|i: int| 0 <= i < r@.len() ==> (#[trigger] r@[i].name@, r@[i].kind) == self@[i],
    {
        &self.stats
    }
}

} // verus!
