//! One poll of the runtime: every container it reports, each identity once.

use vstd::prelude::*;
use crate::container::{RawContainer, RawView};

verus! {

/// The views of a list of reports.
pub open spec fn raw_views(raws: Seq<RawContainer>) -> Seq<RawView> {
    raws.map_values(|raw: RawContainer| raw@)
}

/// The report at `at` is that of `id`.
pub open spec fn reported_at(raws: Seq<RawView>, id: Seq<char>, at: int) -> bool {
    0 <= at < raws.len() && raws[at].id == id
}

/// `raws` holds a report of `id`.
pub open spec fn reports(raws: Seq<RawView>, id: Seq<char>) -> bool {
    exists|at: int| reported_at(raws, id, at)
}

/// No identity is reported twice.
pub open spec fn reported_once(raws: Seq<RawView>) -> bool {
    forall|i: int, j: int| 0 <= i < j < raws.len() ==> raws[i].id != raws[j].id
}

/// `raws` with `raw` in place of the report of the same identity, or at the
/// end when that identity was not reported yet.
pub open spec fn with_report(raws: Seq<RawView>, raw: RawView) -> Seq<RawView> {
    if reports(raws, raw.id) {
        raws.update(choose|at: int| reported_at(raws, raw.id, at), raw)
    } else {
        raws.push(raw)
    }
}

/// The reports that a list builds up, a later report taking the place of an
/// earlier one of the same identity.
pub open spec fn gathered(raws: Seq<RawView>) -> Seq<RawView>
    decreases raws.len(),
{
    if raws.len() == 0 {
        Seq::empty()
    } else {
        with_report(gathered(raws.drop_last()), raws.last())
    }
}

/// A full replacement report of the containers that exist, keyed by identity.
#[derive(Debug)]
pub struct Snapshot {
    entries: Vec<RawContainer>,
}

impl View for Snapshot {
    type V = Seq<RawView>;

    closed spec fn view(&self) -> Seq<RawView> {
        raw_views(self.entries@)
    }
}

impl Snapshot {
    /// No identity is reported twice.
    #[verifier::type_invariant]
    pub open spec fn well_formed(&self) -> bool {
        reported_once(self@)
    }

    /// The report of no container at all.
    pub fn new() -> (made: Snapshot)
        ensures
            made@ == Seq::<RawView>::empty(),
    {
        let made = Snapshot { entries: Vec::new() };
        assert(made@ =~= Seq::<RawView>::empty());
        made
    }

    /// The snapshot of the containers that the runtime lists.
    pub fn from_reports(raws: Vec<RawContainer>) -> (made: Snapshot)
        ensures
            made@ == gathered(raw_views(raws@)),
    {
        let mut made = Snapshot::new();
        let ghost all = raw_views(raws@);
        let mut at: usize = 0;
        while at < raws.len()
            invariant
                at <= raws.len(),
                all == raw_views(raws@),
                made@ == gathered(all.take(at as int)),
            decreases raws.len() - at,
        {
            assert(all.take(at + 1).drop_last() =~= all.take(at as int));
            made.insert(raws[at].clone());
            at += 1;
        }
        assert(all.take(at as int) =~= all);
        made
    }

    /// Number of containers reported.
    pub fn len(&self) -> (n: usize)
        ensures
            n == self@.len(),
    {
        self.entries.len()
    }

    /// Where the report of `id` stands, if there is one.
    pub fn position(&self, id: &str) -> (found: Option<usize>)
        ensures
            match found {
                Some(at) => reported_at(self@, id@, at as int),
                None => !reports(self@, id@),
            },
    {
        let wanted = id.to_owned();
        let mut at: usize = 0;
        while at < self.entries.len()
            invariant
                at <= self.entries.len(),
                wanted@ == id@,
                forall|earlier: int| 0 <= earlier < at ==> !reported_at(self@, id@, earlier),
            decreases self.entries.len() - at,
        {
            if self.entries[at].id == wanted {
                return Some(at);
            }
            at += 1;
        }
        None
    }

    /// Whether `id` is reported.
    pub fn contains_key(&self, id: &str) -> (held: bool)
        ensures
            held == reports(self@, id@),
    {
        self.position(id).is_some()
    }

    /// The report at `at`.
    pub(crate) fn entry(&self, at: usize) -> (raw: &RawContainer)
        requires
            at < self@.len(),
        ensures
            raw@ == self@[at as int],
    {
        &self.entries[at]
    }

    /// The report of `id`, if there is one.
    pub fn get(&self, id: &str) -> (raw: Option<&RawContainer>)
        ensures
            match raw {
                Some(report) => exists|at: int| reported_at(self@, id@, at) && self@[at] == report@,
                None => !reports(self@, id@),
            },
    {
        match self.position(id) {
            Some(at) => Some(&self.entries[at]),
            None => None,
        }
    }

    /// Records `raw`, in place of an earlier report of the same identity.
    pub fn insert(&mut self, raw: RawContainer)
        ensures
            final(self)@ == with_report(old(self)@, raw@),
    {
        proof {
            use_type_invariant(&*self);
        }
        let found = self.position(raw.id.as_str());
        let mut entries: Vec<RawContainer> = Vec::new();
        std::mem::swap(&mut self.entries, &mut entries);
        let ghost before = raw_views(entries@);
        match found {
            Some(at) => {
                proof {
                    let chosen = choose|i: int| reported_at(before, raw@.id, i);
                    assert(reported_at(before, raw@.id, chosen));
                    assert(chosen == at);
                }
                entries.set(at, raw);
                assert(raw_views(entries@) =~= before.update(at as int, raw@));
            },
            None => {
                entries.push(raw);
                assert(raw_views(entries@) =~= before.push(raw@));
                assert forall|i: int, j: int| 0 <= i < j < entries@.len() implies raw_views(
                    entries@,
                )[i].id != raw_views(entries@)[j].id by {
                    if j == before.len() {
                        assert(!reported_at(before, raw@.id, i));
                    }
                }
            },
        }
        self.entries = entries;
    }
}

} // verus!
