//! The record store: an in-memory collection of uniquely-keyed records.
//!
//! The store owns its records outright; a process that shares it across
//! concurrent request handlers wraps it in a mutual-exclusion guard and
//! performs exactly one operation per critical section, so each operation
//! here is atomic with respect to every other.
//!
//! The store's mathematical model is a finite map from id to name
//! (`Seq<char>`): `view` yields it, and every operation's contract is
//! stated over it.

use vstd::prelude::*;
use crate::models::{Simulation, has_id, index_of_id, lemma_index_of_id, get_simulation};

verus! {

/// The outcome of an insert-if-absent.
pub enum InsertOutcome {
    /// The id was free; the record is now stored.
    Created,
    /// A record with this id was already present; the store is unchanged,
    /// and the conflicting record is returned for the error message.
    AlreadyExists(Simulation),
}

/// The outcome of an upsert.
pub enum UpsertOutcome {
    /// The id was absent; a fresh record was created.
    Created,
    /// The id was present; its record was replaced.
    Replaced,
}

/// The outcome of a remove.
pub enum RemoveOutcome {
    /// The id was present; its record is gone.
    Removed,
    /// The id was absent; the store is unchanged.
    NotFound,
}

/// An in-memory collection of `Simulation` records with at most one
/// record per id.
pub struct Store {
    records: Vec<Simulation>,
}

/// At most one record per id in a snapshot of records.
pub open spec fn distinct_ids(s: Seq<Simulation>) -> bool {
    forall|i: int, j: int| 0 <= i < j < s.len() ==> s[i].id != s[j].id
}

/// The map from id to name that a snapshot of records denotes.
pub open spec fn map_of(s: Seq<Simulation>) -> Map<u64, Seq<char>> {
    Map::new(|id: u64| has_id(s, id), |id: u64| s[index_of_id(s, id)].name@)
}

impl View for Store {
    type V = Map<u64, Seq<char>>;

    closed spec fn view(&self) -> Map<u64, Seq<char>> {
        map_of(self.records@)
    }
}

impl Store {
    /// The uniqueness invariant of the store: at most one record per id.
    pub closed spec fn wf(&self) -> bool {
        distinct_ids(self.records@)
    }

    /// An empty store.
    pub fn new() -> (s: Store)
        ensures
            s.wf(),
            s@ == Map::<u64, Seq<char>>::empty(),
    {
        let s = Store { records: Vec::new() };
        proof {
            assert(s@ =~= Map::<u64, Seq<char>>::empty());
        }
        s
    }

    /// A snapshot copy of the stored records: all of them, or the one
    /// matching `filter_id` if it is given and present. The live internal
    /// collection is never exposed.
    pub fn list(&self, filter_id: Option<u64>) -> (r: Vec<Simulation>)
        requires
            self.wf(),
        ensures
            distinct_ids(r@),
            forall|i: int|
                0 <= i < r@.len() ==> #[trigger] self@.contains_pair(r@[i].id, r@[i].name@),
            match filter_id {
                Some(id) => {
                    &&& forall|i: int| 0 <= i < r@.len() ==> #[trigger] r@[i].id == id
                    &&& r@.len() == if self@.dom().contains(id) { 1int } else { 0int }
                },
                None => forall|id: u64| #[trigger] self@.dom().contains(id) ==> has_id(r@, id),
            },
    {
        match filter_id {
            Some(id) => {
                let mut out: Vec<Simulation> = Vec::new();
                match get_simulation(&self.records, id) {
                    Some(sim) => {
                        proof {
                            lemma_index_of_id(self.records@, id);
                        }
                        out.push(sim.clone());
                    },
                    None => {},
                }
                out
            },
            None => {
                let n = self.records.len();
                let mut out: Vec<Simulation> = Vec::new();
                let mut i: usize = 0;
                while i < n
                    invariant
                        self.wf(),
                        n == self.records@.len(),
                        0 <= i <= n,
                        out@ =~= self.records@.subrange(0, i as int),
                    decreases n - i,
                {
                    out.push(self.records[i].clone());
                    proof {
                        assert(out@ =~= self.records@.subrange(0, i + 1));
                    }
                    i += 1;
                }
                proof {
                    assert(out@ =~= self.records@);
                    assert forall|i: int| 0 <= i < out@.len() implies #[trigger] self@
                        .contains_pair(out@[i].id, out@[i].name@) by {
                        assert(has_id(self.records@, out@[i].id));
                        lemma_index_of_id(self.records@, out@[i].id);
                        let k = index_of_id(self.records@, out@[i].id);
                        assert(k == i) by {
                            if k < i {
                                assert(self.records@[k].id != self.records@[i].id);
                            }
                        }
                    }
                }
                out
            },
        }
    }

    /// Insert only if no record with this id exists yet; on conflict the
    /// store is left unchanged and the existing record is reported.
    pub fn insert(&mut self, sim: Simulation) -> (r: InsertOutcome)
        requires
            old(self).wf(),
        ensures
            final(self).wf(),
            match r {
                InsertOutcome::Created => {
                    &&& !old(self)@.dom().contains(sim.id)
                    &&& final(self)@ == old(self)@.insert(sim.id, sim.name@)
                },
                InsertOutcome::AlreadyExists(existing) => {
                    &&& old(self)@.dom().contains(sim.id)
                    &&& existing.id == sim.id
                    &&& existing.name@ == old(self)@[sim.id]
                    &&& final(self)@ == old(self)@
                },
            },
    {
        match get_simulation(&self.records, sim.id) {
            Some(existing) => {
                proof {
                    lemma_index_of_id(self.records@, sim.id);
                }
                InsertOutcome::AlreadyExists(existing.clone())
            },
            None => {
                let ghost before = self.records@;
                let ghost gsim = sim;
                self.records.push(sim);
                proof {
                    lemma_push_fresh(before, gsim);
                }
                InsertOutcome::Created
            },
        }
    }

    /// Insert a fresh record or replace the present one; report which
    /// occurred. Never fails.
    pub fn upsert(&mut self, id: u64, name: String) -> (r: UpsertOutcome)
        requires
            old(self).wf(),
        ensures
            final(self).wf(),
            final(self)@ == old(self)@.insert(id, name@),
            r is Replaced <==> old(self)@.dom().contains(id),
    {
        let replaced = match self.remove(id) {
            RemoveOutcome::Removed => true,
            RemoveOutcome::NotFound => false,
        };
        let ghost mid = self.records@;
        let sim = Simulation { id, name };
        let ghost gsim = sim;
        self.records.push(sim);
        proof {
            assert(map_of(mid) == old(self)@.remove(id));
            assert(!has_id(mid, id)) by {
                assert(map_of(mid).dom().contains(id) <==> has_id(mid, id));
            }
            lemma_push_fresh(mid, gsim);
            assert(old(self)@.remove(id).insert(id, gsim.name@) =~= old(self)@.insert(
                id,
                gsim.name@,
            ));
        }
        if replaced {
            UpsertOutcome::Replaced
        } else {
            UpsertOutcome::Created
        }
    }

    /// Remove the record with `id` if present; report which occurred.
    /// Absence is not an error, and a second remove of the same id
    /// reports `NotFound`.
    pub fn remove(&mut self, id: u64) -> (r: RemoveOutcome)
        requires
            old(self).wf(),
        ensures
            final(self).wf(),
            final(self)@ == old(self)@.remove(id),
            r is Removed <==> old(self)@.dom().contains(id),
    {
        let n = self.records.len();
        let mut i: usize = 0;
        while i < n
            invariant
                self.wf(),
                self.records@ == old(self).records@,
                n == self.records@.len(),
                0 <= i <= n,
                forall|j: int| 0 <= j < i ==> self.records@[j].id != id,
            decreases n - i,
        {
            if self.records[i].id == id {
                let ghost before = self.records@;
                self.records.remove(i);
                proof {
                    assert(has_id(before, id));
                    lemma_remove_at(before, i as int, id);
                }
                return RemoveOutcome::Removed;
            }
            i += 1;
        }
        proof {
            assert(!has_id(self.records@, id));
            assert(self@ =~= self@.remove(id));
        }
        RemoveOutcome::NotFound
    }
}

/// What one `Store::insert` does to the store's model: nothing when the
/// id is bound, a fresh binding otherwise.
pub open spec fn insert_model(m: Map<u64, Seq<char>>, sim: Simulation) -> Map<u64, Seq<char>> {
    if m.dom().contains(sim.id) {
        m
    } else {
        m.insert(sim.id, sim.name@)
    }
}

/// The store's model after a sequence of inserts, first record first.
pub open spec fn after_inserts(m: Map<u64, Seq<char>>, recs: Seq<Simulation>) -> Map<
    u64,
    Seq<char>,
>
    decreases recs.len(),
{
    if recs.len() == 0 {
        m
    } else {
        after_inserts(insert_model(m, recs[0]), recs.drop_first())
    }
}

/// Inserting records whose ids are distinct and absent from the store
/// binds exactly those ids to their names, leaves every prior binding
/// untouched, and grows the store by exactly one record per insert.
pub proof fn lemma_inserts_from(m: Map<u64, Seq<char>>, recs: Seq<Simulation>)
    requires
        m.dom().finite(),
        distinct_ids(recs),
        forall|i: int| 0 <= i < recs.len() ==> !m.dom().contains(#[trigger] recs[i].id),
    ensures
        after_inserts(m, recs).dom().finite(),
        after_inserts(m, recs).dom().len() == m.dom().len() + recs.len(),
        forall|i: int|
            0 <= i < recs.len() ==> after_inserts(m, recs).contains_pair(
                #[trigger] recs[i].id,
                recs[i].name@,
            ),
        forall|id: u64|
            #[trigger] after_inserts(m, recs).dom().contains(id) <==> m.dom().contains(id)
                || has_id(recs, id),
        forall|id: u64|
            m.dom().contains(id) ==> #[trigger] after_inserts(m, recs)[id] == m[id],
    decreases recs.len(),
{
    if recs.len() == 0 {
        assert(forall|id: u64| !has_id(recs, id));
    } else {
        let r0 = recs[0];
        let rest = recs.drop_first();
        assert(!m.dom().contains(r0.id));
        let m1 = m.insert(r0.id, r0.name@);
        assert(insert_model(m, r0) == m1);
        assert(m1.dom() =~= m.dom().insert(r0.id));
        vstd::set::axiom_set_insert_len(m.dom(), r0.id);
        assert forall|i: int| 0 <= i < rest.len() implies !m1.dom().contains(
            #[trigger] rest[i].id,
        ) by {
            assert(rest[i] == recs[i + 1]);
        }
        lemma_inserts_from(m1, rest);
        assert(after_inserts(m, recs) == after_inserts(m1, rest));
        assert forall|i: int| 0 <= i < recs.len() implies after_inserts(m, recs).contains_pair(
            #[trigger] recs[i].id,
            recs[i].name@,
        ) by {
            if i == 0 {
                assert(m1.contains_pair(r0.id, r0.name@));
                assert(m1.dom().contains(r0.id));
                assert(after_inserts(m1, rest)[r0.id] == m1[r0.id]);
                assert(after_inserts(m1, rest).dom().contains(r0.id));
            } else {
                assert(rest[i - 1] == recs[i]);
            }
        }
        assert forall|id: u64| #[trigger] m.dom().contains(id) implies after_inserts(m, recs)[id]
            == m[id] by {
            assert(id != r0.id);
            assert(m1.dom().contains(id));
            assert(after_inserts(m1, rest)[id] == m1[id]);
            assert(m1[id] == m[id]);
        }
        assert forall|id: u64|
            after_inserts(m, recs).dom().contains(id) <==> m.dom().contains(id) || has_id(
                recs,
                id,
            ) by {
            if has_id(recs, id) {
                let i = choose|i: int| 0 <= i < recs.len() && recs[i].id == id;
                if i == 0 {
                    assert(m1.dom().contains(id));
                } else {
                    assert(rest[i - 1].id == id);
                    assert(has_id(rest, id));
                }
            }
            if has_id(rest, id) {
                let i = choose|i: int| 0 <= i < rest.len() && rest[i].id == id;
                assert(recs[i + 1].id == id);
            }
        }
    }
}

/// For all sequences of inserts with distinct ids into an empty store:
/// every insert finds its id absent (and so succeeds), and afterwards the
/// store holds exactly that set of records, one per insert — which is
/// what a subsequent unfiltered `list` then copies out.
pub proof fn lemma_distinct_inserts(recs: Seq<Simulation>)
    requires
        distinct_ids(recs),
    ensures
        forall|i: int|
            0 <= i < recs.len() ==> !after_inserts(
                Map::<u64, Seq<char>>::empty(),
                recs.take(i),
            ).dom().contains(#[trigger] recs[i].id),
        forall|i: int|
            0 <= i < recs.len() ==> after_inserts(
                Map::<u64, Seq<char>>::empty(),
                recs,
            ).contains_pair(#[trigger] recs[i].id, recs[i].name@),
        forall|id: u64|
            after_inserts(Map::<u64, Seq<char>>::empty(), recs).dom().contains(id) ==> has_id(
                recs,
                id,
            ),
        after_inserts(Map::<u64, Seq<char>>::empty(), recs).dom().len() == recs.len(),
{
    let empty = Map::<u64, Seq<char>>::empty();
    assert(empty.dom() =~= Set::<u64>::empty());
    lemma_inserts_from(empty, recs);
    assert forall|i: int| 0 <= i < recs.len() implies !after_inserts(empty, recs.take(i))
        .dom()
        .contains(#[trigger] recs[i].id) by {
        let pre = recs.take(i);
        assert(distinct_ids(pre)) by {
            assert(forall|p: int, q: int|
                0 <= p < q < pre.len() ==> pre[p] == recs[p] && pre[q] == recs[q]);
        }
        lemma_inserts_from(empty, pre);
        if after_inserts(empty, pre).dom().contains(recs[i].id) {
            assert(has_id(pre, recs[i].id));
            let j = choose|j: int| 0 <= j < pre.len() && pre[j].id == recs[i].id;
            assert(recs[j].id == recs[i].id);
        }
    }
}

/// Upserting the same id twice leaves the latest name: the later binding
/// overwrites the earlier one, and nothing else changes.
pub proof fn lemma_upsert_twice(m: Map<u64, Seq<char>>, id: u64, n1: Seq<char>, n2: Seq<char>)
    ensures
        m.insert(id, n1).insert(id, n2) == m.insert(id, n2),
{
    assert(m.insert(id, n1).insert(id, n2) =~= m.insert(id, n2));
}

/// Removal is idempotent: a second remove of the same id finds nothing
/// and changes nothing.
pub proof fn lemma_remove_idempotent(m: Map<u64, Seq<char>>, id: u64)
    ensures
        !m.remove(id).dom().contains(id),
        m.remove(id).remove(id) == m.remove(id),
{
    assert(m.remove(id).remove(id) =~= m.remove(id));
}

/// Pushing a record whose id is absent from a duplicate-free snapshot
/// keeps the snapshot duplicate-free and adds exactly that binding.
proof fn lemma_push_fresh(s: Seq<Simulation>, sim: Simulation)
    requires
        distinct_ids(s),
        !has_id(s, sim.id),
    ensures
        distinct_ids(s.push(sim)),
        map_of(s.push(sim)) == map_of(s).insert(sim.id, sim.name@),
{
    let t = s.push(sim);
    let id = sim.id;
    assert(forall|j: int| 0 <= j < s.len() ==> s[j].id != id);
    assert forall|k: u64| #[trigger] has_id(t, k) <==> (has_id(s, k) || k == id) by {
        if has_id(t, k) {
            let i = choose|i: int| 0 <= i < t.len() && t[i].id == k;
            if i < s.len() {
                assert(s[i].id == k);
            } else {
                assert(t[i] == sim);
            }
        }
        if has_id(s, k) {
            let i = choose|i: int| 0 <= i < s.len() && s[i].id == k;
            assert(t[i].id == k);
        }
        if k == id {
            assert(t[s.len() as int].id == k);
        }
    }
    assert forall|k: u64| has_id(t, k) implies map_of(t)[k] == map_of(s).insert(id, sim.name@)[k] by {
        lemma_index_of_id(t, k);
        if k == id {
            assert(t[index_of_id(t, k)].id == id);
            assert forall|j: int| 0 <= j < s.len() implies t[j].id != id by {
                assert(t[j] == s[j]);
            }
            assert(index_of_id(t, k) == s.len());
            assert(t[s.len() as int] == sim);
        } else {
            lemma_index_of_id(s, k);
            let i = index_of_id(s, k);
            assert(t[i] == s[i]);
            assert(index_of_id(t, k) == i) by {
                if index_of_id(t, k) < i {
                    assert(s[index_of_id(t, k)].id == k);
                }
                if i < index_of_id(t, k) {
                    assert(t[i].id == k);
                }
            }
        }
    }
    assert(map_of(t) =~= map_of(s).insert(id, sim.name@));
}

/// Deleting the record at the position of `id` in a duplicate-free
/// snapshot keeps the snapshot duplicate-free and unbinds `id` and
/// nothing else.
proof fn lemma_remove_at(s: Seq<Simulation>, i: int, id: u64)
    requires
        distinct_ids(s),
        0 <= i < s.len(),
        s[i].id == id,
    ensures
        distinct_ids(s.remove(i)),
        map_of(s.remove(i)) == map_of(s).remove(id),
{
    let t = s.remove(i);
    assert(t.len() == s.len() - 1);
    assert(forall|j: int| 0 <= j < i ==> t[j] == s[j]);
    assert(forall|j: int| i <= j < t.len() ==> t[j] == s[j + 1]);
    assert forall|k: u64| #[trigger] has_id(t, k) <==> (has_id(s, k) && k != id) by {
        if has_id(t, k) {
            let j = choose|j: int| 0 <= j < t.len() && t[j].id == k;
            if j < i {
                assert(s[j].id == k);
            } else {
                assert(s[j + 1].id == k);
            }
        }
        if has_id(s, k) && k != id {
            let j = choose|j: int| 0 <= j < s.len() && s[j].id == k;
            assert(j != i);
            if j < i {
                assert(t[j].id == k);
            } else {
                assert(t[j - 1].id == k);
            }
        }
    }
    assert forall|k: u64| has_id(t, k) implies map_of(t)[k] == map_of(s)[k] by {
        lemma_index_of_id(t, k);
        lemma_index_of_id(s, k);
        let jt = index_of_id(t, k);
        let js = index_of_id(s, k);
        assert(js != i);
        if js < i {
            assert(t[js].id == k);
            assert(jt == js) by {
                if jt < js {
                    if jt < i {
                        assert(s[jt].id == k);
                    } else {
                        assert(s[jt + 1].id == k);
                    }
                }
            }
            assert(t[jt] == s[js]);
        } else {
            assert(t[js - 1].id == k);
            assert(jt == js - 1) by {
                if jt < js - 1 {
                    if jt < i {
                        assert(s[jt].id == k);
                    } else {
                        assert(s[jt + 1].id == k);
                        assert(jt + 1 < js);
                    }
                }
            }
            assert(t[jt] == s[js]);
        }
    }
    assert(map_of(t) =~= map_of(s).remove(id));
}

} // verus!
