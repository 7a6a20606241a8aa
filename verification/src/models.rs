//! The record type of the store and lookup over a snapshot of records.
//!
//! A `Simulation` is a uniquely-keyed `{id, name}` entity. As in the
//! service's data model, equality is defined solely by `id`: two records
//! with the same id and different names denote the same entity.

use vstd::prelude::*;

verus! {

/// A named record, keyed by `id`.
#[derive(Debug)]
pub struct Simulation {
    pub id: u64,
    pub name: String,
}

/// The request body of an update: only the new name.
#[derive(Debug)]
pub struct NewName {
    pub name: String,
}

impl Clone for Simulation {
    fn clone(&self) -> (r: Self)
        ensures
            r == *self,
    {
        Simulation { id: self.id, name: self.name.clone() }
    }
}

impl Clone for NewName {
    fn clone(&self) -> (r: Self)
        ensures
            r == *self,
    {
        NewName { name: self.name.clone() }
    }
}

impl PartialEq for Simulation {
    /// Equality is by `id` alone: records are identified by their key.
    fn eq(&self, other: &Self) -> (r: bool) {
        self.id == other.id
    }
}

impl vstd::std_specs::cmp::PartialEqSpecImpl for Simulation {
    open spec fn obeys_eq_spec() -> bool {
        true
    }

    open spec fn eq_spec(&self, other: &Self) -> bool {
        self.id == other.id
    }
}

impl Eq for Simulation {}

/// True when some record in `s` carries the key `id`.
pub open spec fn has_id(s: Seq<Simulation>, id: u64) -> bool {
    exists|i: int| 0 <= i < s.len() && s[i].id == id
}

/// The position of the first record in `s` carrying the key `id`.
pub open spec fn index_of_id(s: Seq<Simulation>, id: u64) -> int
    decreases s.len(),
{
    if s.len() == 0 {
        0
    } else if s[0].id == id {
        0
    } else {
        1 + index_of_id(s.drop_first(), id)
    }
}

/// Where `s` holds `id`, its first occurrence is at `index_of_id(s, id)`
/// and no earlier record carries `id`.
pub proof fn lemma_index_of_id(s: Seq<Simulation>, id: u64)
    requires
        has_id(s, id),
    ensures
        0 <= index_of_id(s, id) < s.len(),
        s[index_of_id(s, id)].id == id,
        forall|j: int| 0 <= j < index_of_id(s, id) ==> s[j].id != id,
    decreases s.len(),
{
    if s.len() == 0 {
    } else if s[0].id == id {
    } else {
        let t = s.drop_first();
        assert(has_id(t, id)) by {
            let i = choose|i: int| 0 <= i < s.len() && s[i].id == id;
            assert(t[i - 1].id == id);
        }
        lemma_index_of_id(t, id);
        assert(forall|j: int| 1 <= j < index_of_id(s, id) ==> s[j] == t[j - 1]);
    }
}

/// Find the record with key `id` in a snapshot of records, if any.
///
/// Unlike a search by full value, only the key is consulted, so the
/// name of the probe plays no part.
pub fn get_simulation<'a>(sims: &'a Vec<Simulation>, id: u64) -> (r: Option<&'a Simulation>)
    ensures
        match r {
            Some(sim) => has_id(sims@, id) && *sim == sims@[index_of_id(sims@, id)],
            None => !has_id(sims@, id),
        },
{
    let n = sims.len();
    let mut i: usize = 0;
    while i < n
        invariant
            n == sims@.len(),
            0 <= i <= n,
            forall|j: int| 0 <= j < i ==> sims@[j].id != id,
        decreases n - i,
    {
        if sims[i].id == id {
            proof {
                lemma_index_of_id(sims@, id);
            }
            return Some(&sims[i]);
        }
        i += 1;
    }
    None
}

} // verus!
