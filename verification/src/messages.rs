//! The response bodies of the service, pinned character for character.
//!
//! Each message is stated as a spec-level sequence of characters and
//! produced by a verified builder, so a handler's contract can name the
//! exact body it returns.

use vstd::prelude::*;
use crate::digits::{dec_digits, u64_to_dec};

verus! {

/// Body of a successful create: `Simulation #{id} created.`
pub open spec fn msg_created(id: u64) -> Seq<char> {
    "Simulation #"@ + dec_digits(id as nat) + " created."@
}

/// Body of a rejected duplicate create:
/// `Simulation #{id} already exists under the name {name}`
pub open spec fn msg_conflict(id: u64, name: Seq<char>) -> Seq<char> {
    "Simulation #"@ + dec_digits(id as nat) + " already exists under the name "@ + name
}

/// Body of an upsert that created a fresh record:
/// `Simulation #{id} was inserted.`
pub open spec fn msg_inserted(id: u64) -> Seq<char> {
    "Simulation #"@ + dec_digits(id as nat) + " was inserted."@
}

/// Body of an upsert that replaced a present record:
/// `Simulation #{id} was updated.`
pub open spec fn msg_updated(id: u64) -> Seq<char> {
    "Simulation #"@ + dec_digits(id as nat) + " was updated."@
}

/// Body of a delete that removed a record: `Simulation #{id} was deleted.`
pub open spec fn msg_deleted(id: u64) -> Seq<char> {
    "Simulation #"@ + dec_digits(id as nat) + " was deleted."@
}

/// Body of a delete of an absent id: `No data was deleted.`
pub open spec fn msg_no_delete() -> Seq<char> {
    "No data was deleted."@
}

/// Build `Simulation #{id}` followed by the given tail.
fn id_message(id: u64, tail: &str) -> (s: String)
    ensures
        s@ == "Simulation #"@ + dec_digits(id as nat) + tail@,
{
    let mut s = String::from_str("Simulation #");
    let num = u64_to_dec(id);
    s.append(num.as_str());
    s.append(tail);
    s
}

/// Build the body of a successful create.
pub fn build_created(id: u64) -> (s: String)
    ensures
        s@ == msg_created(id),
{
    id_message(id, " created.")
}

/// Build the body of a rejected duplicate create, naming the existing
/// record's name.
pub fn build_conflict(id: u64, name: &String) -> (s: String)
    ensures
        s@ == msg_conflict(id, name@),
{
    let mut s = id_message(id, " already exists under the name ");
    s.append(name.as_str());
    s
}

/// Build the body of an upsert that created a fresh record.
pub fn build_inserted(id: u64) -> (s: String)
    ensures
        s@ == msg_inserted(id),
{
    id_message(id, " was inserted.")
}

/// Build the body of an upsert that replaced a present record.
pub fn build_updated(id: u64) -> (s: String)
    ensures
        s@ == msg_updated(id),
{
    id_message(id, " was updated.")
}

/// Build the body of a delete that removed a record.
pub fn build_deleted(id: u64) -> (s: String)
    ensures
        s@ == msg_deleted(id),
{
    id_message(id, " was deleted.")
}

/// Build the body of a delete of an absent id.
pub fn build_no_delete() -> (s: String)
    ensures
        s@ == msg_no_delete(),
{
    String::from_str("No data was deleted.")
}

} // verus!
