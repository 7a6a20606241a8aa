//! The request-handling layer: status codes and bodies for each verb.
//!
//! Each handler performs exactly one store operation and maps its outcome
//! to a status code and a response body. The surrounding process decodes
//! the request, takes the store's lock for the duration of the one call,
//! and writes the reply out; everything it sends is fixed here.

use vstd::prelude::*;
use crate::models::{Simulation, NewName};
use crate::store::{Store, InsertOutcome, UpsertOutcome, RemoveOutcome};
use crate::messages::{
    msg_created, msg_conflict, msg_inserted, msg_updated, msg_deleted, msg_no_delete,
    build_created, build_conflict, build_inserted, build_updated, build_deleted, build_no_delete,
};

verus! {

/// `200 OK`.
pub const STATUS_OK: u16 = 200;

/// `201 Created`.
pub const STATUS_CREATED: u16 = 201;

/// `400 Bad Request`.
pub const STATUS_BAD_REQUEST: u16 = 400;

/// A response: a status code and a body.
pub struct Reply {
    pub status: u16,
    pub body: String,
}

/// `GET /holodeck` and `GET /holodeck/{id}`: a snapshot of all records,
/// or of the one with the given id. The reply is this snapshot rendered
/// as JSON with status 200, which the surrounding process produces.
pub fn handle_list_sims(store: &Store, filter_id: Option<u64>) -> (r: Vec<Simulation>)
    requires
        store.wf(),
    ensures
        crate::store::distinct_ids(r@),
        forall|i: int|
            0 <= i < r@.len() ==> #[trigger] store@.contains_pair(r@[i].id, r@[i].name@),
        match filter_id {
            Some(id) => {
                &&& forall|i: int| 0 <= i < r@.len() ==> #[trigger] r@[i].id == id
                &&& r@.len() == if store@.dom().contains(id) { 1int } else { 0int }
            },
            None => forall|id: u64|
                #[trigger] store@.dom().contains(id) ==> crate::models::has_id(r@, id),
        },
{
    store.list(filter_id)
}

/// `POST /holodeck`: insert if the id is free (201), else reject with a
/// message naming the existing record (400), leaving the store unchanged.
pub fn handle_create_sim(store: &mut Store, sim: Simulation) -> (r: Reply)
    requires
        old(store).wf(),
    ensures
        final(store).wf(),
        if old(store)@.dom().contains(sim.id) {
            &&& r.status == STATUS_BAD_REQUEST
            &&& r.body@ == msg_conflict(sim.id, old(store)@[sim.id])
            &&& final(store)@ == old(store)@
        } else {
            &&& r.status == STATUS_CREATED
            &&& r.body@ == msg_created(sim.id)
            &&& final(store)@ == old(store)@.insert(sim.id, sim.name@)
        },
{
    let id = sim.id;
    match store.insert(sim) {
        InsertOutcome::Created => Reply { status: STATUS_CREATED, body: build_created(id) },
        InsertOutcome::AlreadyExists(existing) => Reply {
            status: STATUS_BAD_REQUEST,
            body: build_conflict(id, &existing.name),
        },
    }
}

/// `PUT /holodeck/{id}`: upsert the record. A fresh id reports insertion
/// with 201; a present id has its name replaced and reports 200.
pub fn handle_update_sim(store: &mut Store, id: u64, new: NewName) -> (r: Reply)
    requires
        old(store).wf(),
    ensures
        final(store).wf(),
        final(store)@ == old(store)@.insert(id, new.name@),
        if old(store)@.dom().contains(id) {
            r.status == STATUS_OK && r.body@ == msg_updated(id)
        } else {
            r.status == STATUS_CREATED && r.body@ == msg_inserted(id)
        },
{
    match store.upsert(id, new.name) {
        UpsertOutcome::Replaced => Reply { status: STATUS_OK, body: build_updated(id) },
        UpsertOutcome::Created => Reply { status: STATUS_CREATED, body: build_inserted(id) },
    }
}

/// `DELETE /holodeck/{id}`: remove the record if present. Deletion is
/// reported with 200 either way; the body says whether data was deleted.
pub fn handle_delete_sim(store: &mut Store, id: u64) -> (r: Reply)
    requires
        old(store).wf(),
    ensures
        final(store).wf(),
        final(store)@ == old(store)@.remove(id),
        r.status == STATUS_OK,
        if old(store)@.dom().contains(id) {
            r.body@ == msg_deleted(id)
        } else {
            r.body@ == msg_no_delete()
        },
{
    match store.remove(id) {
        RemoveOutcome::Removed => Reply { status: STATUS_OK, body: build_deleted(id) },
        RemoveOutcome::NotFound => Reply { status: STATUS_OK, body: build_no_delete() },
    }
}

} // verus!
