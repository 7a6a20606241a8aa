use holodeck::digits::u64_to_dec;
use holodeck::handlers::{
    handle_create_sim, handle_delete_sim, handle_list_sims, handle_update_sim, STATUS_BAD_REQUEST,
    STATUS_CREATED, STATUS_OK,
};
use holodeck::messages::{
    build_conflict, build_created, build_deleted, build_inserted, build_no_delete, build_updated,
};
use holodeck::models::{NewName, Simulation};
use holodeck::store::Store;

fn sim(id: u64, name: &str) -> Simulation {
    Simulation { id, name: String::from(name) }
}

#[test]
fn create_then_conflict_scenario() {
    let mut db = Store::new();

    let created = handle_create_sim(&mut db, sim(1, "A"));
    assert_eq!(created.status, 201);
    assert_eq!(created.body, "Simulation #1 created.");

    let conflict = handle_create_sim(&mut db, sim(1, "B"));
    assert_eq!(conflict.status, 400);
    assert_eq!(conflict.body, "Simulation #1 already exists under the name A");

    let filtered = handle_list_sims(&db, Some(1));
    assert_eq!(filtered.len(), 1);
    assert_eq!(filtered[0].id, 1);
    assert_eq!(filtered[0].name, "A");
}

#[test]
fn update_inserts_then_replaces() {
    let mut db = Store::new();

    let inserted = handle_update_sim(&mut db, 1, NewName { name: String::from("first") });
    assert_eq!(inserted.status, STATUS_CREATED);
    assert_eq!(inserted.body, "Simulation #1 was inserted.");

    let updated = handle_update_sim(&mut db, 1, NewName { name: String::from("second") });
    assert_eq!(updated.status, STATUS_OK);
    assert_eq!(updated.body, "Simulation #1 was updated.");

    let all = handle_list_sims(&db, None);
    assert_eq!(all.len(), 1);
    assert_eq!(all[0].name, "second");
}

#[test]
fn delete_twice_reports_each_outcome() {
    let mut db = Store::new();
    let created = handle_create_sim(&mut db, sim(9, "short-lived"));
    assert_eq!(created.status, STATUS_CREATED);

    let first = handle_delete_sim(&mut db, 9);
    assert_eq!(first.status, STATUS_OK);
    assert_eq!(first.body, "Simulation #9 was deleted.");

    let second = handle_delete_sim(&mut db, 9);
    assert_eq!(second.status, STATUS_OK);
    assert_eq!(second.body, "No data was deleted.");

    assert_eq!(handle_list_sims(&db, Some(9)).len(), 0);
}

#[test]
fn list_handler_copies_every_record() {
    let mut db = Store::new();
    for id in [4u64, 2, 8] {
        let reply = handle_create_sim(&mut db, sim(id, "room"));
        assert_eq!(reply.status, STATUS_CREATED);
    }

    let mut ids: Vec<u64> = handle_list_sims(&db, None).iter().map(|s| s.id).collect();
    ids.sort();
    assert_eq!(ids, vec![2, 4, 8]);
}

#[test]
fn status_constants_match_http() {
    assert_eq!(STATUS_OK, 200);
    assert_eq!(STATUS_CREATED, 201);
    assert_eq!(STATUS_BAD_REQUEST, 400);
}

#[test]
fn decimal_rendering_exact() {
    assert_eq!(u64_to_dec(0), "0");
    assert_eq!(u64_to_dec(7), "7");
    assert_eq!(u64_to_dec(10), "10");
    assert_eq!(u64_to_dec(42), "42");
    assert_eq!(u64_to_dec(1234567890), "1234567890");
    assert_eq!(u64_to_dec(u64::MAX), "18446744073709551615");
}

#[test]
fn message_builders_exact() {
    assert_eq!(build_created(42), "Simulation #42 created.");
    assert_eq!(
        build_conflict(42, &String::from("Elementary, Dear Data")),
        "Simulation #42 already exists under the name Elementary, Dear Data"
    );
    assert_eq!(build_inserted(42), "Simulation #42 was inserted.");
    assert_eq!(build_updated(42), "Simulation #42 was updated.");
    assert_eq!(build_deleted(42), "Simulation #42 was deleted.");
    assert_eq!(build_no_delete(), "No data was deleted.");
}
