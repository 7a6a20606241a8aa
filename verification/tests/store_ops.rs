use holodeck::models::{get_simulation, NewName, Simulation};
use holodeck::store::{InsertOutcome, RemoveOutcome, Store, UpsertOutcome};

fn sim(id: u64, name: &str) -> Simulation {
    Simulation { id, name: String::from(name) }
}

#[test]
fn mod_try_list() {
    let simulation1 = sim(1, "The Big Goodbye!");
    let simulation2 = sim(2, "Bride Of Chaotica!");

    let mut db = Store::new();
    assert!(matches!(db.insert(simulation1.clone()), InsertOutcome::Created));
    assert!(matches!(db.insert(simulation2.clone()), InsertOutcome::Created));

    let result = db.list(None);
    assert_eq!(get_simulation(&result, 1).unwrap(), &simulation1);
    assert_eq!(get_simulation(&result, 2).unwrap(), &simulation2);
    assert_eq!(get_simulation(&result, 1).unwrap().name, "The Big Goodbye!");
    assert_eq!(get_simulation(&result, 2).unwrap().name, "Bride Of Chaotica!");

    let result = db.list(Some(2));
    assert_eq!(result.len(), 1);
    assert_eq!(get_simulation(&result, 2).unwrap(), &simulation2);
    assert_eq!(get_simulation(&result, 2).unwrap().name, "Bride Of Chaotica!");
}

#[test]
fn mod_try_create() {
    let mut db = Store::new();
    let outcome = db.insert(sim(1, "The Big Goodbye"));
    assert!(matches!(outcome, InsertOutcome::Created));
}

#[test]
fn mod_try_create_duplicates() {
    let mut db = Store::new();
    assert!(matches!(db.insert(sim(1, "Bride Of Chaotica!")), InsertOutcome::Created));

    match db.insert(sim(1, "Bride Of Chaotica!")) {
        InsertOutcome::AlreadyExists(existing) => {
            assert_eq!(existing.id, 1);
            assert_eq!(existing.name, "Bride Of Chaotica!");
        },
        InsertOutcome::Created => panic!("duplicate insert must be rejected"),
    }
}

#[test]
fn try_update() {
    let mut db = Store::new();
    let first = db.upsert(1, String::from("The Big Goodbye!"));
    assert!(matches!(first, UpsertOutcome::Created));

    let second = db.upsert(1, String::from("The Short Hello!"));
    assert!(matches!(second, UpsertOutcome::Replaced));

    let result = db.list(Some(1));
    assert_eq!(result.len(), 1);
    assert_eq!(result[0].name, "The Short Hello!");
}

#[test]
fn try_delete() {
    let mut db = Store::new();
    assert!(matches!(db.insert(sim(1, "The Big Goodbye!")), InsertOutcome::Created));

    let outcome = db.remove(1);
    assert!(matches!(outcome, RemoveOutcome::Removed));
    assert_eq!(db.list(None).len(), 0);
}

#[test]
fn distinct_inserts_all_listed() {
    let names = ["a", "b", "c", "d", "e"];
    let mut db = Store::new();
    for (i, name) in names.iter().enumerate() {
        let outcome = db.insert(sim(i as u64 + 10, name));
        assert!(matches!(outcome, InsertOutcome::Created));
    }

    let all = db.list(None);
    assert_eq!(all.len(), names.len());
    for (i, name) in names.iter().enumerate() {
        let found = get_simulation(&all, i as u64 + 10).unwrap();
        assert_eq!(found.name, *name);
    }
}

#[test]
fn duplicate_insert_keeps_stored_name() {
    let mut db = Store::new();
    assert!(matches!(db.insert(sim(7, "first")), InsertOutcome::Created));

    match db.insert(sim(7, "second")) {
        InsertOutcome::AlreadyExists(existing) => assert_eq!(existing.name, "first"),
        InsertOutcome::Created => panic!("duplicate insert must be rejected"),
    }

    let result = db.list(Some(7));
    assert_eq!(result.len(), 1);
    assert_eq!(result[0].name, "first");
}

#[test]
fn upsert_twice_keeps_latest_name() {
    let mut db = Store::new();
    assert!(matches!(db.upsert(3, String::from("old")), UpsertOutcome::Created));
    assert!(matches!(db.upsert(3, String::from("new")), UpsertOutcome::Replaced));

    let result = db.list(Some(3));
    assert_eq!(result.len(), 1);
    assert_eq!(result[0].name, "new");
    assert_eq!(db.list(None).len(), 1);
}

#[test]
fn remove_is_idempotent() {
    let mut db = Store::new();
    assert!(matches!(db.insert(sim(5, "ephemeral")), InsertOutcome::Created));

    assert!(matches!(db.remove(5), RemoveOutcome::Removed));
    assert_eq!(db.list(Some(5)).len(), 0);
    assert!(matches!(db.remove(5), RemoveOutcome::NotFound));
    assert_eq!(db.list(Some(5)).len(), 0);
}

#[test]
fn list_filter_misses_absent_id() {
    let mut db = Store::new();
    assert!(matches!(db.insert(sim(1, "present")), InsertOutcome::Created));
    assert_eq!(db.list(Some(2)).len(), 0);
}

#[test]
fn new_store_is_empty() {
    let db = Store::new();
    assert_eq!(db.list(None).len(), 0);
}

#[test]
fn equality_is_by_id_alone() {
    assert_eq!(sim(1, "A"), sim(1, "B"));
    assert_ne!(sim(1, "A"), sim(2, "A"));
    let renamed = NewName { name: String::from("B") };
    assert_eq!(renamed.name, "B");
}
