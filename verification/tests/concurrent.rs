use std::sync::Arc;

use holodeck::models::{get_simulation, Simulation};
use holodeck::store::{InsertOutcome, Store};
use tokio::sync::Mutex;

#[test]
fn concurrent_distinct_inserts_all_succeed() {
    let rt = tokio::runtime::Builder::new_multi_thread()
        .worker_threads(4)
        .build()
        .unwrap();
    rt.block_on(async {
        let db = Arc::new(Mutex::new(Store::new()));
        let mut handles = Vec::new();
        for id in 0..50u64 {
            let db = Arc::clone(&db);
            handles.push(tokio::spawn(async move {
                let mut store = db.lock().await;
                matches!(
                    store.insert(Simulation { id, name: format!("sim-{id}") }),
                    InsertOutcome::Created
                )
            }));
        }
        for handle in handles {
            assert!(handle.await.unwrap());
        }

        let store = db.lock().await;
        let all = store.list(None);
        assert_eq!(all.len(), 50);
        for id in 0..50u64 {
            assert_eq!(get_simulation(&all, id).unwrap().name, format!("sim-{id}"));
        }
    });
}
