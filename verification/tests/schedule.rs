use schema_mirror::catalog::{binding, CatalogError, DB};
use schema_mirror::layout::Table;
use schema_mirror::response::MetadataQuery;
use schema_mirror::scheduler::Scheduler;
use schema_mirror::sync::{Sync, TASK_LIMIT};
use schema_mirror::cycle::{begin, CycleStep};
use schema_mirror::error::SyncError;
use schema_mirror::json::Json;
use std::time::Duration;

#[test]
fn pause_is_the_interval_after_every_cycle() {
    let schedule = Scheduler::new(Duration::from_secs(60));
    assert_eq!(schedule.ended_cycles(), 0);
    let (_, pending) = begin(schedule.start_cycle(), 3, 1);
    let pause = match pending.listed(Err("down".to_string())) {
        CycleStep::Failed(_, pause) => pause,
        _ => panic!("a failed listing ends the cycle"),
    };
    assert_eq!(pause.length(), Duration::from_secs(60));
    assert_eq!(pause.ended_cycles(), 1);
    let schedule = pause.over();
    assert_eq!(schedule.ended_cycles(), 1);
    let (_, pending) = begin(schedule.start_cycle(), 4, 1);
    let pause = match pending.listed(Ok(vec![Json::Object(Vec::new())])) {
        CycleStep::Register(pending) => pending.registered(Ok(())).1,
        _ => panic!("an empty cycle goes on to the registration"),
    };
    assert_eq!(pause.length(), Duration::from_secs(60));
    assert_eq!(pause.ended_cycles(), 2);
}

#[test]
fn catalog_admits_queries_after_a_registration() {
    let mut db = DB::new("/tmp/meta/".to_string());
    assert_eq!(db.root(), "/tmp/meta/");
    assert_eq!(db.sql("select * from tags"), Err(CatalogError::NotRegistered));
    assert_eq!(
        db.registered(Err("no schema".to_string())),
        Err(SyncError::SchemaInference("no schema".to_string()))
    );
    assert_eq!(db.sql("select * from tags"), Err(CatalogError::NotRegistered));
    assert_eq!(db.registered(Ok(())), Ok(()));
    assert_eq!(db.sql("select * from tags"), Ok("select * from tags"));
    assert_eq!(
        db.registered(Err("two schemas".to_string())),
        Err(SyncError::SchemaInference("two schemas".to_string()))
    );
    assert_eq!(db.sql("select * from fields"), Ok("select * from fields"));
    assert_eq!(db.root(), "/tmp/meta/");
}

#[test]
fn registration_binds_both_tables_to_their_directories() {
    let bindings = DB::new("/tmp/meta".to_string()).register();
    assert_eq!(bindings.len(), 2);
    assert_eq!(bindings[0].table, Table::Tags);
    assert_eq!(bindings[0].name, "tags");
    assert_eq!(bindings[0].directory, "tags");
    assert_eq!(bindings[0].extension, ".parquet");
    assert_eq!(bindings[1].table, Table::Fields);
    assert_eq!(bindings[1].name, "fields");
    assert_eq!(bindings[1].directory, "fields");
    assert_eq!(bindings[1].extension, ".parquet");
    assert_eq!(binding(Table::Fields).name, "fields");
}

#[test]
fn mirror_is_set_up_from_its_configuration() {
    let sync = Sync::new(
        "test".to_string(),
        "http://localhost:8086".to_string(),
        "/tmp/meta/".to_string(),
        Duration::from_secs(60),
    );
    assert_eq!(sync.database(), "test");
    assert_eq!(sync.url, "http://localhost:8086");
    assert_eq!(sync.path, "/tmp/meta/");
    assert_eq!(sync.interval, Duration::from_secs(60));
    let schedule = sync.setup_sync();
    assert_eq!(schedule.ended_cycles(), 0);
    let db = sync.catalog();
    assert_eq!(db.root(), "/tmp/meta/");
    assert_eq!(db.sql("select 1"), Err(CatalogError::NotRegistered));
    let (query, pending) = sync.begin_cycle(schedule.start_cycle(), 99);
    assert_eq!(query, MetadataQuery::Measurements);
    match pending.listed(Ok(vec![Json::Object(Vec::new())])) {
        CycleStep::Register(pending) => {
            let (report, pause) = pending.registered(Ok(()));
            assert_eq!(report.started_at, 99);
            assert_eq!(pause.length(), Duration::from_secs(60));
        }
        _ => panic!("an empty cycle goes on to the registration"),
    }
    assert_eq!(TASK_LIMIT, 8);
}
