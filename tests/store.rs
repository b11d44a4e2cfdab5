use gwen2d_engine::editor::{Menu, TabProject};
use gwen2d_engine::schema::{schema_statements, schema_tables, Table};
use gwen2d_engine::store::{database_url, EngineDb, OpenOutcome};

#[test]
fn fresh_store_is_closed() {
    let db = EngineDb::new();
    assert!(!db.is_loaded());
    assert_eq!(db.status_text(), "");
    assert_eq!(db.location(), None);
    assert_eq!(db.failure_report(), None);
}

#[test]
fn database_url_sets_extension_and_slashes() {
    assert_eq!(database_url("/home/me/game"), "/home/me/game.db");
    assert_eq!(database_url("/home/me/game.old"), "/home/me/game.db");
    assert_eq!(database_url("C:\\games\\demo"), "C:/games/demo.db");
}

#[test]
fn successful_open_loads() {
    let mut db = EngineDb::new();
    let url = db.begin_open("/tmp/demo");
    assert_eq!(url, "/tmp/demo.db");
    assert!(!db.is_loaded());
    assert!(db.finish_open(OpenOutcome::Ready));
    assert!(db.is_loaded());
    assert_eq!(db.status_text(), "/tmp/demo.db");
}

#[test]
fn failed_open_reports_and_can_be_retried() {
    let mut db = EngineDb::new();
    db.begin_open("/nowhere/demo");
    assert!(db.finish_open(OpenOutcome::Failed("disk full".to_string())));
    assert!(!db.is_loaded());
    assert_eq!(db.status_text(), "\u{274c} Erreur : disk full");
    assert_eq!(db.location(), Some("/nowhere/demo.db".to_string()));
    assert_eq!(
        db.failure_report(),
        Some("/nowhere/demo.db: \u{274c} Erreur : disk full".to_string())
    );
    db.begin_open("/tmp/demo");
    db.finish_open(OpenOutcome::Ready);
    assert!(db.is_loaded());
}

#[test]
fn outcome_without_open_changes_nothing() {
    let mut db = EngineDb::new();
    assert!(!db.finish_open(OpenOutcome::Ready));
    assert!(!db.is_loaded());
}

#[test]
fn reopening_same_path_stays_open() {
    let mut db = EngineDb::new();
    db.begin_open("/tmp/demo");
    db.finish_open(OpenOutcome::Ready);
    db.begin_open("/tmp/demo");
    assert!(db.finish_open(OpenOutcome::Ready));
    assert!(db.is_loaded());
    assert_eq!(db.status_text(), "/tmp/demo.db");
}

#[test]
fn two_serialized_opens_last_wins() {
    let mut db = EngineDb::new();
    db.begin_open("/tmp/a");
    db.finish_open(OpenOutcome::Ready);
    db.begin_open("/tmp/b");
    db.finish_open(OpenOutcome::Ready);
    assert!(db.is_loaded());
    assert_eq!(db.status_text(), "/tmp/b.db");
}

#[test]
fn schema_is_created_parents_first_and_if_absent() {
    assert_eq!(schema_tables(), vec![Table::Category, Table::Entity, Table::State, Table::Frame]);
    let stmts = schema_statements();
    assert_eq!(stmts.len(), 4);
    for s in &stmts {
        assert!(s.starts_with("CREATE TABLE IF NOT EXISTS "));
    }
    assert!(stmts[1].contains("REFERENCES category(id)"));
    assert!(stmts[3].contains("position INTEGER NOT NULL"));
    assert_eq!(Table::Frame.parent(), Some(Table::State));
    assert_eq!(Table::Category.parent(), None);
}

#[test]
fn project_tab_creation_path() {
    let _menu = Menu::new();
    let mut tab = TabProject::new("/home/me".to_string());
    assert!(!tab.is_loaded());
    assert_eq!(tab.creation_path(None), None);
    tab.set_project_name("game".to_string());
    assert_eq!(tab.creation_path(None), Some("/home/me/game".to_string()));
    assert_eq!(tab.creation_path(Some("/srv")), Some("/srv/game".to_string()));
    tab.show_creation_window();
    tab.confirm_creation();
    assert!(tab.is_loaded());
    tab.set_path("/srv/game.db".to_string());
    assert_eq!(tab.path(), Some("/srv/game.db".to_string()));
}
