use std::rc::Rc;

use cadmus::emulator2::data_source::{DataSource, DataSourceType};
use cadmus::emulator2::database::Database;
use cadmus::emulator2::database_mgr::DatabaseMgr;
use cadmus::emulator2::layout::Layout;
use cadmus::emulator2::record::Record;
use cadmus::emulator2::table::Table;
use cadmus::emulator2::table_occurrence::TableOccurrence;
use cadmus::emulator2::window::{Window, WindowStyle};
use cadmus::emulator2::window_mgr::WindowMgr;

#[test]
fn record_fields_set_and_get() {
    let names = vec!["first".to_string(), "last".to_string()];
    let mut r = Record::new(4, &names);
    assert_eq!(r.get_field("first"), Some(String::new()));
    assert_eq!(r.get_field("middle"), None);
    r.set_field("last", "Lovelace");
    assert_eq!(r.get_field("last"), Some("Lovelace".to_string()));
    assert_eq!(r.get_field("first"), Some(String::new()));
    // A name the record lacks is ignored.
    r.set_field("middle", "x");
    assert_eq!(r.get_field("middle"), None);
}

fn db_with_layouts() -> Database {
    let mut db = Database::new();
    let mut table = Table::new(1).name("People");
    table.field_names.push("name".to_string());
    let table = Rc::new(table);
    db.table_occurrences.push(TableOccurrence::new(5, "People".to_string(), 0, Rc::clone(&table)));
    db.table_occurrences.push(TableOccurrence::new(6, "People 2".to_string(), 0, table));
    db.layouts.push(Rc::new(Layout::new(9, "Second".to_string(), 6)));
    db.layouts.push(Rc::new(Layout::new(3, "Main".to_string(), 5)));
    db.layouts.push(Rc::new(Layout::new(3, "Same id".to_string(), 6)));
    db
}

#[test]
fn window_shows_the_layout_with_the_smallest_id() {
    let db = db_with_layouts();
    let w = Window::new(2, "f".to_string(), "win".to_string(), &db);
    assert_eq!(w.id, 2);
    assert_eq!(w.layout.name, "Main");
    assert_eq!(w.get_table_occurrence_id(), 5);
    assert!(w.style == WindowStyle::Document);
    assert!(w.get_current_found_set().is_none());
    assert!(w.get_current_record_ref().is_none());
}

#[test]
fn window_manager_selects_by_name() {
    let db = db_with_layouts();
    let mut mgr = WindowMgr::new();
    mgr.add_window("f".to_string(), "one".to_string(), &db);
    mgr.add_window("f".to_string(), "two".to_string(), &db);
    mgr.add_window("g".to_string(), "two".to_string(), &db);
    assert_eq!(mgr.current_window().name, "one");
    mgr.select_window_by_name("two");
    assert_eq!(mgr.current_window().id, 1);
    mgr.select_window_by_name("none");
    assert_eq!(mgr.current_window().id, 1);
    mgr.select_window_by_name("one");
    assert_eq!(mgr.current_window().id, 0);
}

#[test]
fn table_builder_and_occurrence_records() {
    let mut table = Table::new(7).name("T");
    assert_eq!(table.id, 7);
    assert_eq!(table.name, "T");
    table.new_record();
    assert!(table.records.is_empty());
    let occ = TableOccurrence::new(1, "T".to_string(), 0, Rc::new(table));
    assert!(occ.get_records().is_empty());
}

#[test]
fn data_sources_open_empty_databases() {
    let mut mgr = DatabaseMgr::new();
    let source = DataSource {
        id: 1,
        name: "Other".to_string(),
        dstype: DataSourceType::FileMaker,
        filename: "other.fmp12".to_string(),
    };
    mgr.load_data_source(&source);
    assert_eq!(mgr.databases.len(), 1);
    assert_eq!(mgr.databases[0].0, "other.fmp12");
    mgr.databases[0].1.tables.push(Table::new(3));
    mgr.add_record("other.fmp12".to_string(), 3);
    assert_eq!(mgr.databases[0].1.tables[0].records.len(), 0);
    // Loading the same file again replaces its database.
    mgr.load_data_source(&source);
    assert_eq!(mgr.databases.len(), 1);
    assert!(mgr.databases[0].1.tables.is_empty());
    let cad = DataSource { id: 2, name: "C".to_string(), dstype: DataSourceType::Cadmus, filename: "c.cad".to_string() };
    mgr.load_data_source(&cad);
    assert_eq!(mgr.databases.len(), 2);
    assert_eq!(mgr.databases[1].0, "c.cad");
}
