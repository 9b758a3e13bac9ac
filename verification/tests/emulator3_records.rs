use std::collections::BTreeMap;

use cadmus::emulator3::record_store::{Field, RecordStore, Table};

fn person_table() -> Table {
    let mut table = Table {
        id: 1,
        name: "Person".to_string(),
        created_by: String::new(),
        modified_by: String::new(),
        comment: String::new(),
        fields: BTreeMap::new(),
    };
    table.fields.insert(1, Field::new(1, "id".to_string()));
    table.fields.insert(2, Field::new(2, "first_name".to_string()));
    table.fields.insert(3, Field::new(3, "surname".to_string()));
    table
}

#[test]
fn records_test() {
    let mut tables = vec![];
    tables.push(person_table());

    let mut records = RecordStore::new(&tables);
    records.new_record(&tables[0]);

    println!("{:?}", records.records_by_table.get(&1).unwrap()[0]);

    assert_eq!(records.records_by_table.len(), 1);
    assert_eq!(records.records_by_table.get(&1).unwrap().len(), 1);
    records.set_field(1, 1, 1, "1".to_string());
    records.set_field(1, 1, 2, "John".to_string());
    records.set_field(1, 1, 3, "Smith".to_string());
    assert_eq!(records.get_field(1, 1, 1), "1");
    assert_eq!(records.get_field(1, 1, 2), "John");
    assert_eq!(records.get_field(1, 1, 3), "Smith");
    records.new_record(&tables[0]);
    records.set_field(1, 2, 1, "2".to_string());
    records.set_field(1, 2, 2, "Jeff".to_string());
    records.set_field(1, 2, 3, "Keighly".to_string());
    assert_eq!(records.get_field(1, 2, 1), "2");
    assert_eq!(records.get_field(1, 2, 2), "Jeff");
    assert_eq!(records.get_field(1, 2, 3), "Keighly");
    assert_eq!(records.records_by_table.get(&1).unwrap().len(), 2);
    assert_eq!(records.records_by_table.get(&1).unwrap()[0].fields.len(), 3);
    assert_eq!(records.records_by_table.get(&1).unwrap()[1].fields.len(), 3);
    assert_eq!(records.records_by_table.get(&1).unwrap().get(2), None);
    records.set_field(1, 1, 2, "Jeff".to_string());
    assert_eq!(records.get_field(1, 1, 2), "Jeff");
}

#[test]
fn new_record_ids_follow_the_largest() {
    let tables = vec![person_table()];
    let mut records = RecordStore::new(&tables);
    assert_eq!(records.new_record(&tables[0]), 1);
    assert_eq!(records.new_record(&tables[0]), 2);
    // An id set by hand above the others moves the next id past it.
    records.records_by_table.get_mut(&1).unwrap()[1].id = 10;
    assert_eq!(records.new_record(&tables[0]), 11);
    let list = records.records_by_table.get(&1).unwrap();
    let ids: Vec<u32> = list[2].fields.iter().map(|f| f.0).collect();
    assert_eq!(ids, vec![1, 2, 3]);
    assert!(list[2].fields.iter().all(|f| f.1.is_empty()));
}

#[test]
fn new_record_fields_in_key_order() {
    let mut table = person_table();
    table.fields.clear();
    // Keys out of insertion order; the field ids differ from the keys.
    table.fields.insert(7, Field::new(70, "b".to_string()));
    table.fields.insert(2, Field::new(20, "a".to_string()));
    let tables = vec![table];
    let mut records = RecordStore::new(&tables);
    records.new_record(&tables[0]);
    let ids: Vec<u32> = records.records_by_table.get(&1).unwrap()[0].fields.iter().map(|f| f.0).collect();
    assert_eq!(ids, vec![20, 70]);
}

#[test]
fn set_field_leaves_other_values() {
    let tables = vec![person_table()];
    let mut records = RecordStore::new(&tables);
    records.new_record(&tables[0]);
    records.new_record(&tables[0]);
    records.set_field(1, 2, 3, "x".to_string());
    assert_eq!(records.get_field(1, 2, 3), "x");
    assert_eq!(records.get_field(1, 2, 2), "");
    assert_eq!(records.get_field(1, 1, 3), "");
}

#[test]
fn store_has_an_empty_list_per_table() {
    let mut second = person_table();
    second.id = 4;
    let tables = vec![person_table(), second, person_table()];
    let records = RecordStore::new(&tables);
    assert_eq!(records.records_by_table.len(), 2);
    assert!(records.records_by_table.get(&1).unwrap().is_empty());
    assert!(records.records_by_table.get(&4).unwrap().is_empty());
    assert!(records.records_by_table.get(&2).is_none());
}
