use cadmus::emulator::database::{Database, Field, TableObject, TableOccurrence};

/// A database with one table "People" (fields name and age), shown by two
/// occurrences, and a second table "Pets" shown by a third occurrence.
fn sample() -> Database {
    let mut db = Database::new();
    let mut people = TableObject::new("People".to_string());
    let mut name = Field::new();
    name.name = "name".to_string();
    let mut age = Field::new();
    age.name = "age".to_string();
    people.fields.push(name);
    people.fields.push(age);
    let mut pets = TableObject::new("Pets".to_string());
    let mut kind = Field::new();
    kind.name = "kind".to_string();
    pets.fields.push(kind);
    db.tables.push(people);
    db.tables.push(pets);
    db.table_occurrences.push(TableOccurrence::new());
    db.table_occurrences.push(TableOccurrence::new());
    let mut pet_occ = TableOccurrence::new();
    pet_occ.table_ptr = 1;
    db.table_occurrences.push(pet_occ);
    db.set_current_occurrence(0);
    db
}

#[test]
fn create_record_updates_every_occurrence_of_the_table() {
    let mut db = sample();
    db.create_record();
    db.create_record();
    assert_eq!(db.tables[0].fields[0].records, vec![String::new(), String::new()]);
    assert_eq!(db.tables[0].fields[1].records.len(), 2);
    assert_eq!(db.table_occurrences[0].found_set, vec![0, 1]);
    assert_eq!(db.table_occurrences[0].record_ptr, 1);
    assert_eq!(db.table_occurrences[1].found_set, vec![0, 1]);
    assert_eq!(db.table_occurrences[1].record_ptr, 1);
    // The other table and its occurrence are untouched.
    assert!(db.tables[1].fields[0].records.is_empty());
    assert!(db.table_occurrences[2].found_set.is_empty());
}

#[test]
fn write_then_read_current_record() {
    let mut db = sample();
    db.create_record();
    db.create_record();
    *db.get_current_record_by_field_mut("name").unwrap() = "Ada".to_string();
    assert_eq!(db.get_found_set_record_field("name"), "Ada");
    assert_eq!(db.get_found_set_record_field("age"), "");
    assert_eq!(db.get_found_set_record_field("missing"), "");
    assert_eq!(db.get_record_by_field("name", 1).unwrap(), "Ada");
    assert_eq!(db.get_record_by_field("name", 0).unwrap(), "");
    assert_eq!(db.get_field_vals_for_current_table("name"), &vec![String::new(), "Ada".to_string()]);
    assert_eq!(db.get_records_for_current_table().len(), 2);
}

#[test]
fn no_current_record_gives_errors() {
    let mut db = sample();
    assert!(db.get_current_occurrence().get_current_record().is_err());
    assert!(db.get_record_by_field("name", 0).is_err());
    assert!(db.get_current_record_by_field_mut("name").is_err());
}

#[test]
fn navigation_in_found_set() {
    let mut db = sample();
    for _ in 0..4 {
        db.create_record();
    }
    assert_eq!(db.get_current_occurrence().record_ptr, 3);
    db.goto_next_record();
    assert_eq!(db.get_current_occurrence().record_ptr, 3);
    db.goto_previous_record();
    assert_eq!(db.get_current_occurrence().record_ptr, 2);
    db.goto_first_record();
    assert_eq!(db.get_current_occurrence().record_ptr, 0);
    db.goto_previous_record();
    assert_eq!(db.get_current_occurrence().record_ptr, 0);
    db.goto_next_record();
    db.goto_previous_record();
    assert_eq!(db.get_current_occurrence().record_ptr, 0);
    db.goto_record(2);
    assert_eq!(db.get_current_occurrence().get_current_record(), Ok(2));
    db.goto_record(99);
    assert_eq!(db.get_current_occurrence().record_ptr, 3);
    db.goto_first_record();
    db.goto_last_record();
    assert_eq!(db.get_current_occurrence().record_ptr, 3);
}

#[test]
fn found_set_update_and_reset() {
    let mut db = sample();
    for _ in 0..3 {
        db.create_record();
    }
    db.update_found_set(&[2, 0]);
    assert_eq!(db.get_current_occurrence().found_set, vec![2, 0]);
    assert_eq!(db.get_current_occurrence().record_ptr, 0);
    assert_eq!(db.get_current_occurrence().get_current_record(), Ok(2));
    db.goto_next_record();
    db.update_found_set(&[]);
    assert_eq!(db.get_current_occurrence().found_set, vec![0, 1, 2]);
    assert_eq!(db.get_current_occurrence().record_ptr, 1);
    db.update_found_set(&[1]);
    db.reset_found_set();
    assert_eq!(db.get_current_occurrence().found_set, vec![0, 1, 2]);
    // The second occurrence keeps its own found set.
    assert_eq!(db.table_occurrences[1].found_set, vec![0, 1, 2]);
    assert_eq!(db.table_occurrences[1].record_ptr, 2);
}

#[test]
fn tables_by_name_and_clearing() {
    let mut db = sample();
    db.create_record();
    assert_eq!(db.get_table("Pets").unwrap().fields[0].name, "kind");
    assert!(db.get_table("Nobody").is_none());
    db.get_table_mut("People").unwrap().fields[1].records[0] = "7".to_string();
    assert_eq!(db.tables[0].fields[1].records[0], "7");
    db.clear_records();
    assert!(db.tables[0].fields.iter().all(|f| f.records.is_empty()));
    assert_eq!(db.tables[0].fields.len(), 2);
    assert_eq!(db.tables[0].name, "People");
}

#[test]
fn table_object_records() {
    let mut t = TableObject::new("T".to_string());
    let mut a = Field::new();
    a.name = "a".to_string();
    let mut b = Field::new();
    b.name = "b".to_string();
    t.fields.push(a);
    t.fields.push(b);
    t.add_blank_record();
    t.add_blank_record();
    assert_eq!(t.get_records_n(), 2);
    assert_eq!(t.fields[1].records, vec![String::new(), String::new()]);
    // `delete_record` takes out the field at that position.
    t.delete_record(0);
    assert_eq!(t.fields.len(), 1);
    assert_eq!(t.fields[0].name, "b");
}

#[test]
fn current_record_field_reads_the_current_record() {
    let mut db = sample();
    assert_eq!(db.get_current_record_field("name"), "");
    db.create_record();
    db.create_record();
    db.tables[0].fields[0].records[0] = "first".to_string();
    db.tables[0].fields[0].records[1] = "second".to_string();
    assert_eq!(db.get_current_record_field("name"), "second");
    db.goto_first_record();
    assert_eq!(db.get_current_record_field("name"), "first");
}
