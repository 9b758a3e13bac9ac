use cadmus::emulator2::database::Database;
use cadmus::schema::{DBObjectReference, Field, LayoutFM, Schema, Script, ScriptStep, Table, TableOccurrence};

fn reference(top_id: u16) -> DBObjectReference {
    DBObjectReference { data_source: 0, top_id, inner_id: 0 }
}

fn sample_schema() -> Schema {
    let mut schema = Schema::new();
    let mut person = Table::new(1);
    person.name = "Person".to_string();
    person.fields.insert(1, Field::new(1, "first".to_string()));
    person.fields.insert(2, Field::new(2, "last".to_string()));
    let mut job = Table::new(2);
    job.name = "Job".to_string();
    schema.tables.insert(1, person);
    schema.tables.insert(2, job);
    schema.table_occurrences.insert(
        10,
        TableOccurrence {
            id: 10,
            name: "Person_occ".to_string(),
            base_table: reference(1),
            created_by: String::new(),
            modified_by: String::new(),
        },
    );
    schema.layouts.insert(
        4,
        LayoutFM {
            id: 4,
            name: "Person layout".to_string(),
            table_occurrence: reference(10),
            table_occurrence_name: "Person_occ".to_string(),
        },
    );
    schema.scripts.insert(
        7,
        Script {
            id: 7,
            name: "make".to_string(),
            instructions: vec![ScriptStep { step_id: 3, arguments: vec!["x".to_string()] }],
            arguments: vec![],
            created_by: "admin".to_string(),
            modified_by: String::new(),
        },
    );
    schema
}

#[test]
fn database_from_schema() {
    let db = Database::from_schema(&sample_schema());
    assert_eq!(db.tables.len(), 2);
    let person = db.tables.iter().find(|t| t.id == 1).unwrap();
    assert_eq!(person.name, "Person");
    let mut names = person.field_names.clone();
    names.sort();
    assert_eq!(names, vec!["first".to_string(), "last".to_string()]);
    assert!(person.records.is_empty());
    assert_eq!(db.tables.iter().find(|t| t.id == 2).unwrap().name, "Job");

    assert_eq!(db.table_occurrences.len(), 1);
    let occ = &db.table_occurrences[0];
    assert_eq!(occ.id, 10);
    assert_eq!(occ.name, "Person_occ");
    assert_eq!(occ.table.name, "Person");
    assert_eq!(occ.table.field_names.len(), 2);

    assert_eq!(db.layouts.len(), 1);
    assert_eq!(db.layouts[0].id, 4);
    assert_eq!(db.layouts[0].table_occurrence_id, 10);

    assert_eq!(db.scripts.len(), 1);
    assert_eq!(db.scripts[0].name, "make");
    assert_eq!(db.scripts[0].instructions[0].arguments, vec!["x".to_string()]);
    assert!(db.external_sources.is_empty());
}
