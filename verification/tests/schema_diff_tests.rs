use cadmus::diff::{get_diffs, get_relations_diffs, get_table_diffs, get_table_occurrence_diffs, SchemaDiff};
use cadmus::schema::{
    DBObjectReference, DBObjectStatus, DataType, Field, Relation, RelationComparison, RelationCriteria, Schema, Table,
    TableOccurrence,
};

fn table(id: usize, name: &str) -> Table {
    let mut t = Table::new(id);
    t.name = name.to_string();
    t
}

fn occurrence(id: usize, name: &str) -> TableOccurrence {
    TableOccurrence {
        id,
        name: name.to_string(),
        base_table: DBObjectReference { data_source: 0, top_id: 129, inner_id: 0 },
        created_by: String::new(),
        modified_by: String::new(),
    }
}

#[test]
fn field_defaults_and_builders() {
    let f = Field::new(3, "name".to_string());
    assert_eq!(f.created_by, "admin");
    assert_eq!(f.repetitions, 1);
    assert_eq!(f.dtype, DataType::Text);
    let f = f.datatype(DataType::Number).repetitions(4).created_by("me".to_string()).modified_by("you".to_string());
    assert_eq!(f.dtype, DataType::Number);
    assert_eq!(f.repetitions, 4);
    assert_eq!(f.created_by, "me");
    assert_eq!(f.modified_by, "you");
}

#[test]
fn relation_criteria_in_order() {
    let a = DBObjectReference { data_source: 0, top_id: 1, inner_id: 0 };
    let b = DBObjectReference { data_source: 0, top_id: 2, inner_id: 0 };
    let r = Relation::new(7, a.clone(), b.clone())
        .criteria(RelationCriteria::ById { field1: 1, field2: 2, comparison: RelationComparison::Equal })
        .criteria(RelationCriteria::ById { field1: 3, field2: 4, comparison: RelationComparison::Less });
    assert_eq!(r.id, 7);
    assert_eq!(r.criterias.len(), 2);
    assert_eq!(r.criterias[1], RelationCriteria::ById { field1: 3, field2: 4, comparison: RelationComparison::Less });
}

#[test]
fn table_diff_statuses() {
    let mut original = Schema::new();
    let mut updated = Schema::new();
    original.tables.insert(1, table(1, "Person"));
    original.tables.insert(2, table(2, "Job"));
    original.tables.insert(3, table(3, "Old"));
    updated.tables.insert(1, table(1, "Employee"));
    updated.tables.insert(2, table(2, "Job"));
    updated.tables.insert(4, table(4, "New"));
    let diff = get_table_diffs(&original, &updated);
    assert_eq!(diff.len(), 4);
    assert_eq!(diff[&1], DBObjectStatus::Modified);
    assert_eq!(diff[&2], DBObjectStatus::Unmodified);
    assert_eq!(diff[&3], DBObjectStatus::Deleted);
    assert_eq!(diff[&4], DBObjectStatus::Created);
}

#[test]
fn field_change_modifies_table() {
    let mut original = Schema::new();
    let mut updated = Schema::new();
    let mut t = table(1, "Person");
    t.fields.insert(1, Field::new(1, "name".to_string()));
    original.tables.insert(1, t.clone());
    t.fields.insert(1, Field::new(1, "name".to_string()).repetitions(2));
    updated.tables.insert(1, t);
    assert_eq!(get_table_diffs(&original, &updated)[&1], DBObjectStatus::Modified);
    assert_eq!(get_table_diffs(&original, &original)[&1], DBObjectStatus::Unmodified);
}

#[test]
fn occurrence_and_schema_diffs() {
    let mut original = Schema::new();
    let mut updated = Schema::new();
    original.table_occurrences.insert(1, occurrence(1, "a"));
    updated.table_occurrences.insert(1, occurrence(1, "a"));
    updated.table_occurrences.insert(2, occurrence(2, "b"));
    let occ = get_table_occurrence_diffs(&original, &updated);
    assert_eq!(occ[&1], DBObjectStatus::Unmodified);
    assert_eq!(occ[&2], DBObjectStatus::Created);
    assert_eq!(get_relations_diffs(&original, &updated), occ);
    let all = get_diffs(&original, &updated);
    assert_eq!(all.table_occurrences, occ);
    assert!(all.tables.is_empty());
    assert!(all.relations.is_empty());
    let empty = SchemaDiff::new();
    assert!(empty.scripts.is_empty());
}

#[test]
fn diff_reports_by_object_id() {
    let mut original = Schema::new();
    let mut updated = Schema::new();
    original.tables.insert(10, table(1, "Person"));
    updated.tables.insert(10, table(1, "Person"));
    updated.tables.insert(20, table(2, "Job"));
    let diff = get_table_diffs(&original, &updated);
    assert_eq!(diff.len(), 2);
    assert_eq!(diff[&1], DBObjectStatus::Unmodified);
    assert_eq!(diff[&2], DBObjectStatus::Created);
    assert!(!diff.contains_key(&10));

    let mut moved = Schema::new();
    moved.tables.insert(11, table(1, "Person"));
    let diff = get_table_diffs(&original, &moved);
    assert_eq!(diff.len(), 1);
    assert_eq!(diff[&1], DBObjectStatus::Modified);
    let back = get_table_diffs(&moved, &Schema::new());
    assert_eq!(back[&1], DBObjectStatus::Deleted);
}
