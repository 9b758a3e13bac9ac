//! The database schema read from a file: tables, fields, table occurrences,
//! relations, value lists, scripts, layouts and data sources.

use std::collections::HashMap;
use vstd::prelude::*;

verus! {

broadcast use vstd::std_specs::hash::group_hash_axioms;

#[derive(Debug, PartialEq, Eq, Structural, Clone, Copy)]
pub enum DBObjectKind {
    Table,
    TableOccurrence,
    Field,
    Relation,
    ValueList,
    Script,
    Layout,
}

/// How an object of one schema stands to the same object in another.
#[derive(Debug, PartialEq, Eq, Structural, Clone, Copy)]
pub enum DBObjectStatus {
    Unmodified,
    Modified,
    Created,
    Deleted,
}

/// A reference to a schema object: its data source, its id and, for an
/// object inside another one, its inner id.
#[derive(Debug, PartialEq, Eq, Structural, Clone, Copy)]
pub struct DBObjectReference {
    pub data_source: u16,
    pub top_id: u16,
    pub inner_id: u16,
}

#[derive(Debug, PartialEq, Eq, Clone)]
pub struct Table {
    pub id: usize,
    pub name: String,
    pub fields: HashMap<usize, Field>,
    pub created_by: String,
    pub modified_by: String,
}

impl Table {
    /// A table with the given id, no name and no fields.
    pub fn new(id_: usize) -> (r: Self)
        ensures
            r.id == id_,
            r.name@ == Seq::<char>::empty(),
            r.fields@ == Map::<usize, Field>::empty(),
            r.created_by@ == Seq::<char>::empty(),
            r.modified_by@ == Seq::<char>::empty(),
    {
        Table {
            id: id_,
            name: String::new(),
            fields: HashMap::new(),
            created_by: String::new(),
            modified_by: String::new(),
        }
    }
}

#[derive(Debug, PartialEq, Eq, Structural, Clone, Copy)]
pub enum SerialTrigger {
    OnCreation,
    OnCommit,
}

#[derive(Debug, PartialEq, Eq, Structural, Clone, Copy)]
pub enum DataType {
    Text,
    Number,
    Time,
    Date,
    Timestamp,
    Container,
}

#[derive(Debug, PartialEq, Eq, Structural, Clone, Copy)]
pub enum AutoEntryDataPresets {
    Date,
    Time,
    Timestamp,
    Name,
    AccountName,
}

#[derive(Debug, PartialEq, Eq, Clone)]
pub enum AutoEntryType {
    NA,
    Serial { next: usize, increment: usize, trigger: SerialTrigger },
    Lookup { from: DBObjectReference, to: DBObjectReference },
    Creation(AutoEntryDataPresets),
    Modification(AutoEntryDataPresets),
    LastVisited,
    Data(String),
    Calculation { code: String, noreplace: bool },
}

#[derive(Debug, PartialEq, Eq, Clone)]
pub struct AutoEntry {
    pub nomodify: bool,
    pub definition: AutoEntryType,
}

#[derive(Debug, PartialEq, Eq, Structural, Clone, Copy)]
pub enum ValidationTrigger {
    OnEntry,
    OnCommit,
}

#[derive(Debug, PartialEq, Eq, Clone)]
pub enum ValidationType {
    NotEmpty,
    Unique,
    Required,
    MemberOf(String),
    Range { start: usize, end: usize },
    Calculation(String),
    MaxChars(usize),
}

#[derive(Debug, PartialEq, Eq, Clone)]
pub struct Validation {
    pub trigger: ValidationTrigger,
    pub user_override: bool,
    pub checks: Vec<ValidationType>,
    pub message: String,
}

#[derive(Debug, PartialEq, Eq, Clone)]
pub struct Field {
    pub id: usize,
    pub name: String,
    pub dtype: DataType,
    pub validation: Validation,
    pub autoentry: AutoEntry,
    pub global: bool,
    pub repetitions: usize,
    pub created_by: String,
    pub modified_by: String,
}

impl Field {
    /// A text field with the given id and name, one repetition, no
    /// auto-entry and no validation checks, created and modified by "admin".
    pub fn new(id_: usize, name_: String) -> (r: Self)
        ensures
            r.id == id_,
            r.name == name_,
            r.created_by@ == "admin"@,
            r.modified_by@ == "admin"@,
            r.dtype == DataType::Text,
            !r.global,
            r.repetitions == 1,
            r.autoentry.definition == AutoEntryType::NA,
            !r.autoentry.nomodify,
            r.validation.checks@ == Seq::<ValidationType>::empty(),
            r.validation.message@ == Seq::<char>::empty(),
            r.validation.trigger == ValidationTrigger::OnEntry,
            r.validation.user_override,
    {
        Field {
            id: id_,
            name: name_,
            created_by: "admin".to_owned(),
            modified_by: "admin".to_owned(),
            dtype: DataType::Text,
            global: false,
            repetitions: 1,
            autoentry: AutoEntry { definition: AutoEntryType::NA, nomodify: false },
            validation: Validation {
                checks: Vec::new(),
                message: String::new(),
                trigger: ValidationTrigger::OnEntry,
                user_override: true,
            },
        }
    }

    /// The field with its data type set.
    pub fn datatype(self, dtype_: DataType) -> (r: Self)
        ensures
            r == (Field { dtype: dtype_, ..self }),
    {
        let mut s = self;
        s.dtype = dtype_;
        s
    }

    /// The field with its number of repetitions set.
    pub fn repetitions(self, repetitions_: usize) -> (r: Self)
        ensures
            r == (Field { repetitions: repetitions_, ..self }),
    {
        let mut s = self;
        s.repetitions = repetitions_;
        s
    }

    /// The field with the account that created it set.
    pub fn created_by(self, account: String) -> (r: Self)
        ensures
            r == (Field { created_by: account, ..self }),
    {
        let mut s = self;
        s.created_by = account;
        s
    }

    /// The field with the account that last modified it set.
    pub fn modified_by(self, account: String) -> (r: Self)
        ensures
            r == (Field { modified_by: account, ..self }),
    {
        let mut s = self;
        s.modified_by = account;
        s
    }

    /// The field with its auto-entry set.
    pub fn autoentry(self, definition_: AutoEntryType, nomodify_: bool) -> (r: Self)
        ensures
            r == (Field { autoentry: AutoEntry { definition: definition_, nomodify: nomodify_ }, ..self }),
    {
        let mut s = self;
        s.autoentry = AutoEntry { definition: definition_, nomodify: nomodify_ };
        s
    }

    /// The field with its validation set.
    pub fn validation(self, validation_: Validation) -> (r: Self)
        ensures
            r == (Field { validation: validation_, ..self }),
    {
        let mut s = self;
        s.validation = validation_;
        s
    }
}

#[derive(Debug, PartialEq, Eq, Clone)]
pub struct TableOccurrence {
    pub id: usize,
    pub name: String,
    pub base_table: DBObjectReference,
    pub created_by: String,
    pub modified_by: String,
}

#[derive(Debug, PartialEq, Eq, Structural, Clone, Copy)]
pub enum RelationComparison {
    Equal,
    NotEqual,
    Less,
    LessEqual,
    Greater,
    GreaterEqual,
    Cartesian,
}

#[derive(Debug, PartialEq, Eq, Clone)]
pub enum RelationCriteria {
    ById { field1: u16, field2: u16, comparison: RelationComparison },
    ByName { field1: String, field2: String, comparison: RelationComparison },
}

#[derive(Debug, PartialEq, Eq, Clone)]
pub struct Relation {
    pub id: usize,
    pub table1: DBObjectReference,
    pub table2: DBObjectReference,
    pub criterias: Vec<RelationCriteria>,
}

impl Relation {
    /// A relation between two tables, with no criteria yet.
    pub fn new(id_: usize, table1_: DBObjectReference, table2_: DBObjectReference) -> (r: Self)
        ensures
            r.id == id_,
            r.table1 == table1_,
            r.table2 == table2_,
            r.criterias@ == Seq::<RelationCriteria>::empty(),
    {
        Relation { id: id_, table1: table1_, table2: table2_, criterias: Vec::new() }
    }

    /// The relation with one more criterion, after the others.
    pub fn criteria(self, criteria: RelationCriteria) -> (r: Self)
        ensures
            r.id == self.id,
            r.table1 == self.table1,
            r.table2 == self.table2,
            r.criterias@ == self.criterias@.push(criteria),
    {
        let mut s = self;
        s.criterias.push(criteria);
        s
    }
}

#[derive(Debug, PartialEq, Eq, Structural, Clone, Copy)]
pub enum ValueListSortBy {
    FirstField,
    SecondField,
}

#[derive(Debug, PartialEq, Eq, Clone)]
pub enum ValueListDefinition {
    CustomValues(Vec<String>),
    FromField { field1: String, field2: Option<String>, from: Option<String>, sort: ValueListSortBy },
}

#[derive(Debug, PartialEq, Eq, Clone)]
pub struct ValueList {
    pub id: usize,
    pub name: String,
    pub definition: ValueListDefinition,
    pub created_by: String,
    pub modified_by: String,
}

/// One step of a script: its step number and its arguments.
#[derive(Debug, Clone, PartialEq)]
pub struct ScriptStep {
    pub step_id: u8,
    pub arguments: Vec<String>,
}

#[derive(Debug, Clone, PartialEq)]
pub struct Script {
    pub id: u16,
    pub name: String,
    pub instructions: Vec<ScriptStep>,
    pub arguments: Vec<String>,
    pub created_by: String,
    pub modified_by: String,
}

#[derive(Debug, Clone, PartialEq)]
pub struct Test {
    pub id: u16,
    pub name: String,
    pub script: Script,
}

#[derive(Debug, Clone)]
pub struct LayoutFMAttribute {}

#[derive(Debug, Clone, PartialEq)]
pub struct LayoutFM {
    pub id: usize,
    pub name: String,
    pub table_occurrence: DBObjectReference,
    pub table_occurrence_name: String,
}

#[derive(Debug, Clone, Copy, PartialEq, Eq, Structural)]
pub enum DataSourceType {
    FileMaker,
    ODBC,
}

#[derive(Debug, Clone, PartialEq)]
pub struct DataSource {
    pub id: usize,
    pub name: String,
    pub dstype: DataSourceType,
    pub filename: String,
}

#[derive(Debug, Clone, PartialEq)]
pub struct Schema {
    pub tables: HashMap<usize, Table>,
    pub fields: HashMap<usize, Field>,
    pub table_occurrences: HashMap<usize, TableOccurrence>,
    pub relations: HashMap<usize, Relation>,
    pub value_lists: HashMap<usize, ValueList>,
    pub layouts: HashMap<usize, LayoutFM>,
    pub scripts: HashMap<u16, Script>,
    pub tests: HashMap<u16, Test>,
    pub data_sources: HashMap<u16, DataSource>,
}

impl Schema {
    /// A schema with no objects.
    pub fn new() -> (r: Self)
        ensures
            r.tables@ == Map::<usize, Table>::empty(),
            r.fields@ == Map::<usize, Field>::empty(),
            r.table_occurrences@ == Map::<usize, TableOccurrence>::empty(),
            r.relations@ == Map::<usize, Relation>::empty(),
            r.value_lists@ == Map::<usize, ValueList>::empty(),
            r.layouts@ == Map::<usize, LayoutFM>::empty(),
            r.scripts@ == Map::<u16, Script>::empty(),
            r.tests@ == Map::<u16, Test>::empty(),
            r.data_sources@ == Map::<u16, DataSource>::empty(),
    {
        Schema {
            tables: HashMap::new(),
            fields: HashMap::new(),
            table_occurrences: HashMap::new(),
            relations: HashMap::new(),
            value_lists: HashMap::new(),
            layouts: HashMap::new(),
            scripts: HashMap::new(),
            tests: HashMap::new(),
            data_sources: HashMap::new(),
        }
    }
}

} // verus!
