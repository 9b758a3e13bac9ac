//! The record store of the emulator: base tables with their field values,
//! and table occurrences, each with its own found set and current record.

use vstd::prelude::*;
use crate::schema::RelationCriteria;

verus! {

/// A field of a base table and its value in each record.
#[derive(Clone, PartialEq, Debug)]
pub struct Field {
    pub name: String,
    pub records: Vec<String>,
}

impl Field {
    /// A field with no name and no records.
    pub fn new() -> (r: Self)
        ensures
            r.name@ == Seq::<char>::empty(),
            r.records@ == Seq::<String>::empty(),
    {
        Field { name: String::new(), records: Vec::new() }
    }
}

/// A base table: its fields, each holding one value per record.
#[derive(Clone, PartialEq, Debug)]
pub struct TableObject {
    pub name: String,
    pub fields: Vec<Field>,
}

impl TableObject {
    /// A table with the given name and no fields.
    pub fn new(table_name: String) -> (r: Self)
        ensures
            r.name == table_name,
            r.fields@ == Seq::<Field>::empty(),
    {
        TableObject { name: table_name, fields: Vec::new() }
    }

    /// Adds a record whose value is empty in every field.
    pub fn add_blank_record(&mut self)
        ensures
            final(self).name == old(self).name,
            final(self).fields@.len() == old(self).fields@.len(),
            forall|i: int|
                0 <= i < old(self).fields@.len() ==> (#[trigger] final(self).fields@[i]).name == old(self).fields@[i].name
                    && final(self).fields@[i].records@.len() == old(self).fields@[i].records@.len() + 1
                    && final(self).fields@[i].records@.drop_last() == old(self).fields@[i].records@
                    && final(self).fields@[i].records@.last()@ == Seq::<char>::empty(),
    {
        let n = self.fields.len();
        let mut i: usize = 0;
        while i < n
            invariant
                n == old(self).fields@.len(),
                i <= n,
                self.name == old(self).name,
                self.fields@.len() == n,
                forall|j: int|
                    0 <= j < i ==> (#[trigger] self.fields@[j]).name == old(self).fields@[j].name
                        && self.fields@[j].records@.len() == old(self).fields@[j].records@.len() + 1
                        && self.fields@[j].records@.drop_last() == old(self).fields@[j].records@
                        && self.fields@[j].records@.last()@ == Seq::<char>::empty(),
                forall|j: int| i <= j < n ==> #[trigger] self.fields@[j] == old(self).fields@[j],
            decreases n - i,
        {
            let mut f = self.fields.remove(i);
            let ghost before = f.records@;
            f.records.push(String::new());
            assert(f.records@.drop_last() =~= before);
            self.fields.insert(i, f);
            i = i + 1;
        }
    }

    /// The number of records, as held by the first field.
    pub fn get_records_n(&self) -> (r: usize)
        requires
            self.fields@.len() > 0,
        ensures
            r == self.fields@[0].records@.len(),
    {
        self.fields[0].records.len()
    }

    /// Removes the field at position `record_id`.
    pub fn delete_record(&mut self, record_id: u16)
        requires
            (record_id as int) < old(self).fields@.len(),
        ensures
            final(self).name == old(self).name,
            final(self).fields@ == old(self).fields@.remove(record_id as int),
    {
        self.fields.remove(record_id as usize);
    }
}

/// The records of another occurrence related to the current record of an
/// occurrence, and the criteria that relate them.
#[derive(Clone, Debug)]
pub struct RelatedRecordSet {
    relationship: Vec<RelationCriteria>,
    occurrence: usize,
    records: Vec<usize>,
}

impl RelatedRecordSet {
    /// The occurrence these records belong to.
    pub closed spec fn target(&self) -> usize {
        self.occurrence
    }

    /// The related record numbers.
    pub closed spec fn record_ids(&self) -> Seq<usize> {
        self.records@
    }
}

/// A table occurrence: the table it shows, its found set (record numbers
/// of that table) and the position of the current record in the found set.
#[derive(Clone)]
pub struct TableOccurrence {
    pub found_set: Vec<usize>,
    pub table_ptr: u16,
    pub record_ptr: usize,
    pub related_records: Vec<RelatedRecordSet>,
}

impl TableOccurrence {
    /// An occurrence of table 0 with an empty found set.
    pub fn new() -> (r: Self)
        ensures
            r.found_set@ == Seq::<usize>::empty(),
            r.table_ptr == 0,
            r.record_ptr == 0,
            r.related_records@ == Seq::<RelatedRecordSet>::empty(),
    {
        TableOccurrence { found_set: Vec::new(), table_ptr: 0, record_ptr: 0, related_records: Vec::new() }
    }

    /// The record number of the current record, or an error when the
    /// current position lies outside the found set.
    pub fn get_current_record(&self) -> (r: Result<usize, &str>)
        ensures
            self.record_ptr < self.found_set@.len() ==> r == Ok::<usize, &str>(self.found_set@[self.record_ptr as int]),
            self.record_ptr >= self.found_set@.len() ==> r == Err::<usize, &str>("No Record found."),
    {
        if self.record_ptr < self.found_set.len() {
            Ok(self.found_set[self.record_ptr])
        } else {
            Err("No Record found.")
        }
    }
}

/// The position of the first entry of `names` with the name `name`.
pub open spec fn first_named(names: Seq<Seq<char>>, name: Seq<char>) -> Option<int>
    decreases names.len(),
{
    if names.len() == 0 {
        None
    } else {
        match first_named(names.drop_last(), name) {
            Some(i) => Some(i),
            None => if names.last() == name { Some(names.len() - 1) } else { None },
        }
    }
}

pub proof fn lemma_first_named(names: Seq<Seq<char>>, name: Seq<char>)
    ensures
        first_named(names, name) matches Some(i) ==> 0 <= i < names.len() && names[i] == name
            && forall|j: int| 0 <= j < i ==> names[j] != name,
        first_named(names, name) is None ==> forall|j: int| 0 <= j < names.len() ==> names[j] != name,
    decreases names.len(),
{
    if names.len() > 0 {
        lemma_first_named(names.drop_last(), name);
        assert(forall|j: int| 0 <= j < names.len() - 1 ==> names.drop_last()[j] == names[j]);
    }
}

/// The names of a list of fields.
pub open spec fn field_names(fields: Seq<Field>) -> Seq<Seq<char>> {
    fields.map_values(|f: Field| f.name@)
}

/// The names of a list of tables.
pub open spec fn table_names(tables: Seq<TableObject>) -> Seq<Seq<char>> {
    tables.map_values(|t: TableObject| t.name@)
}

/// The names in a list of name-to-occurrence entries.
pub open spec fn entry_names(entries: Seq<(String, u16)>) -> Seq<Seq<char>> {
    entries.map_values(|e: (String, u16)| e.0@)
}

/// The position of the first field named `name`.
fn find_field(fields: &Vec<Field>, name: &str) -> (r: Option<usize>)
    ensures
        match r {
            Some(i) => first_named(field_names(fields@), name@) == Some(i as int),
            None => first_named(field_names(fields@), name@) is None,
        },
{
    let ghost ns = field_names(fields@);
    let target = name.to_owned();
    let mut i: usize = 0;
    while i < fields.len()
        invariant
            i <= fields@.len(),
            ns == field_names(fields@),
            target@ == name@,
            forall|j: int| 0 <= j < i ==> ns[j] != name@,
        decreases fields.len() - i,
    {
        if fields[i].name == target {
            proof {
                lemma_prefix_first_named(ns, name@, i as int);
            }
            return Some(i);
        }
        i = i + 1;
    }
    proof {
        lemma_none_first_named(ns, name@);
    }
    None
}

/// The position of the first table named `name`.
fn find_table(tables: &Vec<TableObject>, name: &str) -> (r: Option<usize>)
    ensures
        match r {
            Some(i) => first_named(table_names(tables@), name@) == Some(i as int),
            None => first_named(table_names(tables@), name@) is None,
        },
{
    let ghost ns = table_names(tables@);
    let target = name.to_owned();
    let mut i: usize = 0;
    while i < tables.len()
        invariant
            i <= tables@.len(),
            ns == table_names(tables@),
            target@ == name@,
            forall|j: int| 0 <= j < i ==> ns[j] != name@,
        decreases tables.len() - i,
    {
        if tables[i].name == target {
            proof {
                lemma_prefix_first_named(ns, name@, i as int);
            }
            return Some(i);
        }
        i = i + 1;
    }
    proof {
        lemma_none_first_named(ns, name@);
    }
    None
}

/// The position of the first entry named `name`.
fn find_entry(entries: &Vec<(String, u16)>, name: &str) -> (r: Option<usize>)
    ensures
        match r {
            Some(i) => first_named(entry_names(entries@), name@) == Some(i as int),
            None => first_named(entry_names(entries@), name@) is None,
        },
{
    let ghost ns = entry_names(entries@);
    let target = name.to_owned();
    let mut i: usize = 0;
    while i < entries.len()
        invariant
            i <= entries@.len(),
            ns == entry_names(entries@),
            target@ == name@,
            forall|j: int| 0 <= j < i ==> ns[j] != name@,
        decreases entries.len() - i,
    {
        if entries[i].0 == target {
            proof {
                lemma_prefix_first_named(ns, name@, i as int);
            }
            return Some(i);
        }
        i = i + 1;
    }
    proof {
        lemma_none_first_named(ns, name@);
    }
    None
}

pub proof fn lemma_prefix_first_named(names: Seq<Seq<char>>, name: Seq<char>, i: int)
    requires
        0 <= i < names.len(),
        names[i] == name,
        forall|j: int| 0 <= j < i ==> names[j] != name,
    ensures
        first_named(names, name) == Some(i),
{
    lemma_first_named(names, name);
}

pub proof fn lemma_none_first_named(names: Seq<Seq<char>>, name: Seq<char>)
    requires
        forall|j: int| 0 <= j < names.len() ==> names[j] != name,
    ensures
        first_named(names, name) is None,
{
    lemma_first_named(names, name);
}

/// The emulated database: base tables, table occurrences, an index of
/// occurrences by name, and the current occurrence.
pub struct Database {
    pub table_occurrences: Vec<TableOccurrence>,
    occurrence_indices: Vec<(String, u16)>,
    occurrence_handle: u16,
    pub tables: Vec<TableObject>,
}

/// A table after `add_blank_record`: same name and fields, one more empty
/// value in each field.
pub open spec fn with_blank_record(old_t: TableObject, new_t: TableObject) -> bool {
    &&& new_t.name == old_t.name
    &&& new_t.fields@.len() == old_t.fields@.len()
    &&& forall|i: int|
        0 <= i < old_t.fields@.len() ==> (#[trigger] new_t.fields@[i]).name == old_t.fields@[i].name
            && new_t.fields@[i].records@.len() == old_t.fields@[i].records@.len() + 1
            && new_t.fields@[i].records@.drop_last() == old_t.fields@[i].records@
            && new_t.fields@[i].records@.last()@ == Seq::<char>::empty()
}

/// `t2` is the table `t` with the value of field `f` in record `id`
/// replaced by `v`.
pub open spec fn with_value(t: TableObject, t2: TableObject, f: int, id: int, v: String) -> bool {
    &&& t2.name == t.name
    &&& t2.fields@.len() == t.fields@.len()
    &&& forall|j: int| 0 <= j < t.fields@.len() && j != f ==> #[trigger] t2.fields@[j] == t.fields@[j]
    &&& t2.fields@[f].name == t.fields@[f].name
    &&& t2.fields@[f].records@ == t.fields@[f].records@.update(id, v)
}

/// `d2` is the database `d` with the value at table `t`, field `f`, record
/// `id` replaced by `v`.
pub open spec fn with_table_value(d: DatabaseView, d2: DatabaseView, t: int, f: int, id: int, v: String) -> bool {
    &&& d2 == (DatabaseView { tables: d.tables.update(t, d2.tables[t]), ..d })
    &&& with_value(d.tables[t], d2.tables[t], f, id, v)
}

/// The position of the first related-record set for occurrence `target`.
pub open spec fn first_related(rel: Seq<RelatedRecordSet>, target: usize) -> Option<int>
    decreases rel.len(),
{
    if rel.len() == 0 {
        None
    } else if rel[0].target() == target {
        Some(0)
    } else {
        match first_related(rel.drop_first(), target) {
            Some(j) => Some(j + 1),
            None => None,
        }
    }
}

/// The first related-record set for occurrence `target` exists and holds a
/// record.
pub open spec fn related_ok(rel: Seq<RelatedRecordSet>, target: usize) -> bool {
    match first_related(rel, target) {
        Some(j) => 0 <= j < rel.len() && rel[j].record_ids().len() > 0,
        None => false,
    }
}

/// What reading record `n` of field `field` of the occurrence named
/// `occurrence`, through the related records of the current occurrence,
/// needs: the name is known, the current occurrence holds related records
/// for it, and the table, the field and the record exist.
pub open spec fn related_access(d: DatabaseView, occurrence: Seq<char>, field: Seq<char>, n: int) -> bool {
    &&& d.occurrence_of_name(occurrence) matches Some(h)
    &&& (h as int) < d.occurrences.len()
    &&& d.has_current()
    &&& related_ok(d.current().related_records@, h as usize)
    &&& (d.occurrences[h as int].table_ptr as int) < d.tables.len()
    &&& first_named(field_names(d.tables[d.occurrences[h as int].table_ptr as int].fields@), field) matches Some(i)
    &&& 0 <= n < d.tables[d.occurrences[h as int].table_ptr as int].fields@[i].records@.len()
}

/// The current occurrence of `d` moved to position `p` of its found set.
pub open spec fn at_position(d: DatabaseView, p: usize) -> DatabaseView {
    d.with_current(TableOccurrence { record_ptr: p, ..d.current() })
}

/// The state after `goto_record(id)`.
pub open spec fn goto_state(d: DatabaseView, id: usize) -> DatabaseView {
    if id >= d.current().found_set@.len() {
        at_position(d, (d.current().found_set@.len() - 1) as usize)
    } else {
        at_position(d, id)
    }
}

/// The state after `goto_previous_record`.
pub open spec fn previous_state(d: DatabaseView) -> DatabaseView {
    if d.current().record_ptr > 0 {
        at_position(d, (d.current().record_ptr - 1) as usize)
    } else {
        at_position(d, d.current().record_ptr)
    }
}

/// The state after `goto_next_record`.
pub open spec fn next_state(d: DatabaseView) -> DatabaseView {
    if d.current().record_ptr < d.current().found_set@.len() - 1 {
        at_position(d, (d.current().record_ptr + 1) as usize)
    } else {
        at_position(d, d.current().record_ptr)
    }
}

/// The record numbers `0 .. n`.
pub open spec fn all_records(n: nat) -> Seq<usize> {
    Seq::new(n, |i: int| i as usize)
}

/// The mathematical state of a database: its occurrences, its tables, the
/// number of the current occurrence and the index of occurrences by name.
pub ghost struct DatabaseView {
    pub occurrences: Seq<TableOccurrence>,
    pub tables: Seq<TableObject>,
    pub handle: u16,
    pub names: Seq<(Seq<char>, u16)>,
}

impl DatabaseView {
    /// The occurrence number recorded for a name (its first entry).
    pub open spec fn occurrence_of_name(self, name: Seq<char>) -> Option<u16> {
        match first_named(self.names.map_values(|e: (Seq<char>, u16)| e.0), name) {
            Some(i) => Some(self.names[i].1),
            None => None,
        }
    }

    pub open spec fn has_current(self) -> bool {
        (self.handle as int) < self.occurrences.len()
    }

    pub open spec fn current(self) -> TableOccurrence {
        self.occurrences[self.handle as int]
    }

    pub open spec fn has_current_table(self) -> bool {
        self.has_current() && (self.current().table_ptr as int) < self.tables.len()
    }

    pub open spec fn current_table(self) -> TableObject {
        self.tables[self.current().table_ptr as int]
    }

    /// This state with the current occurrence replaced by `occ`.
    pub open spec fn with_current(self, occ: TableOccurrence) -> DatabaseView {
        DatabaseView { occurrences: self.occurrences.update(self.handle as int, occ), ..self }
    }
}

impl View for Database {
    type V = DatabaseView;

    closed spec fn view(&self) -> DatabaseView {
        DatabaseView {
            occurrences: self.table_occurrences@,
            tables: self.tables@,
            handle: self.occurrence_handle,
            names: self.occurrence_indices@.map_values(|e: (String, u16)| (e.0@, e.1)),
        }
    }
}

impl Database {
    /// An empty database whose current occurrence is 0.
    pub fn new() -> (r: Self)
        ensures
            r@.occurrences == Seq::<TableOccurrence>::empty(),
            r@.tables == Seq::<TableObject>::empty(),
            r@.handle == 0,
            r@.names == Seq::<(Seq<char>, u16)>::empty(),
    {
        let r = Database {
            table_occurrences: Vec::new(),
            occurrence_indices: Vec::new(),
            occurrence_handle: 0,
            tables: Vec::new(),
        };
        assert(r@.names =~= Seq::<(Seq<char>, u16)>::empty());
        r
    }

    /// Empties every field of every table, keeping the tables and fields.
    pub fn clear_records(&mut self)
        ensures
            final(self)@.occurrences == old(self)@.occurrences,
            final(self)@.handle == old(self)@.handle,
            final(self)@.names == old(self)@.names,
            final(self)@.tables.len() == old(self)@.tables.len(),
            forall|i: int|
                0 <= i < old(self)@.tables.len() ==> (#[trigger] final(self)@.tables[i]).name == old(self)@.tables[i].name
                    && final(self)@.tables[i].fields@.len() == old(self)@.tables[i].fields@.len()
                    && forall|j: int|
                    0 <= j < old(self)@.tables[i].fields@.len() ==> (#[trigger] final(self)@.tables[i].fields@[j]).name
                        == old(self)@.tables[i].fields@[j].name && final(self)@.tables[i].fields@[j].records@.len()
                        == 0,
    {
        let n = self.tables.len();
        let mut i: usize = 0;
        while i < n
            invariant
                n == old(self).tables@.len(),
                i <= n,
                self.table_occurrences == old(self).table_occurrences,
                self.occurrence_handle == old(self).occurrence_handle,
                self.occurrence_indices == old(self).occurrence_indices,
                self.tables@.len() == n,
                forall|k: int|
                    0 <= k < i ==> (#[trigger] self.tables@[k]).name == old(self).tables@[k].name
                        && self.tables@[k].fields@.len() == old(self).tables@[k].fields@.len()
                        && forall|j: int|
                        0 <= j < old(self).tables@[k].fields@.len() ==> (#[trigger] self.tables@[k].fields@[j]).name
                            == old(self).tables@[k].fields@[j].name && self.tables@[k].fields@[j].records@.len()
                            == 0,
                forall|k: int| i <= k < n ==> #[trigger] self.tables@[k] == old(self).tables@[k],
            decreases n - i,
        {
            let mut table = self.tables.remove(i);
            let m = table.fields.len();
            let mut j: usize = 0;
            while j < m
                invariant
                    m == table.fields@.len(),
                    j <= m,
                    table.name == old(self).tables@[i as int].name,
                    m == old(self).tables@[i as int].fields@.len(),
                    forall|l: int|
                        0 <= l < j ==> (#[trigger] table.fields@[l]).name == old(self).tables@[i as int].fields@[l].name
                            && table.fields@[l].records@.len() == 0,
                    forall|l: int| j <= l < m ==> #[trigger] table.fields@[l] == old(self).tables@[i as int].fields@[l],
                decreases m - j,
            {
                let mut f = table.fields.remove(j);
                f.records.clear();
                table.fields.insert(j, f);
                j = j + 1;
            }
            self.tables.insert(i, table);
            i = i + 1;
        }
    }

    /// Adds an empty record to the table of the current occurrence. Every
    /// occurrence of that table takes the new record into its found set and
    /// makes it its current record.
    pub fn create_record(&mut self)
        requires
            old(self)@.has_current_table(),
            old(self)@.current_table().fields@.len() > 0,
        ensures
            ({
                let t = old(self)@.current().table_ptr as int;
                let n = old(self)@.current_table().fields@[0].records@.len();
                &&& final(self)@.handle == old(self)@.handle
                &&& final(self)@.names == old(self)@.names
                &&& final(self)@.tables.len() == old(self)@.tables.len()
                &&& with_blank_record(old(self)@.tables[t], final(self)@.tables[t])
                &&& forall|k: int| 0 <= k < old(self)@.tables.len() && k != t ==> final(self)@.tables[k] == old(self)@.tables[k]
                &&& final(self)@.occurrences.len() == old(self)@.occurrences.len()
                &&& forall|k: int|
                    0 <= k < old(self)@.occurrences.len() ==> if old(self)@.occurrences[k].table_ptr as int == t {
                        &&& (#[trigger] final(self)@.occurrences[k]).found_set@ == old(self)@.occurrences[k].found_set@.push(
                            n as usize,
                        )
                        &&& final(self)@.occurrences[k].record_ptr == old(self)@.occurrences[k].found_set@.len()
                        &&& final(self)@.occurrences[k].table_ptr == old(self)@.occurrences[k].table_ptr
                        &&& final(self)@.occurrences[k].related_records == old(self)@.occurrences[k].related_records
                    } else {
                        final(self)@.occurrences[k] == old(self)@.occurrences[k]
                    }
            }),
    {
        let handle = self.occurrence_handle;
        let table_idx = self.table_occurrences[handle as usize].table_ptr;
        let mut table = self.tables.remove(table_idx as usize);
        table.add_blank_record();
        let n = table.get_records_n() - 1;
        self.tables.insert(table_idx as usize, table);
        let len = self.table_occurrences.len();
        let mut k: usize = 0;
        while k < len
            invariant
                len == old(self).table_occurrences@.len(),
                k <= len,
                self.table_occurrences@.len() == len,
                self.occurrence_handle == old(self).occurrence_handle,
                self.occurrence_indices == old(self).occurrence_indices,
                table_idx == old(self)@.current().table_ptr,
                n == old(self)@.current_table().fields@[0].records@.len(),
                self.tables@.len() == old(self).tables@.len(),
                with_blank_record(old(self).tables@[table_idx as int], self.tables@[table_idx as int]),
                forall|j: int|
                    0 <= j < old(self).tables@.len() && j != table_idx as int ==> self.tables@[j] == old(self).tables@[j],
                forall|j: int|
                    0 <= j < k ==> if old(self).table_occurrences@[j].table_ptr == table_idx {
                        &&& (#[trigger] self.table_occurrences@[j]).found_set@ == old(self).table_occurrences@[j].found_set@.push(n)
                        &&& self.table_occurrences@[j].record_ptr == old(self).table_occurrences@[j].found_set@.len()
                        &&& self.table_occurrences@[j].table_ptr == old(self).table_occurrences@[j].table_ptr
                        &&& self.table_occurrences@[j].related_records == old(self).table_occurrences@[j].related_records
                    } else {
                        self.table_occurrences@[j] == old(self).table_occurrences@[j]
                    },
                forall|j: int| k <= j < len ==> #[trigger] self.table_occurrences@[j] == old(self).table_occurrences@[j],
            decreases len - k,
        {
            if self.table_occurrences[k].table_ptr == table_idx {
                let mut occ = self.table_occurrences.remove(k);
                occ.found_set.push(n);
                occ.record_ptr = occ.found_set.len() - 1;
                self.table_occurrences.insert(k, occ);
            }
            k = k + 1;
        }
    }

    /// The value, in the current record, of the first field of the current
    /// table named `field`; empty when no field has that name.
    pub fn get_found_set_record_field(&self, field: &str) -> (r: &str)
        requires
            self@.has_current_table(),
            self@.current().record_ptr < self@.current().found_set@.len(),
            first_named(field_names(self@.current_table().fields@), field@) matches Some(i) ==> (self@.current().found_set@[self@.current().record_ptr as int] as int)
                < self@.current_table().fields@[i].records@.len(),
        ensures
            match first_named(field_names(self@.current_table().fields@), field@) {
                Some(i) => r@ == self@.current_table().fields@[i].records@[self@.current().found_set@[self@.current().record_ptr as int] as int]@,
                None => r@ == Seq::<char>::empty(),
            },
    {
        let occ = self.get_current_occurrence();
        let table = self.get_current_table();
        let cur_idx = occ.found_set[occ.record_ptr];
        match find_field(&table.fields, field) {
            Some(i) => {
                proof {
                    lemma_first_named(field_names(table.fields@), field@);
                }
                table.fields[i].records[cur_idx].as_str()
            },
            None => {
                proof {
                    reveal_strlit("");
                }
                ""
            },
        }
    }

    /// The occurrence with number `occurrence_handle`.
    pub fn get_occurrence(&self, occurrence_handle: usize) -> (r: &TableOccurrence)
        requires
            occurrence_handle < self@.occurrences.len(),
        ensures
            *r == self@.occurrences[occurrence_handle as int],
    {
        &self.table_occurrences[occurrence_handle]
    }

    /// The occurrence with number `occurrence_handle`, to change in place.
    pub fn get_occurrence_mut(&mut self, occurrence_handle: usize) -> (r: &mut TableOccurrence)
        requires
            occurrence_handle < old(self)@.occurrences.len(),
        ensures
            *r == old(self)@.occurrences[occurrence_handle as int],
            final(self)@ == (DatabaseView {
                occurrences: old(self)@.occurrences.update(occurrence_handle as int, *final(r)),
                ..old(self)@
            }),
    {
        &mut self.table_occurrences[occurrence_handle]
    }

    fn index_of_name(&self, occurrence_handle: &str) -> (r: usize)
        requires
            self@.occurrence_of_name(occurrence_handle@) is Some,
        ensures
            self@.occurrence_of_name(occurrence_handle@) matches Some(h) && r as int == h as int,
    {
        proof {
            assert(self@.names.map_values(|e: (Seq<char>, u16)| e.0) =~= entry_names(self.occurrence_indices@));
        }
        let i = find_entry(&self.occurrence_indices, occurrence_handle).unwrap();
        proof {
            lemma_first_named(entry_names(self.occurrence_indices@), occurrence_handle@);
        }
        self.occurrence_indices[i].1 as usize
    }

    /// The occurrence recorded under the name `occurrence_handle`.
    pub fn get_occurrence_by_name(&self, occurrence_handle: &str) -> (r: &TableOccurrence)
        requires
            self@.occurrence_of_name(occurrence_handle@) matches Some(h) && (h as int) < self@.occurrences.len(),
        ensures
            *r == self@.occurrences[self@.occurrence_of_name(occurrence_handle@)->0 as int],
    {
        let i = self.index_of_name(occurrence_handle);
        &self.table_occurrences[i]
    }

    /// The occurrence recorded under the name `occurrence_handle`, to change
    /// in place.
    pub fn get_occurrence_by_name_mut(&mut self, occurrence_handle: &str) -> (r: &mut TableOccurrence)
        requires
            old(self)@.occurrence_of_name(occurrence_handle@) matches Some(h) && (h as int) < old(self)@.occurrences.len(),
        ensures
            ({
                let h = old(self)@.occurrence_of_name(occurrence_handle@)->0 as int;
                &&& *r == old(self)@.occurrences[h]
                &&& final(self)@ == (DatabaseView {
                    occurrences: old(self)@.occurrences.update(h, *final(r)),
                    ..old(self)@
                })
            }),
    {
        let i = self.index_of_name(occurrence_handle);
        &mut self.table_occurrences[i]
    }

    /// Makes occurrence number `occurrence` the current one.
    pub fn set_current_occurrence(&mut self, occurrence: u16)
        ensures
            final(self)@ == (DatabaseView { handle: occurrence, ..old(self)@ }),
    {
        self.occurrence_handle = occurrence;
    }

    /// The current occurrence.
    pub fn get_current_occurrence(&self) -> (r: &TableOccurrence)
        requires
            self@.has_current(),
        ensures
            *r == self@.current(),
    {
        &self.table_occurrences[self.occurrence_handle as usize]
    }

    /// The current occurrence, to change in place.
    pub fn get_current_occurrence_mut(&mut self) -> (r: &mut TableOccurrence)
        requires
            old(self)@.has_current(),
        ensures
            *r == old(self)@.current(),
            final(self)@ == old(self)@.with_current(*final(r)),
    {
        &mut self.table_occurrences[self.occurrence_handle as usize]
    }

    /// The table of the current occurrence.
    pub fn get_current_table(&self) -> (r: &TableObject)
        requires
            self@.has_current_table(),
        ensures
            *r == self@.current_table(),
    {
        &self.tables[self.get_current_occurrence().table_ptr as usize]
    }

    /// The table of the current occurrence, to change in place.
    pub fn get_current_table_mut(&mut self) -> (r: &mut TableObject)
        requires
            old(self)@.has_current_table(),
        ensures
            *r == old(self)@.current_table(),
            final(self)@ == (DatabaseView {
                tables: old(self)@.tables.update(old(self)@.current().table_ptr as int, *final(r)),
                ..old(self)@
            }),
    {
        let id = self.get_current_occurrence().table_ptr;
        &mut self.tables[id as usize]
    }

    /// The first table named `name`.
    pub fn get_table(&self, name: &str) -> (r: Option<&TableObject>)
        ensures
            match first_named(table_names(self@.tables), name@) {
                Some(i) => r matches Some(t) && *t == self@.tables[i],
                None => r is None,
            },
    {
        proof {
            lemma_first_named(table_names(self@.tables), name@);
        }
        match find_table(&self.tables, name) {
            Some(i) => Some(&self.tables[i]),
            None => None,
        }
    }

    /// The first table named `name`, to change in place.
    pub fn get_table_mut(&mut self, name: &str) -> (r: Option<&mut TableObject>)
        ensures
            match first_named(table_names(old(self)@.tables), name@) {
                Some(i) => r matches Some(t) && *t == old(self)@.tables[i] && final(self)@ == (DatabaseView {
                    tables: old(self)@.tables.update(i, *final(r->0)),
                    ..old(self)@
                }),
                None => r is None && *final(self) == *old(self),
            },
    {
        proof {
            lemma_first_named(table_names(self@.tables), name@);
        }
        match find_table(&self.tables, name) {
            Some(i) => Some(&mut self.tables[i]),
            None => None,
        }
    }

    /// The fields of the table of the current occurrence.
    pub fn get_records_for_current_table(&self) -> (r: &Vec<Field>)
        requires
            self@.has_current_table(),
        ensures
            *r == self@.current_table().fields,
    {
        &self.tables[self.get_current_occurrence().table_ptr as usize].fields
    }

    /// The values of the first field named `field` of the current table.
    pub fn get_field_vals_for_current_table(&self, field: &str) -> (r: &Vec<String>)
        requires
            self@.has_current_table(),
            first_named(field_names(self@.current_table().fields@), field@) is Some,
        ensures
            *r == self@.current_table().fields@[first_named(field_names(self@.current_table().fields@), field@)->0].records,
    {
        let table = &self.tables[self.get_current_occurrence().table_ptr as usize];
        let i = find_field(&table.fields, field).unwrap();
        proof {
            lemma_first_named(field_names(table.fields@), field@);
        }
        &table.fields[i].records
    }

    /// The value of the first field named `field` of the current table in
    /// record `record_id`, once the current occurrence has a current record.
    /// The value of the first field named `field` of the current table in
    /// the current record; empty when the current position lies outside the
    /// found set.
    pub fn get_current_record_field(&self, field: &str) -> (r: &str)
        requires
            self@.has_current_table(),
            self@.current().record_ptr < self@.current().found_set@.len() ==> (first_named(
                field_names(self@.current_table().fields@),
                field@,
            ) matches Some(i) && (self@.current().found_set@[self@.current().record_ptr as int] as int)
                < self@.current_table().fields@[i].records@.len()),
        ensures
            self@.current().record_ptr >= self@.current().found_set@.len() ==> r@ == Seq::<char>::empty(),
            self@.current().record_ptr < self@.current().found_set@.len() ==> r@ == self@.current_table().fields@[first_named(
                field_names(self@.current_table().fields@),
                field@,
            )->0].records@[self@.current().found_set@[self@.current().record_ptr as int] as int]@,
    {
        let occurrence = self.get_current_occurrence();
        let id = match occurrence.get_current_record() {
            Ok(i) => i,
            Err(_) => {
                proof {
                    reveal_strlit("");
                }
                return "";
            },
        };
        let fields = &self.tables[occurrence.table_ptr as usize].fields;
        let f = find_field(fields, field).unwrap();
        proof {
            lemma_first_named(field_names(fields@), field@);
        }
        fields[f].records[id].as_str()
    }

    pub fn get_record_by_field(&self, field: &str, record_id: usize) -> (r: Result<&str, &str>)
        requires
            self@.has_current_table(),
            self@.current().record_ptr < self@.current().found_set@.len() ==> (first_named(
                field_names(self@.current_table().fields@),
                field@,
            ) matches Some(i) && record_id < self@.current_table().fields@[i].records@.len()),
        ensures
            self@.current().record_ptr >= self@.current().found_set@.len() ==> r == Err::<&str, &str>("Record not found."),
            self@.current().record_ptr < self@.current().found_set@.len() ==> (r matches Ok(v) && v@
                == self@.current_table().fields@[first_named(field_names(self@.current_table().fields@), field@)->0].records@[record_id as int]@),
    {
        let occurrence = self.get_current_occurrence();
        let id = occurrence.get_current_record();
        let table = occurrence.table_ptr;
        if id.is_err() {
            return Err("Record not found.");
        }
        let fields = &self.tables[table as usize].fields;
        let f = find_field(fields, field).unwrap();
        proof {
            lemma_first_named(field_names(fields@), field@);
        }
        Ok(fields[f].records[record_id].as_str())
    }

    /// The value of the first field named `field` of the current table in
    /// the current record, to change in place.
    pub fn get_current_record_by_field_mut(&mut self, field: &str) -> (r: Result<&mut String, &str>)
        requires
            old(self)@.has_current_table(),
            old(self)@.current().record_ptr < old(self)@.current().found_set@.len() ==> (first_named(
                field_names(old(self)@.current_table().fields@),
                field@,
            ) matches Some(i) && (old(self)@.current().found_set@[old(self)@.current().record_ptr as int] as int)
                < old(self)@.current_table().fields@[i].records@.len()),
        ensures
            old(self)@.current().record_ptr >= old(self)@.current().found_set@.len() ==> (r == Err::<&mut String, &str>("Record not found.") && *final(self)
                == *old(self)),
            old(self)@.current().record_ptr < old(self)@.current().found_set@.len() ==> ({
                let t = old(self)@.current().table_ptr as int;
                let f = first_named(field_names(old(self)@.current_table().fields@), field@)->0;
                let id = old(self)@.current().found_set@[old(self)@.current().record_ptr as int] as int;
                &&& (r matches Ok(v) && *v == old(self)@.tables[t].fields@[f].records@[id])
                &&& with_table_value(old(self)@, final(self)@, t, f, id, *final(r->Ok_0))
            }),
    {
        let occurrence = self.get_current_occurrence();
        let id = occurrence.get_current_record();
        let table = occurrence.table_ptr as usize;
        let id = match id {
            Ok(i) => i,
            Err(_) => return Err("Record not found."),
        };
        let f = find_field(&self.tables[table].fields, field).unwrap();
        proof {
            lemma_first_named(field_names(self.tables@[table as int].fields@), field@);
        }
        Ok(self.value_mut(table, f, id))
    }

    /// The value at table `t`, field `f`, record `id`, to change in place.
    fn value_mut(&mut self, t: usize, f: usize, id: usize) -> (r: &mut String)
        requires
            t < old(self)@.tables.len(),
            f < old(self)@.tables[t as int].fields@.len(),
            id < old(self)@.tables[t as int].fields@[f as int].records@.len(),
        ensures
            *r == old(self)@.tables[t as int].fields@[f as int].records@[id as int],
            with_table_value(old(self)@, final(self)@, t as int, f as int, id as int, *final(r)),
    {
        &mut self.tables[t].fields[f].records[id]
    }

    /// The value of the first field named `field` of the table of the
    /// occurrence named `occurrence`, in that occurrence's current record.
    pub fn get_current_record_by_table_field(&self, occurrence: &str, field: &str) -> (r: Result<&str, &str>)
        requires
            self@.occurrence_of_name(occurrence@) matches Some(h) && (h as int) < self@.occurrences.len() && ({
                let o = self@.occurrences[h as int];
                &&& (o.table_ptr as int) < self@.tables.len()
                &&& o.record_ptr < o.found_set@.len() ==> (first_named(
                    field_names(self@.tables[o.table_ptr as int].fields@),
                    field@,
                ) matches Some(i) && (o.found_set@[o.record_ptr as int] as int)
                    < self@.tables[o.table_ptr as int].fields@[i].records@.len())
            }),
        ensures
            ({
                let o = self@.occurrences[self@.occurrence_of_name(occurrence@)->0 as int];
                let t = self@.tables[o.table_ptr as int];
                &&& o.record_ptr >= o.found_set@.len() ==> r == Err::<&str, &str>("Record not found.")
                &&& o.record_ptr < o.found_set@.len() ==> (r matches Ok(v) && v@ == t.fields@[first_named(
                    field_names(t.fields@),
                    field@,
                )->0].records@[o.found_set@[o.record_ptr as int] as int]@)
            }),
    {
        let h = self.index_of_name(occurrence);
        let occ = &self.table_occurrences[h];
        let id = match occ.get_current_record() {
            Ok(i) => i,
            Err(_) => return Err("Record not found."),
        };
        let fields = &self.tables[occ.table_ptr as usize].fields;
        let f = find_field(fields, field).unwrap();
        proof {
            lemma_first_named(field_names(fields@), field@);
        }
        Ok(fields[f].records[id].as_str())
    }

    /// The value of the first field named `field` of the table of the
    /// occurrence named `occurrence`, in that occurrence's current record, to
    /// change in place.
    pub fn get_current_record_by_table_field_mut(&mut self, occurrence: &str, field: &str) -> (r: Result<
        &mut String,
        &str,
    >)
        requires
            old(self)@.occurrence_of_name(occurrence@) matches Some(h) && (h as int) < old(self)@.occurrences.len() && ({
                let o = old(self)@.occurrences[h as int];
                &&& (o.table_ptr as int) < old(self)@.tables.len()
                &&& o.record_ptr < o.found_set@.len() ==> (first_named(
                    field_names(old(self)@.tables[o.table_ptr as int].fields@),
                    field@,
                ) matches Some(i) && (o.found_set@[o.record_ptr as int] as int)
                    < old(self)@.tables[o.table_ptr as int].fields@[i].records@.len())
            }),
        ensures
            ({
                let o = old(self)@.occurrences[old(self)@.occurrence_of_name(occurrence@)->0 as int];
                let t = o.table_ptr as int;
                let f = first_named(field_names(old(self)@.tables[t].fields@), field@)->0;
                let id = o.found_set@[o.record_ptr as int] as int;
                &&& o.record_ptr >= o.found_set@.len() ==> (r == Err::<&mut String, &str>("Record not found.") && *final(self) == *old(self))
                &&& o.record_ptr < o.found_set@.len() ==> {
                    &&& (r matches Ok(v) && *v == old(self)@.tables[t].fields@[f].records@[id])
                    &&& with_table_value(old(self)@, final(self)@, t, f, id, *final(r->Ok_0))
                }
            }),
    {
        let h = self.index_of_name(occurrence);
        let id = match self.table_occurrences[h].get_current_record() {
            Ok(i) => i,
            Err(_) => return Err("Record not found."),
        };
        let table = self.table_occurrences[h].table_ptr as usize;
        let f = find_field(&self.tables[table].fields, field).unwrap();
        proof {
            lemma_first_named(field_names(self.tables@[table as int].fields@), field@);
        }
        Ok(self.value_mut(table, f, id))
    }

    /// The value in the first record of the first field named `field` of the
    /// table of the occurrence named `occurrence`, to change in place. The
    /// current occurrence must hold related records for that occurrence.
    pub fn get_related_record_field_mut(&mut self, occurrence: &str, field: &str) -> (r: &mut String)
        requires
            related_access(old(self)@, occurrence@, field@, 0),
        ensures
            ({
                let t = old(self)@.occurrences[old(self)@.occurrence_of_name(occurrence@)->0 as int].table_ptr as int;
                let f = first_named(field_names(old(self)@.tables[t].fields@), field@)->0;
                &&& *r == old(self)@.tables[t].fields@[f].records@[0]
                &&& with_table_value(old(self)@, final(self)@, t, f, 0, *final(r))
            }),
    {
        let (table_idx, f) = self.related_location(occurrence, field);
        self.value_mut(table_idx, f, 0)
    }

    fn related_location(&self, occurrence: &str, field: &str) -> (r: (usize, usize))
        requires
            related_access(self@, occurrence@, field@, 0),
        ensures
            ({
                let t = self@.occurrences[self@.occurrence_of_name(occurrence@)->0 as int].table_ptr as int;
                &&& r.0 as int == t
                &&& first_named(field_names(self@.tables[t].fields@), field@) == Some(r.1 as int)
                &&& r.1 < self@.tables[t].fields@.len()
            }),
    {
        let target_idx = self.index_of_name(occurrence);
        let table_idx = self.table_occurrences[target_idx].table_ptr as usize;
        let f = find_field(&self.tables[table_idx].fields, field).unwrap();
        proof {
            lemma_first_named(field_names(self.tables@[table_idx as int].fields@), field@);
        }
        (table_idx, f)
    }

    /// The value in record `n` of the first field named `field` of the table
    /// of the occurrence named `occurrence`. The current occurrence must hold
    /// related records for that occurrence.
    pub fn get_nth_related_record_field(&mut self, occurrence: &str, field: &str, n: usize) -> (r: &str)
        requires
            related_access(old(self)@, occurrence@, field@, n as int),
        ensures
            *final(self) == *old(self),
            ({
                let t = old(self)@.occurrences[old(self)@.occurrence_of_name(occurrence@)->0 as int].table_ptr as int;
                let f = first_named(field_names(old(self)@.tables[t].fields@), field@)->0;
                r@ == old(self)@.tables[t].fields@[f].records@[n as int]@
            }),
    {
        let (table_idx, f) = self.related_location(occurrence, field);
        self.tables[table_idx].fields[f].records[n].as_str()
    }

    /// The value in record `n` of the first field named `field` of the table
    /// of the occurrence named `occurrence`, to change in place. The current
    /// occurrence must hold related records for that occurrence.
    pub fn get_nth_related_record_field_mut(&mut self, occurrence: &str, field: &str, n: usize) -> (r: &mut String)
        requires
            related_access(old(self)@, occurrence@, field@, n as int),
        ensures
            ({
                let t = old(self)@.occurrences[old(self)@.occurrence_of_name(occurrence@)->0 as int].table_ptr as int;
                let f = first_named(field_names(old(self)@.tables[t].fields@), field@)->0;
                &&& *r == old(self)@.tables[t].fields@[f].records@[n as int]
                &&& with_table_value(old(self)@, final(self)@, t, f, n as int, *final(r))
            }),
    {
        let (table_idx, f) = self.related_location(occurrence, field);
        self.value_mut(table_idx, f, n)
    }

    /// Replaces the found set of the current occurrence by every record of
    /// its table, in order; the current position is kept.
    pub fn reset_found_set(&mut self)
        requires
            old(self)@.has_current_table(),
            old(self)@.current_table().fields@.len() > 0,
        ensures
            final(self)@ == old(self)@.with_current(
                TableOccurrence {
                    found_set: final(self)@.current().found_set,
                    ..old(self)@.current()
                },
            ),
            final(self)@.current().found_set@ == all_records(old(self)@.current_table().fields@[0].records@.len()),
    {
        let n = self.get_current_table().fields[0].records.len();
        let mut set: Vec<usize> = Vec::new();
        let mut i: usize = 0;
        while i < n
            invariant
                i <= n,
                set@ == all_records(i as nat),
            decreases n - i,
        {
            set.push(i);
            i = i + 1;
            assert(set@ =~= all_records(i as nat));
        }
        let h = self.occurrence_handle as usize;
        let mut occ = self.table_occurrences.remove(h);
        occ.found_set = set;
        self.table_occurrences.insert(h, occ);
        assert(self.table_occurrences@ =~= old(self).table_occurrences@.update(h as int, occ));
    }

    /// Makes `records` the found set of the current occurrence, with its
    /// first record current; an empty list resets the found set to every
    /// record of the table instead.
    pub fn update_found_set(&mut self, records: &[usize])
        requires
            old(self)@.has_current_table(),
            old(self)@.current_table().fields@.len() > 0,
        ensures
            records@.len() == 0 ==> final(self)@ == old(self)@.with_current(
                TableOccurrence {
                    found_set: final(self)@.current().found_set,
                    ..old(self)@.current()
                },
            ) && final(self)@.current().found_set@ == all_records(
                old(self)@.current_table().fields@[0].records@.len(),
            ),
            records@.len() > 0 ==> final(self)@ == old(self)@.with_current(
                TableOccurrence { found_set: final(self)@.current().found_set, record_ptr: 0, ..old(self)@.current() },
            ) && final(self)@.current().found_set@ == records@,
    {
        if records.len() == 0 {
            self.reset_found_set();
            return ;
        }
        self.reset_found_set();
        let h = self.occurrence_handle as usize;
        let mut occ = self.table_occurrences.remove(h);
        occ.found_set = vstd::slice::slice_to_vec(records);
        occ.record_ptr = 0;
        self.table_occurrences.insert(h, occ);
        assert(self.table_occurrences@ =~= old(self).table_occurrences@.update(h as int, occ));
    }

    /// Moves to position `record_id` of the found set, or to its last
    /// position when `record_id` lies past it.
    pub fn goto_record(&mut self, record_id: usize)
        requires
            old(self)@.has_current(),
            old(self)@.current().found_set@.len() > 0,
        ensures
            final(self)@ == goto_state(old(self)@, record_id),
    {
        let set = self.get_current_occurrence_mut();
        if record_id >= set.found_set.len() {
            set.record_ptr = set.found_set.len() - 1;
        } else {
            set.record_ptr = record_id;
        }
    }

    /// Moves one position back in the found set, unless at its start.
    pub fn goto_previous_record(&mut self)
        requires
            old(self)@.has_current(),
        ensures
            final(self)@ == previous_state(old(self)@),
    {
        let set = self.get_current_occurrence_mut();
        if set.record_ptr > 0 {
            set.record_ptr -= 1;
        }
    }

    /// Moves one position forward in the found set, unless at its last
    /// position or beyond.
    pub fn goto_next_record(&mut self)
        requires
            old(self)@.has_current(),
            old(self)@.current().found_set@.len() > 0,
        ensures
            final(self)@ == next_state(old(self)@),
    {
        let set = self.get_current_occurrence_mut();
        if set.record_ptr < set.found_set.len() - 1 {
            set.record_ptr += 1;
        }
    }

    /// Moves to the first position of the found set.
    pub fn goto_first_record(&mut self)
        requires
            old(self)@.has_current(),
        ensures
            final(self)@ == at_position(old(self)@, 0),
    {
        let set = self.get_current_occurrence_mut();
        set.record_ptr = 0;
    }

    /// Moves to the last position of the found set.
    pub fn goto_last_record(&mut self)
        requires
            old(self)@.has_current(),
            old(self)@.current().found_set@.len() > 0,
        ensures
            final(self)@ == at_position(old(self)@, (old(self)@.current().found_set@.len() - 1) as usize),
    {
        let set = self.get_current_occurrence_mut();
        set.record_ptr = set.found_set.len() - 1;
    }
}

/// Moving forward and then back returns to the same position, unless the
/// current position was the last one of the found set or beyond it.
pub proof fn lemma_next_then_previous(d: DatabaseView)
    requires
        d.has_current(),
        d.current().found_set@.len() <= usize::MAX,
        d.current().record_ptr < d.current().found_set@.len() - 1,
    ensures
        previous_state(next_state(d)) == d,
{
    assert(next_state(d).occurrences[d.handle as int].record_ptr == d.current().record_ptr + 1);
    assert(previous_state(next_state(d)).occurrences =~= d.occurrences);
}

/// Moving back and then forward returns to the same position, unless the
/// current position was the first one.
pub proof fn lemma_previous_then_next(d: DatabaseView)
    requires
        d.has_current(),
        0 < d.current().record_ptr < d.current().found_set@.len(),
    ensures
        next_state(previous_state(d)) == d,
{
    assert(previous_state(d).occurrences[d.handle as int].record_ptr == d.current().record_ptr - 1);
    assert(next_state(previous_state(d)).occurrences =~= d.occurrences);
}

/// Every move keeps the current position inside a non-empty found set, and
/// changes nothing but that position.
pub proof fn lemma_moves_stay_in_found_set(d: DatabaseView, id: usize)
    requires
        d.has_current(),
        d.current().found_set@.len() > 0,
        d.current().found_set@.len() <= usize::MAX,
        d.current().record_ptr < d.current().found_set@.len(),
    ensures
        goto_state(d, id).current().record_ptr < d.current().found_set@.len(),
        previous_state(d).current().record_ptr < d.current().found_set@.len(),
        next_state(d).current().record_ptr < d.current().found_set@.len(),
        at_position(d, 0).current().record_ptr < d.current().found_set@.len(),
        at_position(d, (d.current().found_set@.len() - 1) as usize).current().record_ptr < d.current().found_set@.len(),
        goto_state(d, id).current().found_set == d.current().found_set,
        previous_state(d).current().found_set == d.current().found_set,
        next_state(d).current().found_set == d.current().found_set,
{
}

} // verus!
