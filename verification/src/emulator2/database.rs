//! Databases of the second emulator.

use std::rc::Rc;
use vstd::prelude::*;
use std::collections::HashMap;
use vstd::std_specs::hash::spec_hash_map_iter;
use vstd::std_specs::iter::IteratorSpec;
use crate::schema::{
    Field as SchemaField, LayoutFM, Schema, Script, ScriptStep, Table as SchemaTable, TableOccurrence as SchemaOccurrence,
};
use super::data_source::DataSource;
use super::layout::Layout;
use super::table::Table;
use super::table_occurrence::TableOccurrence;

verus! {

broadcast use vstd::std_specs::hash::group_hash_axioms;

/// `s` holds each entry of `m` once, in some order.
pub open spec fn lists_entries<K, V>(s: Seq<(K, V)>, m: Map<K, V>) -> bool {
    &&& s.len() == m.dom().len()
    &&& forall|i: int, j: int| 0 <= i < j < s.len() ==> (#[trigger] s[i]).0 != (#[trigger] s[j]).0
    &&& forall|i: int| 0 <= i < s.len() ==> m.contains_key((#[trigger] s[i]).0) && m[s[i].0] == s[i].1
    &&& forall|k: K| #[trigger] m.contains_key(k) ==> exists|i: int| 0 <= i < s.len() && (#[trigger] s[i]).0 == k
}

/// The entries that walking a map gives, as values.
pub open spec fn walked<K, V>(v: Seq<(&K, &V)>) -> Seq<(K, V)> {
    v.map_values(|e: (&K, &V)| (*e.0, *e.1))
}

/// Walking a map gives each of its entries once.
proof fn lemma_walk_lists_entries<K, V>(m: &HashMap<K, V>)
    requires
        spec_hash_map_iter(m).remaining().no_duplicates(),
    ensures
        lists_entries(walked(spec_hash_map_iter(m).remaining()), m@),
{
    let v = spec_hash_map_iter(m).remaining();
    let s = walked(v);
    assert forall|i: int| 0 <= i < s.len() implies m@.contains_key((#[trigger] s[i]).0) && m@[s[i].0] == s[i].1 by {
        assert(m@.contains_key(*v[i].0));
    }
    assert forall|i: int, j: int| 0 <= i < j < s.len() implies (#[trigger] s[i]).0 != (#[trigger] s[j]).0 by {
        assert(m@.contains_key(*v[i].0));
        assert(m@.contains_key(*v[j].0));
        if s[i].0 == s[j].0 {
            assert(v[i] == v[j]);
        }
    }
    assert forall|k: K| #[trigger] m@.contains_key(k) implies exists|i: int| 0 <= i < s.len() && (#[trigger] s[i]).0 == k by {
        assert(v.contains((&k, &m@[k])));
        let i = choose|i: int| 0 <= i < v.len() && v[i] == (&k, &m@[k]);
        assert(s[i].0 == k);
    }
}

/// `t` is the table made of schema table `st`, found under key `k`: that
/// id and name, no records, and the names of the schema table's fields in
/// the order its field map is walked.
pub open spec fn made_table(t: Table, k: usize, st: SchemaTable) -> bool {
    &&& t.id == k
    &&& t.name@ == st.name@
    &&& t.records@.len() == 0
    &&& exists|fs: Seq<(usize, SchemaField)>|
        {
            &&& lists_entries(fs, st.fields@)
            &&& t.field_names@.len() == fs.len()
            &&& forall|i: int| 0 <= i < fs.len() ==> (#[trigger] t.field_names@[i])@ == fs[i].1.name@
        }
}

/// The table made of a schema table.
fn make_table(k: usize, st: &SchemaTable) -> (r: Table)
    ensures
        made_table(r, k, *st),
{
    let mut t = Table::new(k).name(st.name.as_str());
    let fields = st.fields.iter();
    let ghost rem = IteratorSpec::remaining(&fields);
    let mut names: Vec<String> = Vec::new();
    for e in it: fields
        invariant
            it.seq() == rem,
            names@.len() == it.index(),
            forall|i: int| 0 <= i < it.index() ==> (#[trigger] names@[i])@ == it.seq()[i].1.name@,
    {
        names.push(e.1.name.clone());
    }
    proof {
        lemma_walk_lists_entries(&st.fields);
        let fs = walked(rem);
        assert(lists_entries(fs, st.fields@));
        assert(names@.len() == fs.len());
        assert(forall|i: int| 0 <= i < fs.len() ==> (#[trigger] names@[i])@ == fs[i].1.name@);
    }
    t.field_names = names;
    t
}

pub struct Database {
    pub filename: String,
    pub name: String,
    pub tables: Vec<Table>,
    pub table_occurrences: Vec<TableOccurrence>,
    pub layouts: Vec<Rc<Layout>>,
    pub scripts: Vec<Script>,
    pub external_sources: Vec<DataSource>,
}

/// The text of each string.
pub open spec fn string_views(v: Seq<String>) -> Seq<Seq<char>> {
    v.map_values(|s: String| s@)
}

fn copy_strings(v: &Vec<String>) -> (r: Vec<String>)
    ensures
        string_views(r@) == string_views(v@),
{
    let mut out: Vec<String> = Vec::new();
    let mut i: usize = 0;
    while i < v.len()
        invariant
            i <= v@.len(),
            out@.len() == i,
            forall|j: int| 0 <= j < i ==> (#[trigger] out@[j])@ == v@[j]@,
        decreases v.len() - i,
    {
        out.push(v[i].clone());
        i = i + 1;
    }
    assert(string_views(out@) =~= string_views(v@));
    out
}

/// `a` holds what `b` holds: the same id and name, no records in either,
/// and the same field names.
pub open spec fn same_table(a: Table, b: Table) -> bool {
    &&& a.id == b.id
    &&& a.name@ == b.name@
    &&& a.records@.len() == 0
    &&& b.records@.len() == 0
    &&& string_views(a.field_names@) == string_views(b.field_names@)
}

fn copy_table(t: &Table) -> (r: Table)
    requires
        t.records@.len() == 0,
    ensures
        same_table(r, *t),
{
    Table { id: t.id, name: t.name.clone(), records: Vec::new(), field_names: copy_strings(&t.field_names) }
}

/// `o` is the occurrence made of schema occurrence `so`: its id, name and
/// data source, and a copy of the first table of `tables` with the id of
/// the table that `so` refers to.
pub open spec fn made_occurrence(o: TableOccurrence, so: SchemaOccurrence, tables: Seq<Table>) -> bool {
    &&& o.id == so.id
    &&& o.name@ == so.name@
    &&& o.data_source == so.base_table.data_source as usize
    &&& exists|j: int|
        {
            &&& 0 <= j < tables.len()
            &&& tables[j].id == so.base_table.top_id as usize
            &&& forall|l: int| 0 <= l < j ==> (#[trigger] tables[l]).id != so.base_table.top_id as usize
            &&& same_table(*o.table, tables[j])
        }
}

/// `l` is the layout made of schema layout `sl`, found under key `k`.
pub open spec fn made_layout(l: Layout, k: usize, sl: LayoutFM) -> bool {
    &&& l.id == k
    &&& l.name@ == sl.name@
    &&& l.table_occurrence_id == sl.table_occurrence.top_id as usize
}

/// `a` holds what `b` holds: id, name, authors, arguments, and the same
/// steps with the same arguments.
pub open spec fn same_script(a: Script, b: Script) -> bool {
    &&& a.id == b.id
    &&& a.name@ == b.name@
    &&& a.created_by@ == b.created_by@
    &&& a.modified_by@ == b.modified_by@
    &&& string_views(a.arguments@) == string_views(b.arguments@)
    &&& a.instructions@.len() == b.instructions@.len()
    &&& forall|i: int|
        0 <= i < a.instructions@.len() ==> (#[trigger] a.instructions@[i]).step_id == b.instructions@[i].step_id
            && string_views(a.instructions@[i].arguments@) == string_views(b.instructions@[i].arguments@)
}

fn copy_script(s: &Script) -> (r: Script)
    ensures
        same_script(r, *s),
{
    let mut steps: Vec<ScriptStep> = Vec::new();
    let mut i: usize = 0;
    while i < s.instructions.len()
        invariant
            i <= s.instructions@.len(),
            steps@.len() == i,
            forall|j: int|
                0 <= j < i ==> (#[trigger] steps@[j]).step_id == s.instructions@[j].step_id && string_views(
                    steps@[j].arguments@,
                ) == string_views(s.instructions@[j].arguments@),
        decreases s.instructions.len() - i,
    {
        let st = &s.instructions[i];
        steps.push(ScriptStep { step_id: st.step_id, arguments: copy_strings(&st.arguments) });
        i = i + 1;
    }
    Script {
        id: s.id,
        name: s.name.clone(),
        instructions: steps,
        arguments: copy_strings(&s.arguments),
        created_by: s.created_by.clone(),
        modified_by: s.modified_by.clone(),
    }
}

/// The position of the first table with id `id`.
fn find_table(tables: &Vec<Table>, id: usize) -> (r: usize)
    requires
        exists|j: int| 0 <= j < tables@.len() && (#[trigger] tables@[j]).id == id,
    ensures
        r < tables@.len(),
        tables@[r as int].id == id,
        forall|l: int| 0 <= l < r ==> (#[trigger] tables@[l]).id != id,
{
    let mut i: usize = 0;
    while i < tables.len()
        invariant
            i <= tables@.len(),
            exists|j: int| i <= j < tables@.len() && (#[trigger] tables@[j]).id == id,
            forall|l: int| 0 <= l < i ==> (#[trigger] tables@[l]).id != id,
        decreases tables.len() - i,
    {
        if tables[i].id == id {
            return i;
        }
        i = i + 1;
    }
    i
}

impl Database {
    /// A database with no name and no objects.
    pub fn new() -> (r: Self)
        ensures
            r.filename@ == Seq::<char>::empty(),
            r.name@ == Seq::<char>::empty(),
            r.tables@ == Seq::<Table>::empty(),
            r.table_occurrences@ == Seq::<TableOccurrence>::empty(),
            r.layouts@ == Seq::<Rc<Layout>>::empty(),
            r.scripts@ == Seq::<Script>::empty(),
            r.external_sources@ == Seq::<DataSource>::empty(),
    {
        Database {
            filename: String::new(),
            name: String::new(),
            tables: Vec::new(),
            table_occurrences: Vec::new(),
            layouts: Vec::new(),
            scripts: Vec::new(),
            external_sources: Vec::new(),
        }
    }

    /// The database that a schema describes: a table per schema table, an
    /// occurrence per schema occurrence (each with a copy of the table it
    /// refers to), a layout per schema layout and a copy of each script,
    /// each list in the order its schema map is walked. The schema's data
    /// sources are not taken over.
    pub fn from_schema(schema: &Schema) -> (r: Self)
        requires
            forall|k: usize|
                #[trigger] schema.table_occurrences@.contains_key(k) ==> schema.tables@.contains_key(
                    schema.table_occurrences@[k].base_table.top_id as usize,
                ),
        ensures
            r.filename@ == Seq::<char>::empty(),
            r.name@ == Seq::<char>::empty(),
            r.external_sources@ == Seq::<DataSource>::empty(),
            exists|ts: Seq<(usize, SchemaTable)>|
                {
                    &&& lists_entries(ts, schema.tables@)
                    &&& r.tables@.len() == ts.len()
                    &&& forall|i: int| 0 <= i < ts.len() ==> made_table(#[trigger] r.tables@[i], ts[i].0, ts[i].1)
                },
            exists|os: Seq<(usize, SchemaOccurrence)>|
                {
                    &&& lists_entries(os, schema.table_occurrences@)
                    &&& r.table_occurrences@.len() == os.len()
                    &&& forall|i: int|
                        0 <= i < os.len() ==> made_occurrence(#[trigger] r.table_occurrences@[i], os[i].1, r.tables@)
                },
            exists|ls: Seq<(usize, LayoutFM)>|
                {
                    &&& lists_entries(ls, schema.layouts@)
                    &&& r.layouts@.len() == ls.len()
                    &&& forall|i: int| 0 <= i < ls.len() ==> made_layout(*#[trigger] r.layouts@[i], ls[i].0, ls[i].1)
                },
            exists|ss: Seq<(u16, Script)>|
                {
                    &&& lists_entries(ss, schema.scripts@)
                    &&& r.scripts@.len() == ss.len()
                    &&& forall|i: int| 0 <= i < ss.len() ==> same_script(#[trigger] r.scripts@[i], ss[i].1)
                },
    {
        let mut db = Database::new();
        let tables = schema.tables.iter();
        let ghost rem = IteratorSpec::remaining(&tables);
        for e in it: tables
            invariant
                it.seq() == rem,
                db.filename@ == Seq::<char>::empty(),
                db.name@ == Seq::<char>::empty(),
                db.external_sources@ == Seq::<DataSource>::empty(),
                db.table_occurrences@.len() == 0,
                db.layouts@.len() == 0,
                db.scripts@.len() == 0,
                db.tables@.len() == it.index(),
                forall|i: int| 0 <= i < it.index() ==> made_table(#[trigger] db.tables@[i], *it.seq()[i].0, *it.seq()[i].1),
        {
            let t = make_table(*e.0, e.1);
            db.tables.push(t);
        }
        proof {
            lemma_walk_lists_entries(&schema.tables);
        }
        let ghost ts = walked(rem);
        assert(forall|i: int| 0 <= i < ts.len() ==> made_table(#[trigger] db.tables@[i], ts[i].0, ts[i].1));
        assert(forall|k: usize| #[trigger] schema.tables@.contains_key(k) ==> exists|j: int|
            0 <= j < db.tables@.len() && (#[trigger] db.tables@[j]).id == k) by {
            assert forall|k: usize| #[trigger] schema.tables@.contains_key(k) implies exists|j: int|
                0 <= j < db.tables@.len() && (#[trigger] db.tables@[j]).id == k by {
                let i = choose|i: int| 0 <= i < ts.len() && (#[trigger] ts[i]).0 == k;
                assert(made_table(db.tables@[i], ts[i].0, ts[i].1));
            }
        }
        let ghost made = db.tables@;
        let occurrences = schema.table_occurrences.iter();
        let ghost orem = IteratorSpec::remaining(&occurrences);
        for e in it: occurrences
            invariant
                it.seq() == orem,
                db.tables@ == made,
                forall|k: usize| #[trigger] schema.tables@.contains_key(k) ==> exists|j: int|
                    0 <= j < made.len() && (#[trigger] made[j]).id == k,
                forall|i: int| 0 <= i < made.len() ==> (#[trigger] made[i]).records@.len() == 0,
                forall|k: usize|
                    #[trigger] schema.table_occurrences@.contains_key(k) ==> schema.tables@.contains_key(
                        schema.table_occurrences@[k].base_table.top_id as usize,
                    ),
                forall|i: int| 0 <= i < it.seq().len() ==> schema.table_occurrences@.contains_key(*(#[trigger] it.seq()[i]).0)
                    && schema.table_occurrences@[*it.seq()[i].0] == *it.seq()[i].1,
                db.filename@ == Seq::<char>::empty(),
                db.name@ == Seq::<char>::empty(),
                db.external_sources@ == Seq::<DataSource>::empty(),
                db.layouts@.len() == 0,
                db.scripts@.len() == 0,
                db.table_occurrences@.len() == it.index(),
                forall|i: int|
                    0 <= i < it.index() ==> made_occurrence(#[trigger] db.table_occurrences@[i], *it.seq()[i].1, made),
        {
            let so = e.1;
            let top = so.base_table.top_id as usize;
            let j = find_table(&db.tables, top);
            let table = Rc::new(copy_table(&db.tables[j]));
            let o = TableOccurrence::new(so.id, so.name.clone(), so.base_table.data_source as usize, table);
            db.table_occurrences.push(o);
        }
        let ghost occs = db.table_occurrences@;
        let layouts = schema.layouts.iter();
        let ghost lrem = IteratorSpec::remaining(&layouts);
        for e in it: layouts
            invariant
                it.seq() == lrem,
                db.tables@ == made,
                db.table_occurrences@ == occs,
                db.filename@ == Seq::<char>::empty(),
                db.name@ == Seq::<char>::empty(),
                db.external_sources@ == Seq::<DataSource>::empty(),
                db.scripts@.len() == 0,
                db.layouts@.len() == it.index(),
                forall|i: int| 0 <= i < it.index() ==> made_layout(*#[trigger] db.layouts@[i], *it.seq()[i].0, *it.seq()[i].1),
        {
            let l = Layout::new(*e.0, e.1.name.clone(), e.1.table_occurrence.top_id as usize);
            db.layouts.push(Rc::new(l));
        }
        let ghost lays = db.layouts@;
        let scripts = schema.scripts.iter();
        let ghost srem = IteratorSpec::remaining(&scripts);
        for e in it: scripts
            invariant
                it.seq() == srem,
                db.tables@ == made,
                db.table_occurrences@ == occs,
                db.layouts@ == lays,
                db.filename@ == Seq::<char>::empty(),
                db.name@ == Seq::<char>::empty(),
                db.external_sources@ == Seq::<DataSource>::empty(),
                db.scripts@.len() == it.index(),
                forall|i: int| 0 <= i < it.index() ==> same_script(#[trigger] db.scripts@[i], *it.seq()[i].1),
        {
            db.scripts.push(copy_script(e.1));
        }
        proof {
            lemma_walk_lists_entries(&schema.table_occurrences);
            lemma_walk_lists_entries(&schema.layouts);
            lemma_walk_lists_entries(&schema.scripts);
            let os = walked(orem);
            assert(forall|i: int| 0 <= i < os.len() ==> made_occurrence(#[trigger] db.table_occurrences@[i], os[i].1, made));
            let ls = walked(lrem);
            assert(forall|i: int| 0 <= i < ls.len() ==> made_layout(*#[trigger] db.layouts@[i], ls[i].0, ls[i].1));
            let ss = walked(srem);
            assert(forall|i: int| 0 <= i < ss.len() ==> same_script(#[trigger] db.scripts@[i], ss[i].1));
        }
        db
    }
}

} // verus!
