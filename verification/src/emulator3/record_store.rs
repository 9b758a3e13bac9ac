//! The records of the tables of an open file, kept per table.

use std::collections::{BTreeMap, HashMap};
use vstd::prelude::*;
use vstd::std_specs::btree::increasing_seq;
use vstd::std_specs::iter::IteratorSpec;

verus! {

broadcast use {vstd::std_specs::hash::group_hash_axioms, vstd::std_specs::btree::group_btree_axioms};

/// A field of a table, as the record store sees it: its id and name.
pub struct Field {
    pub id: u32,
    pub name: String,
}

impl Field {
    /// The field `name` with id `id_`.
    pub fn new(id_: u32, name: String) -> (r: Self)
        ensures
            r.id == id_,
            r.name == name,
    {
        Field { id: id_, name }
    }
}

/// A table: its id, names, comment, and its fields by id.
pub struct Table {
    pub id: u32,
    pub name: String,
    pub created_by: String,
    pub modified_by: String,
    pub comment: String,
    pub fields: BTreeMap<u32, Field>,
}

/// A record: its id and a value for each field id.
#[derive(Debug, PartialEq)]
pub struct Record {
    pub id: u32,
    pub fields: Vec<(u32, String)>,
}

/// The records of each table, by table id.
#[derive(Debug, PartialEq)]
pub struct RecordStore {
    pub records_by_table: HashMap<u32, Vec<Record>>,
}

/// The position of the first record with id `id`.
pub open spec fn record_pos(s: Seq<Record>, id: u32) -> Option<int>
    decreases s.len(),
{
    if s.len() == 0 {
        None
    } else {
        match record_pos(s.drop_last(), id) {
            Some(i) => Some(i),
            None => if s.last().id == id {
                Some(s.len() - 1)
            } else {
                None
            },
        }
    }
}

/// What `record_pos` gives: the first position holding a record with that
/// id, or none when no record has it.
pub proof fn lemma_record_pos(s: Seq<Record>, id: u32)
    ensures
        match record_pos(s, id) {
            Some(i) => 0 <= i < s.len() && s[i].id == id && forall|j: int| 0 <= j < i ==> (#[trigger] s[j]).id != id,
            None => forall|j: int| 0 <= j < s.len() ==> (#[trigger] s[j]).id != id,
        },
    decreases s.len(),
{
    if s.len() > 0 {
        let d = s.drop_last();
        lemma_record_pos(d, id);
        assert forall|j: int| 0 <= j < d.len() implies #[trigger] s[j] == d[j] by {}
    }
}

/// The position of the first value of field `id`.
pub open spec fn field_pos(s: Seq<(u32, String)>, id: u32) -> Option<int>
    decreases s.len(),
{
    if s.len() == 0 {
        None
    } else {
        match field_pos(s.drop_last(), id) {
            Some(i) => Some(i),
            None => if s.last().0 == id {
                Some(s.len() - 1)
            } else {
                None
            },
        }
    }
}

/// What `field_pos` gives: the first position holding a value of that field,
/// or none when no value is for it.
pub proof fn lemma_field_pos(s: Seq<(u32, String)>, id: u32)
    ensures
        match field_pos(s, id) {
            Some(i) => 0 <= i < s.len() && s[i].0 == id && forall|j: int| 0 <= j < i ==> (#[trigger] s[j]).0 != id,
            None => forall|j: int| 0 <= j < s.len() ==> (#[trigger] s[j]).0 != id,
        },
    decreases s.len(),
{
    if s.len() > 0 {
        let d = s.drop_last();
        lemma_field_pos(d, id);
        assert forall|j: int| 0 <= j < d.len() implies #[trigger] s[j] == d[j] by {}
    }
}

/// The value that field `f` of record `r` of table `t` holds: that of the
/// first value for the field in the first record with that id.
pub open spec fn value_at(m: Map<u32, Vec<Record>>, t: u32, r: u32, f: u32) -> Option<Seq<char>> {
    if m.contains_key(t) {
        match record_pos(m[t]@, r) {
            Some(i) => match field_pos(m[t]@[i].fields@, f) {
                Some(j) => Some(m[t]@[i].fields@[j].1@),
                None => None,
            },
            None => None,
        }
    } else {
        None
    }
}

/// `after` is `before` with field `f` of record `r` of table `t` set to `v`:
/// the first value of that field in the first record with that id takes
/// `v`, and nothing else changes.
pub open spec fn field_set(
    before: Map<u32, Vec<Record>>,
    after: Map<u32, Vec<Record>>,
    t: u32,
    r: u32,
    f: u32,
    v: Seq<char>,
) -> bool {
    let i = record_pos(before[t]@, r)->0;
    let j = field_pos(before[t]@[i].fields@, f)->0;
    let old_fields = before[t]@[i].fields@;
    let new_fields = after[t]@[i].fields@;
    &&& value_at(before, t, r, f) is Some
    &&& after.dom() == before.dom()
    &&& forall|k: u32| k != t && #[trigger] before.contains_key(k) ==> after[k] == before[k]
    &&& after[t]@.len() == before[t]@.len()
    &&& forall|x: int| 0 <= x < before[t]@.len() && x != i ==> #[trigger] after[t]@[x] == before[t]@[x]
    &&& after[t]@[i].id == before[t]@[i].id
    &&& new_fields.len() == old_fields.len()
    &&& forall|y: int| 0 <= y < old_fields.len() && y != j ==> #[trigger] new_fields[y] == old_fields[y]
    &&& new_fields[j].0 == f
    &&& new_fields[j].1@ == v
}

proof fn lemma_record_pos_same_ids(s1: Seq<Record>, s2: Seq<Record>, id: u32)
    requires
        s1.len() == s2.len(),
        forall|x: int| 0 <= x < s1.len() ==> (#[trigger] s1[x]).id == s2[x].id,
    ensures
        record_pos(s1, id) == record_pos(s2, id),
    decreases s1.len(),
{
    if s1.len() > 0 {
        let (d1, d2) = (s1.drop_last(), s2.drop_last());
        assert forall|x: int| 0 <= x < d1.len() implies (#[trigger] d1[x]).id == d2[x].id by {
            assert(d1[x] == s1[x] && d2[x] == s2[x]);
        }
        lemma_record_pos_same_ids(d1, d2, id);
        assert(s1.last().id == s2.last().id) by {
            assert(s1.last() == s1[s1.len() - 1]);
        }
    }
}

proof fn lemma_field_pos_same_ids(s1: Seq<(u32, String)>, s2: Seq<(u32, String)>, id: u32)
    requires
        s1.len() == s2.len(),
        forall|x: int| 0 <= x < s1.len() ==> (#[trigger] s1[x]).0 == s2[x].0,
    ensures
        field_pos(s1, id) == field_pos(s2, id),
    decreases s1.len(),
{
    if s1.len() > 0 {
        let (d1, d2) = (s1.drop_last(), s2.drop_last());
        assert forall|x: int| 0 <= x < d1.len() implies (#[trigger] d1[x]).0 == d2[x].0 by {
            assert(d1[x] == s1[x] && d2[x] == s2[x]);
        }
        lemma_field_pos_same_ids(d1, d2, id);
        assert(s1.last().0 == s2.last().0) by {
            assert(s1.last() == s1[s1.len() - 1]);
        }
    }
}

/// A value set is read back: once field `f` of record `r` of table `t` was
/// set to `v`, reading it gives `v`, and every other field of every record
/// reads as before.
pub proof fn lemma_value_after_set(
    before: Map<u32, Vec<Record>>,
    after: Map<u32, Vec<Record>>,
    t: u32,
    r: u32,
    f: u32,
    v: Seq<char>,
    t2: u32,
    r2: u32,
    f2: u32,
)
    requires
        field_set(before, after, t, r, f, v),
    ensures
        value_at(after, t, r, f) == Some(v),
        t2 != t || r2 != r || f2 != f ==> value_at(after, t2, r2, f2) == value_at(before, t2, r2, f2),
{
    let i = record_pos(before[t]@, r)->0;
    lemma_record_pos(before[t]@, r);
    let j = field_pos(before[t]@[i].fields@, f)->0;
    lemma_field_pos(before[t]@[i].fields@, f);
    assert forall|x: int| 0 <= x < before[t]@.len() implies (#[trigger] before[t]@[x]).id == after[t]@[x].id by {
        if x != i {
            assert(after[t]@[x] == before[t]@[x]);
        }
    }
    lemma_record_pos_same_ids(before[t]@, after[t]@, r);
    let (of, nf) = (before[t]@[i].fields@, after[t]@[i].fields@);
    assert forall|y: int| 0 <= y < of.len() implies (#[trigger] of[y]).0 == nf[y].0 by {
        if y != j {
            assert(nf[y] == of[y]);
        }
    }
    lemma_field_pos_same_ids(of, nf, f);
    if t2 != t || r2 != r || f2 != f {
        if t2 != t {
            if before.contains_key(t2) {
                assert(after[t2] == before[t2]);
            }
        } else {
            lemma_record_pos_same_ids(before[t]@, after[t]@, r2);
            lemma_record_pos(before[t]@, r2);
            if let Some(i2) = record_pos(before[t]@, r2) {
                if i2 != i {
                    assert(after[t]@[i2] == before[t]@[i2]);
                } else {
                    lemma_field_pos_same_ids(of, nf, f2);
                    lemma_field_pos(of, f2);
                    if let Some(j2) = field_pos(of, f2) {
                        if j2 != j {
                            assert(nf[j2] == of[j2]);
                        }
                    }
                }
            }
        }
    }
}

/// The largest id of the records of `s`, or 0 when there are none.
pub open spec fn max_id(s: Seq<Record>) -> nat
    decreases s.len(),
{
    if s.len() == 0 {
        0
    } else if s.last().id > max_id(s.drop_last()) {
        s.last().id as nat
    } else {
        max_id(s.drop_last())
    }
}

/// `ids` are the ids of the fields of `fields`, taken in increasing order
/// of their keys.
pub open spec fn ids_in_key_order(fields: Map<u32, Field>, ids: Seq<u32>) -> bool {
    exists|keys: Seq<u32>|
        {
            &&& keys.len() == ids.len()
            &&& forall|a: int, b: int| 0 <= a < b < keys.len() ==> keys[a] < keys[b]
            &&& keys.to_set() == fields.dom()
            &&& forall|x: int| 0 <= x < keys.len() ==> #[trigger] fields[keys[x]].id == ids[x]
        }
}

/// `after` is `before` with a record with id `id` added at the end of the
/// records of table `t`, every value of it empty; nothing else changes.
pub open spec fn record_added(before: Map<u32, Vec<Record>>, after: Map<u32, Vec<Record>>, t: u32, id: u32) -> bool {
    let added = after[t]@.last();
    &&& before.contains_key(t)
    &&& after.dom() == before.dom()
    &&& forall|k: u32| k != t && #[trigger] before.contains_key(k) ==> after[k] == before[k]
    &&& after[t]@.len() == before[t]@.len() + 1
    &&& after[t]@.drop_last() == before[t]@
    &&& added.id == id
    &&& forall|y: int| 0 <= y < added.fields@.len() ==> (#[trigger] added.fields@[y]).1@ == Seq::<char>::empty()
}

/// The id that `new_record` gives a table's new record is above the id of
/// every record the table held, so it names none of them.
pub proof fn lemma_new_id_is_fresh(s: Seq<Record>)
    ensures
        forall|x: int| 0 <= x < s.len() ==> (#[trigger] s[x]).id < max_id(s) + 1,
{
    lemma_max_id(s);
}

/// A new record reads empty: once a record with a fresh id was added to
/// table `t`, each of its fields reads as the empty text, a field it lacks
/// reads as nothing, and every other record of every table reads as
/// before.
pub proof fn lemma_new_record_reads_empty(
    before: Map<u32, Vec<Record>>,
    after: Map<u32, Vec<Record>>,
    t: u32,
    id: u32,
    f: u32,
    t2: u32,
    r2: u32,
    f2: u32,
)
    requires
        record_added(before, after, t, id),
        id == max_id(before[t]@) + 1,
    ensures
        value_at(after, t, id, f) == (if field_pos(after[t]@.last().fields@, f) is Some {
            Some(Seq::<char>::empty())
        } else {
            None::<Seq<char>>
        }),
        t2 != t || r2 != id ==> value_at(after, t2, r2, f2) == value_at(before, t2, r2, f2),
{
    let b = before[t]@;
    let a = after[t]@;
    assert(a.drop_last() == b);
    lemma_max_id(b);
    lemma_record_pos(b, id);
    assert(record_pos(a, id) == Some(b.len() as int));
    lemma_field_pos(a.last().fields@, f);
    assert(a[b.len() as int] == a.last());
    if t2 == t && r2 != id {
        assert(record_pos(a, r2) == record_pos(b, r2));
        lemma_record_pos(b, r2);
        if let Some(i) = record_pos(b, r2) {
            assert(a[i] == b[i]);
        }
    } else if t2 != t {
        if before.contains_key(t2) {
            assert(after[t2] == before[t2]);
        }
    }
}

proof fn lemma_max_id(s: Seq<Record>)
    ensures
        forall|x: int| 0 <= x < s.len() ==> (#[trigger] s[x]).id <= max_id(s),
    decreases s.len(),
{
    if s.len() > 0 {
        lemma_max_id(s.drop_last());
        assert forall|x: int| 0 <= x < s.len() implies (#[trigger] s[x]).id <= max_id(s) by {
            if x < s.len() - 1 {
                assert(s[x] == s.drop_last()[x]);
            }
        }
    }
}

/// Keys in increasing order, as the map's iterators give them, are in
/// increasing numeric order.
proof fn lemma_increasing_keys(keys: Seq<u32>)
    requires
        increasing_seq(keys),
    ensures
        forall|a: int, b: int| 0 <= a < b < keys.len() ==> keys[a] < keys[b],
{
    assert forall|a: int, b: int| 0 <= a < b < keys.len() implies keys[a] < keys[b] by {
        assert(vstd::std_specs::cmp::OrdSpec::cmp_spec(&keys[a], &keys[b]) is Less);
    }
}

fn find_record(s: &Vec<Record>, id: u32) -> (r: Option<usize>)
    ensures
        match r {
            Some(i) => record_pos(s@, id) == Some(i as int),
            None => record_pos(s@, id) is None,
        },
{
    proof {
        lemma_record_pos(s@, id);
    }
    let mut i: usize = 0;
    while i < s.len()
        invariant
            i <= s@.len(),
            forall|j: int| 0 <= j < i ==> (#[trigger] s@[j]).id != id,
        decreases s.len() - i,
    {
        if s[i].id == id {
            proof {
                lemma_record_pos(s@, id);
            }
            return Some(i);
        }
        i = i + 1;
    }
    None
}

fn find_field(s: &Vec<(u32, String)>, id: u32) -> (r: Option<usize>)
    ensures
        match r {
            Some(i) => field_pos(s@, id) == Some(i as int),
            None => field_pos(s@, id) is None,
        },
{
    proof {
        lemma_field_pos(s@, id);
    }
    let mut i: usize = 0;
    while i < s.len()
        invariant
            i <= s@.len(),
            forall|j: int| 0 <= j < i ==> (#[trigger] s@[j]).0 != id,
        decreases s.len() - i,
    {
        if s[i].0 == id {
            proof {
                lemma_field_pos(s@, id);
            }
            return Some(i);
        }
        i = i + 1;
    }
    None
}

impl RecordStore {
    /// A store with no records for each of `tables`.
    pub fn new(tables: &Vec<Table>) -> (r: Self)
        ensures
            forall|k: u32|
                r.records_by_table@.contains_key(k) <==> exists|i: int|
                    0 <= i < tables@.len() && (#[trigger] tables@[i]).id == k,
            forall|k: u32| #[trigger] r.records_by_table@.contains_key(k) ==> r.records_by_table@[k]@.len() == 0,
    {
        let mut m: HashMap<u32, Vec<Record>> = HashMap::new();
        let mut i: usize = 0;
        while i < tables.len()
            invariant
                i <= tables@.len(),
                forall|k: u32|
                    m@.contains_key(k) <==> exists|j: int| 0 <= j < i && (#[trigger] tables@[j]).id == k,
                forall|k: u32| #[trigger] m@.contains_key(k) ==> m@[k]@.len() == 0,
            decreases tables.len() - i,
        {
            m.insert(tables[i].id, Vec::new());
            proof {
                assert forall|k: u32| m@.contains_key(k) <==> exists|j: int|
                    0 <= j < i + 1 && (#[trigger] tables@[j]).id == k by {
                    if k == tables@[i as int].id {
                        assert(tables@[i as int].id == k);
                    }
                }
            }
            i = i + 1;
        }
        RecordStore { records_by_table: m }
    }

    /// Adds a record to `table`, with an empty value for each of its fields
    /// in the order of their keys, and an id one above the largest id of the
    /// table's records (1 for the first); returns that id.
    pub fn new_record(&mut self, table: &Table) -> (r: u32)
        requires
            old(self).records_by_table@.contains_key(table.id),
            max_id(old(self).records_by_table@[table.id]@) < u32::MAX,
        ensures
            r == max_id(old(self).records_by_table@[table.id]@) + 1,
            record_added(old(self).records_by_table@, final(self).records_by_table@, table.id, r),
            ids_in_key_order(
                table.fields@,
                final(self).records_by_table@[table.id]@.last().fields@.map_values(|f: (u32, String)| f.0),
            ),
    {
        let ghost before = self.records_by_table@;
        let mut records = self.records_by_table.remove(&table.id).unwrap();
        let mut top: u32 = 0;
        let mut i: usize = 0;
        while i < records.len()
            invariant
                i <= records@.len(),
                top == max_id(records@.subrange(0, i as int)),
            decreases records.len() - i,
        {
            assert(records@.subrange(0, i as int + 1).drop_last() =~= records@.subrange(0, i as int));
            if records[i].id > top {
                top = records[i].id;
            }
            i = i + 1;
        }
        assert(records@.subrange(0, i as int) =~= records@);
        let values = table.fields.values();
        let ghost keys = choose|key_seq: Seq<u32>|
            {
                &&& increasing_seq(key_seq)
                &&& key_seq.to_set() == table.fields@.dom()
                &&& key_seq.no_duplicates()
                &&& IteratorSpec::remaining(&values) == key_seq.map(|i: int, k: u32| &table.fields@[k])
            };
        let ghost rem = IteratorSpec::remaining(&values);
        let mut fields: Vec<(u32, String)> = Vec::new();
        for f in it: values
            invariant
                it.seq() == rem,
                fields@.len() == it.index(),
                forall|y: int|
                    0 <= y < it.index() ==> (#[trigger] fields@[y]).0 == it.seq()[y].id && fields@[y].1@
                        == Seq::<char>::empty(),
        {
            fields.push((f.id, String::new()));
        }
        let ghost ids = fields@.map_values(|f: (u32, String)| f.0);
        assert(ids_in_key_order(table.fields@, ids)) by {
            assert(fields@.len() == rem.len());
            assert(keys.len() == ids.len());
            lemma_increasing_keys(keys);
            assert forall|x: int| 0 <= x < keys.len() implies #[trigger] table.fields@[keys[x]].id == ids[x] by {
                assert(rem[x] == &table.fields@[keys[x]]);
                assert(fields@[x].0 == rem[x].id);
            }
        }
        let id = top + 1;
        let ghost fv = fields@;
        let ghost old_records = records@;
        records.push(Record { id, fields });
        assert(records@.drop_last() =~= old_records);
        assert(records@.last().fields@ == fv);
        self.records_by_table.insert(table.id, records);
        proof {
            assert(self.records_by_table@.dom() =~= before.dom());
            assert(self.records_by_table@[table.id]@.last().fields@ == fv);
            assert(forall|y: int| 0 <= y < fv.len() ==> (#[trigger] fv[y]).1@ == Seq::<char>::empty());
        }
        id
    }

    /// Sets field `field` of record `record` of table `table` to `value`.
    pub fn set_field(&mut self, table: u32, record: u32, field: u32, value: String)
        requires
            value_at(old(self).records_by_table@, table, record, field) is Some,
        ensures
            field_set(old(self).records_by_table@, final(self).records_by_table@, table, record, field, value@),
    {
        let ghost before = self.records_by_table@;
        let mut records = self.records_by_table.remove(&table).unwrap();
        let i = find_record(&records, record).unwrap();
        proof {
            lemma_record_pos(records@, record);
        }
        let mut rec = records.remove(i);
        let j = find_field(&rec.fields, field).unwrap();
        proof {
            lemma_field_pos(rec.fields@, field);
        }
        let ghost old_fields = rec.fields@;
        let (fid, _) = rec.fields.remove(j);
        let ghost v = value@;
        rec.fields.insert(j, (fid, value));
        records.insert(i, rec);
        self.records_by_table.insert(table, records);
        proof {
            let after = self.records_by_table@;
            assert(after.dom() =~= before.dom());
            assert forall|x: int| 0 <= x < before[table]@.len() && x != i implies #[trigger] after[table]@[x]
                == before[table]@[x] by {}
            assert forall|y: int| 0 <= y < old_fields.len() && y != j implies #[trigger] after[table]@[i as int].fields@[y]
                == old_fields[y] by {}
        }
    }

    /// The value of field `field` of record `record` of table `table`.
    pub fn get_field(&self, table: u32, record: u32, field: u32) -> (r: String)
        requires
            value_at(self.records_by_table@, table, record, field) is Some,
        ensures
            value_at(self.records_by_table@, table, record, field) == Some(r@),
    {
        let records = self.records_by_table.get(&table).unwrap();
        let i = find_record(records, record).unwrap();
        proof {
            lemma_record_pos(records@, record);
        }
        let j = find_field(&records[i].fields, field).unwrap();
        proof {
            lemma_field_pos(records@[i as int].fields@, field);
        }
        records[i].fields[j].1.clone()
    }
}

} // verus!
