//! Comparing two schemas: which objects were kept, changed, created or
//! deleted.

use std::collections::HashMap;
use vstd::prelude::*;
use crate::schema::{
    AutoEntry, AutoEntryType, DBObjectStatus, Field, Schema, Table, TableOccurrence, Validation,
    ValidationType,
};

verus! {

broadcast use vstd::std_specs::hash::group_hash_axioms;

pub type DBObjectID = usize;

pub type DiffCollection = HashMap<DBObjectID, DBObjectStatus>;

/// The status of each object of a schema against another schema, per kind
/// of object.
pub struct SchemaDiff {
    pub tables: DiffCollection,
    pub fields: DiffCollection,
    pub table_occurrences: DiffCollection,
    pub relations: DiffCollection,
    pub value_lists: DiffCollection,
    pub scripts: DiffCollection,
    pub tests: DiffCollection,
}

impl SchemaDiff {
    /// A diff with no entries.
    pub fn new() -> (r: Self)
        ensures
            r.tables@ == Map::<usize, DBObjectStatus>::empty(),
            r.fields@ == Map::<usize, DBObjectStatus>::empty(),
            r.table_occurrences@ == Map::<usize, DBObjectStatus>::empty(),
            r.relations@ == Map::<usize, DBObjectStatus>::empty(),
            r.value_lists@ == Map::<usize, DBObjectStatus>::empty(),
            r.scripts@ == Map::<usize, DBObjectStatus>::empty(),
            r.tests@ == Map::<usize, DBObjectStatus>::empty(),
    {
        SchemaDiff {
            tables: HashMap::new(),
            fields: HashMap::new(),
            table_occurrences: HashMap::new(),
            relations: HashMap::new(),
            value_lists: HashMap::new(),
            scripts: HashMap::new(),
            tests: HashMap::new(),
        }
    }
}

/// Two auto-entry definitions are the same.
pub open spec fn auto_entry_type_eq(a: AutoEntryType, b: AutoEntryType) -> bool {
    match (a, b) {
        (AutoEntryType::NA, AutoEntryType::NA) => true,
        (
            AutoEntryType::Serial { next: n1, increment: i1, trigger: t1 },
            AutoEntryType::Serial { next: n2, increment: i2, trigger: t2 },
        ) => n1 == n2 && i1 == i2 && t1 == t2,
        (AutoEntryType::Lookup { from: f1, to: t1 }, AutoEntryType::Lookup { from: f2, to: t2 }) => f1 == f2 && t1
            == t2,
        (AutoEntryType::Creation(p1), AutoEntryType::Creation(p2)) => p1 == p2,
        (AutoEntryType::Modification(p1), AutoEntryType::Modification(p2)) => p1 == p2,
        (AutoEntryType::LastVisited, AutoEntryType::LastVisited) => true,
        (AutoEntryType::Data(s1), AutoEntryType::Data(s2)) => s1@ == s2@,
        (
            AutoEntryType::Calculation { code: c1, noreplace: n1 },
            AutoEntryType::Calculation { code: c2, noreplace: n2 },
        ) => c1@ == c2@ && n1 == n2,
        _ => false,
    }
}

/// Two validation checks are the same.
pub open spec fn validation_type_eq(a: ValidationType, b: ValidationType) -> bool {
    match (a, b) {
        (ValidationType::NotEmpty, ValidationType::NotEmpty) => true,
        (ValidationType::Unique, ValidationType::Unique) => true,
        (ValidationType::Required, ValidationType::Required) => true,
        (ValidationType::MemberOf(s1), ValidationType::MemberOf(s2)) => s1@ == s2@,
        (ValidationType::Range { start: s1, end: e1 }, ValidationType::Range { start: s2, end: e2 }) => s1 == s2
            && e1 == e2,
        (ValidationType::Calculation(s1), ValidationType::Calculation(s2)) => s1@ == s2@,
        (ValidationType::MaxChars(n1), ValidationType::MaxChars(n2)) => n1 == n2,
        _ => false,
    }
}

/// Two validations are the same: same trigger, override flag, message and
/// checks in the same order.
pub open spec fn validation_eq(a: Validation, b: Validation) -> bool {
    &&& a.trigger == b.trigger
    &&& a.user_override == b.user_override
    &&& a.message@ == b.message@
    &&& a.checks@.len() == b.checks@.len()
    &&& forall|i: int| 0 <= i < a.checks@.len() ==> #[trigger] validation_type_eq(a.checks@[i], b.checks@[i])
}

/// Two fields are the same in every attribute.
pub open spec fn field_eq(a: Field, b: Field) -> bool {
    &&& a.id == b.id
    &&& a.name@ == b.name@
    &&& a.dtype == b.dtype
    &&& validation_eq(a.validation, b.validation)
    &&& a.autoentry.nomodify == b.autoentry.nomodify
    &&& auto_entry_type_eq(a.autoentry.definition, b.autoentry.definition)
    &&& a.global == b.global
    &&& a.repetitions == b.repetitions
    &&& a.created_by@ == b.created_by@
    &&& a.modified_by@ == b.modified_by@
}

/// Two field collections hold the same ids, with the same field under each.
pub open spec fn field_maps_eq(a: Map<usize, Field>, b: Map<usize, Field>) -> bool {
    &&& a.dom() == b.dom()
    &&& forall|k: usize| a.contains_key(k) ==> #[trigger] field_eq(a[k], b[k])
}

/// Two tables are the same, fields included.
pub open spec fn table_eq(a: Table, b: Table) -> bool {
    &&& a.id == b.id
    &&& a.name@ == b.name@
    &&& a.created_by@ == b.created_by@
    &&& a.modified_by@ == b.modified_by@
    &&& field_maps_eq(a.fields@, b.fields@)
}

/// Two table occurrences are the same.
pub open spec fn occurrence_eq(a: TableOccurrence, b: TableOccurrence) -> bool {
    &&& a.id == b.id
    &&& a.name@ == b.name@
    &&& a.base_table == b.base_table
    &&& a.created_by@ == b.created_by@
    &&& a.modified_by@ == b.modified_by@
}

/// Every table is stored under its own id.
pub open spec fn tables_keyed(m: Map<usize, Table>) -> bool {
    forall|k: usize| m.contains_key(k) ==> (#[trigger] m[k]).id == k
}

/// Every table occurrence is stored under its own id.
pub open spec fn occurrences_keyed(m: Map<usize, TableOccurrence>) -> bool {
    forall|k: usize| m.contains_key(k) ==> (#[trigger] m[k]).id == k
}

/// The status of an id that the updated collection holds: created when the
/// earlier collection lacks it, else unmodified or modified as the two objects are the
/// same or not.
pub open spec fn status_in_updated(in_original: bool, same: bool) -> DBObjectStatus {
    if !in_original {
        DBObjectStatus::Created
    } else if same {
        DBObjectStatus::Unmodified
    } else {
        DBObjectStatus::Modified
    }
}

/// The diff of two table collections: each id of the updated collection
/// gets its status there; each id only the earlier collection holds is
/// deleted.
pub open spec fn table_diff(o: Map<usize, Table>, u: Map<usize, Table>) -> Map<usize, DBObjectStatus> {
    Map::new(
        |k: usize| o.contains_key(k) || u.contains_key(k),
        |k: usize|
            if u.contains_key(k) {
                status_in_updated(o.contains_key(k), table_eq(o[k], u[k]))
            } else {
                DBObjectStatus::Deleted
            },
    )
}

/// The diff of two table-occurrence collections (see `table_diff`).
pub open spec fn occurrence_diff(o: Map<usize, TableOccurrence>, u: Map<usize, TableOccurrence>) -> Map<
    usize,
    DBObjectStatus,
> {
    Map::new(
        |k: usize| o.contains_key(k) || u.contains_key(k),
        |k: usize|
            if u.contains_key(k) {
                status_in_updated(o.contains_key(k), occurrence_eq(o[k], u[k]))
            } else {
                DBObjectStatus::Deleted
            },
    )
}

/// Some table of `m` has id `id`, whatever key it is stored under.
pub open spec fn has_table_id(m: Map<usize, Table>, id: usize) -> bool {
    exists|k: usize| #[trigger] m.contains_key(k) && m[k].id == id
}

/// A table of `o` and a table of `u`, both with id `id`, that are (`same`
/// true) or are not (`same` false) the same entry: stored under the same
/// key and equal.
pub open spec fn table_pair(o: Map<usize, Table>, u: Map<usize, Table>, id: usize, same: bool) -> bool {
    exists|ko: usize, ku: usize|
        #[trigger] o.contains_key(ko) && #[trigger] u.contains_key(ku) && o[ko].id == id && u[ku].id == id && ((
        ko == ku && table_eq(o[ko], u[ku])) == same)
}

/// The statuses that id `id` may get: deleted when no table of `u` has it,
/// created when no table of `o` has it, else unmodified or modified after
/// a table of each with that id (which of several with one id is compared
/// depends on the order in which the maps are walked).
pub open spec fn table_status_ok(o: Map<usize, Table>, u: Map<usize, Table>, id: usize, s: DBObjectStatus) -> bool {
    if !has_table_id(u, id) {
        s == DBObjectStatus::Deleted
    } else if !has_table_id(o, id) {
        s == DBObjectStatus::Created
    } else {
        (s == DBObjectStatus::Unmodified && table_pair(o, u, id, true)) || (s == DBObjectStatus::Modified
            && table_pair(o, u, id, false))
    }
}

/// `r` is a diff of two table collections by object id: it holds exactly the
/// ids of the objects of either, each with a status that `table_status_ok`
/// allows.
pub open spec fn table_diff_by_id(o: Map<usize, Table>, u: Map<usize, Table>, r: Map<usize, DBObjectStatus>) -> bool {
    &&& forall|id: usize| #[trigger] r.contains_key(id) == (has_table_id(o, id) || has_table_id(u, id))
    &&& forall|id: usize| #[trigger] r.contains_key(id) ==> table_status_ok(o, u, id, r[id])
}

/// Some occurrence of `m` has id `id`, whatever key it is stored under.
pub open spec fn has_occurrence_id(m: Map<usize, TableOccurrence>, id: usize) -> bool {
    exists|k: usize| #[trigger] m.contains_key(k) && m[k].id == id
}

/// A occurrence of `o` and a occurrence of `u`, both with id `id`, that are (`same`
/// true) or are not (`same` false) the same entry: stored under the same
/// key and equal.
pub open spec fn occurrence_pair(o: Map<usize, TableOccurrence>, u: Map<usize, TableOccurrence>, id: usize, same: bool) -> bool {
    exists|ko: usize, ku: usize|
        #[trigger] o.contains_key(ko) && #[trigger] u.contains_key(ku) && o[ko].id == id && u[ku].id == id && ((
        ko == ku && occurrence_eq(o[ko], u[ku])) == same)
}

/// The statuses that id `id` may get: deleted when no occurrence of `u` has it,
/// created when no occurrence of `o` has it, else unmodified or modified after
/// a occurrence of each with that id (which of several with one id is compared
/// depends on the order in which the maps are walked).
pub open spec fn occurrence_status_ok(o: Map<usize, TableOccurrence>, u: Map<usize, TableOccurrence>, id: usize, s: DBObjectStatus) -> bool {
    if !has_occurrence_id(u, id) {
        s == DBObjectStatus::Deleted
    } else if !has_occurrence_id(o, id) {
        s == DBObjectStatus::Created
    } else {
        (s == DBObjectStatus::Unmodified && occurrence_pair(o, u, id, true)) || (s == DBObjectStatus::Modified
            && occurrence_pair(o, u, id, false))
    }
}

/// `r` is a diff of two occurrence collections by object id: it holds exactly the
/// ids of the objects of either, each with a status that `occurrence_status_ok`
/// allows.
pub open spec fn occurrence_diff_by_id(o: Map<usize, TableOccurrence>, u: Map<usize, TableOccurrence>, r: Map<usize, DBObjectStatus>) -> bool {
    &&& forall|id: usize| #[trigger] r.contains_key(id) == (has_occurrence_id(o, id) || has_occurrence_id(u, id))
    &&& forall|id: usize| #[trigger] r.contains_key(id) ==> occurrence_status_ok(o, u, id, r[id])
}

fn strings_equal(a: &String, b: &String) -> (r: bool)
    ensures
        r == (a@ == b@),
{
    *a == *b
}

fn auto_entry_types_equal(a: &AutoEntryType, b: &AutoEntryType) -> (r: bool)
    ensures
        r == auto_entry_type_eq(*a, *b),
{
    match (a, b) {
        (AutoEntryType::NA, AutoEntryType::NA) => true,
        (
            AutoEntryType::Serial { next: n1, increment: i1, trigger: t1 },
            AutoEntryType::Serial { next: n2, increment: i2, trigger: t2 },
        ) => *n1 == *n2 && *i1 == *i2 && *t1 == *t2,
        (AutoEntryType::Lookup { from: f1, to: t1 }, AutoEntryType::Lookup { from: f2, to: t2 }) => *f1 == *f2
            && *t1 == *t2,
        (AutoEntryType::Creation(p1), AutoEntryType::Creation(p2)) => *p1 == *p2,
        (AutoEntryType::Modification(p1), AutoEntryType::Modification(p2)) => *p1 == *p2,
        (AutoEntryType::LastVisited, AutoEntryType::LastVisited) => true,
        (AutoEntryType::Data(s1), AutoEntryType::Data(s2)) => strings_equal(s1, s2),
        (
            AutoEntryType::Calculation { code: c1, noreplace: n1 },
            AutoEntryType::Calculation { code: c2, noreplace: n2 },
        ) => strings_equal(c1, c2) && *n1 == *n2,
        _ => false,
    }
}

fn validation_types_equal(a: &ValidationType, b: &ValidationType) -> (r: bool)
    ensures
        r == validation_type_eq(*a, *b),
{
    match (a, b) {
        (ValidationType::NotEmpty, ValidationType::NotEmpty) => true,
        (ValidationType::Unique, ValidationType::Unique) => true,
        (ValidationType::Required, ValidationType::Required) => true,
        (ValidationType::MemberOf(s1), ValidationType::MemberOf(s2)) => strings_equal(s1, s2),
        (ValidationType::Range { start: s1, end: e1 }, ValidationType::Range { start: s2, end: e2 }) => *s1
            == *s2 && *e1 == *e2,
        (ValidationType::Calculation(s1), ValidationType::Calculation(s2)) => strings_equal(s1, s2),
        (ValidationType::MaxChars(n1), ValidationType::MaxChars(n2)) => *n1 == *n2,
        _ => false,
    }
}

fn validations_equal(a: &Validation, b: &Validation) -> (r: bool)
    ensures
        r == validation_eq(*a, *b),
{
    if !(a.trigger == b.trigger && a.user_override == b.user_override && strings_equal(&a.message, &b.message)
        && a.checks.len() == b.checks.len()) {
        return false;
    }
    let mut i: usize = 0;
    while i < a.checks.len()
        invariant
            i <= a.checks@.len(),
            a.checks@.len() == b.checks@.len(),
            forall|j: int| 0 <= j < i ==> #[trigger] validation_type_eq(a.checks@[j], b.checks@[j]),
        decreases a.checks.len() - i,
    {
        if !validation_types_equal(&a.checks[i], &b.checks[i]) {
            return false;
        }
        i = i + 1;
    }
    true
}

fn fields_equal(a: &Field, b: &Field) -> (r: bool)
    ensures
        r == field_eq(*a, *b),
{
    a.id == b.id && strings_equal(&a.name, &b.name) && a.dtype == b.dtype && validations_equal(
        &a.validation,
        &b.validation,
    ) && a.autoentry.nomodify == b.autoentry.nomodify && auto_entry_types_equal(
        &a.autoentry.definition,
        &b.autoentry.definition,
    ) && a.global == b.global && a.repetitions == b.repetitions && strings_equal(
        &a.created_by,
        &b.created_by,
    ) && strings_equal(&a.modified_by, &b.modified_by)
}

fn field_maps_equal(a: &HashMap<usize, Field>, b: &HashMap<usize, Field>) -> (r: bool)
    ensures
        r == field_maps_eq(a@, b@),
{
    proof {
        vstd::std_specs::hash::axiom_hashmap_view_finite_dom(*a);
        vstd::std_specs::hash::axiom_hashmap_view_finite_dom(*b);
    }
    if a.len() != b.len() {
        return false;
    }
    let ghost mut seen: Set<usize> = Set::empty();
    for x in it: a.iter()
        invariant
            a@.len() == b@.len(),
            a@.dom().finite(),
            b@.dom().finite(),
            forall|i: int| 0 <= i < it.index() ==> seen.contains(*(#[trigger] it.seq()[i]).0),
            forall|k: usize| #[trigger] seen.contains(k) ==> a@.contains_key(k),
            forall|k: usize| #[trigger] seen.contains(k) ==> b@.contains_key(k) && field_eq(a@[k], b@[k]),
    {
        proof {
            let i = it.index();
            assert(x == it.seq()[i as int]);
            assert(a@.contains_key(*it.seq()[i as int].0));
        }
        match b.get(x.0) {
            Some(w) => {
                if !fields_equal(x.1, w) {
                    return false;
                }
            },
            None => {
                return false;
            },
        }
        proof {
            seen = seen.insert(*x.0);
        }
    }
    proof {
        assert(seen =~= a@.dom());
        assert(a@.dom().subset_of(b@.dom()));
        vstd::set_lib::lemma_subset_equality(a@.dom(), b@.dom());
    }
    true
}

fn tables_equal(a: &Table, b: &Table) -> (r: bool)
    ensures
        r == table_eq(*a, *b),
{
    a.id == b.id && strings_equal(&a.name, &b.name) && strings_equal(&a.created_by, &b.created_by)
        && strings_equal(&a.modified_by, &b.modified_by) && field_maps_equal(&a.fields, &b.fields)
}

fn occurrences_equal(a: &TableOccurrence, b: &TableOccurrence) -> (r: bool)
    ensures
        r == occurrence_eq(*a, *b),
{
    a.id == b.id && strings_equal(&a.name, &b.name) && a.base_table == b.base_table && strings_equal(
        &a.created_by,
        &b.created_by,
    ) && strings_equal(&a.modified_by, &b.modified_by)
}

/// The key and the table of the entry of `m` whose table has id `id`, the
/// first met in the walk of the map.
fn find_table(m: &HashMap<usize, Table>, id: usize) -> (r: Option<(usize, &Table)>)
    ensures
        match r {
            Some(p) => m@.contains_key(p.0) && m@[p.0] == *p.1 && p.1.id == id,
            None => !has_table_id(m@, id),
        },
{
    let ghost mut seen: Set<usize> = Set::empty();
    for x in it: m.iter()
        invariant
            forall|i: int| 0 <= i < it.index() ==> seen.contains(*(#[trigger] it.seq()[i]).0),
            forall|k: usize| #[trigger] seen.contains(k) ==> m@.contains_key(k) && m@[k].id != id,
    {
        proof {
            let i = it.index();
            assert(x == it.seq()[i as int]);
            assert(m@.contains_key(*it.seq()[i as int].0));
        }
        if x.1.id == id {
            return Some((*x.0, x.1));
        }
        proof {
            seen = seen.insert(*x.0);
        }
    }
    proof {
        assert(seen =~= m@.dom());
    }
    None
}

/// For each table of `updated`, by its id: created when no table of
/// `original` has that id, else unmodified when the first such table is
/// the same entry (same key, equal table), modified when not; then each id
/// of `original` that no table of `updated` has: deleted.
pub fn get_table_diffs(original: &Schema, updated: &Schema) -> (r: DiffCollection)
    ensures
        table_diff_by_id(original.tables@, updated.tables@, r@),
{
    let ghost o = original.tables@;
    let ghost u = updated.tables@;
    let mut result = DiffCollection::new();
    let ghost mut done: Set<usize> = Set::empty();
    for x in it: updated.tables.iter()
        invariant
            o == original.tables@,
            u == updated.tables@,
            forall|i: int| 0 <= i < it.index() ==> done.contains(*(#[trigger] it.seq()[i]).0),
            forall|k: usize| #[trigger] done.contains(k) ==> u.contains_key(k) && result@.contains_key(u[k].id),
            forall|id: usize| #[trigger] result@.contains_key(id) ==> has_table_id(u, id),
            forall|id: usize| #[trigger] result@.contains_key(id) ==> table_status_ok(o, u, id, result@[id]),
    {
        proof {
            let i = it.index();
            assert(x == it.seq()[i as int]);
            assert(u.contains_key(*it.seq()[i as int].0));
        }
        let id = x.1.id;
        let ghost ku = *x.0;
        assert(u.contains_key(ku) && u[ku].id == id);
        match find_table(&original.tables, id) {
            Some(matching) => {
                if matching.0 == *x.0 && tables_equal(matching.1, x.1) {
                    result.insert(id, DBObjectStatus::Unmodified);
                } else {
                    result.insert(id, DBObjectStatus::Modified);
                }
                proof {
                    let ko = matching.0;
                    assert(o.contains_key(ko) && u.contains_key(ku) && o[ko].id == id && u[ku].id == id);
                }
            },
            None => {
                result.insert(id, DBObjectStatus::Created);
            },
        }
        proof {
            done = done.insert(*x.0);
        }
    }
    proof {
        assert(done =~= u.dom());
    }
    let ghost mut done2: Set<usize> = Set::empty();
    for x in it: original.tables.iter()
        invariant
            o == original.tables@,
            u == updated.tables@,
            forall|i: int| 0 <= i < it.index() ==> done2.contains(*(#[trigger] it.seq()[i]).0),
            forall|k: usize| #[trigger] done2.contains(k) ==> o.contains_key(k) && result@.contains_key(o[k].id),
            forall|k: usize| #[trigger] u.contains_key(k) ==> result@.contains_key(u[k].id),
            forall|id: usize| #[trigger] result@.contains_key(id) ==> has_table_id(u, id) || has_table_id(o, id),
            forall|id: usize| #[trigger] result@.contains_key(id) ==> table_status_ok(o, u, id, result@[id]),
    {
        proof {
            let i = it.index();
            assert(x == it.seq()[i as int]);
            assert(o.contains_key(*it.seq()[i as int].0));
        }
        let ghost ko = *x.0;
        assert(o.contains_key(ko) && o[ko].id == x.1.id);
        if find_table(&updated.tables, x.1.id).is_none() {
            result.insert(x.1.id, DBObjectStatus::Deleted);
        }
        proof {
            done2 = done2.insert(*x.0);
        }
    }
    proof {
        assert(done2 =~= o.dom());
        assert forall|id: usize| #[trigger] result@.contains_key(id) == (has_table_id(o, id) || has_table_id(u, id)) by {
            if has_table_id(o, id) {
                let k = choose|k: usize| #[trigger] o.contains_key(k) && o[k].id == id;
                assert(done2.contains(k));
            }
            if has_table_id(u, id) {
                let k = choose|k: usize| #[trigger] u.contains_key(k) && u[k].id == id;
                assert(u.contains_key(k));
            }
        }
    }
    result
}

/// The key and the occurrence of the entry of `m` whose occurrence has id `id`, the
/// first met in the walk of the map.
fn find_occurrence(m: &HashMap<usize, TableOccurrence>, id: usize) -> (r: Option<(usize, &TableOccurrence)>)
    ensures
        match r {
            Some(p) => m@.contains_key(p.0) && m@[p.0] == *p.1 && p.1.id == id,
            None => !has_occurrence_id(m@, id),
        },
{
    let ghost mut seen: Set<usize> = Set::empty();
    for x in it: m.iter()
        invariant
            forall|i: int| 0 <= i < it.index() ==> seen.contains(*(#[trigger] it.seq()[i]).0),
            forall|k: usize| #[trigger] seen.contains(k) ==> m@.contains_key(k) && m@[k].id != id,
    {
        proof {
            let i = it.index();
            assert(x == it.seq()[i as int]);
            assert(m@.contains_key(*it.seq()[i as int].0));
        }
        if x.1.id == id {
            return Some((*x.0, x.1));
        }
        proof {
            seen = seen.insert(*x.0);
        }
    }
    proof {
        assert(seen =~= m@.dom());
    }
    None
}

/// For each occurrence of `updated`, by its id: created when no occurrence of
/// `original` has that id, else unmodified when the first such occurrence is
/// the same entry (same key, equal occurrence), modified when not; then each id
/// of `original` that no occurrence of `updated` has: deleted.
pub fn get_table_occurrence_diffs(original: &Schema, updated: &Schema) -> (r: DiffCollection)
    ensures
        occurrence_diff_by_id(original.table_occurrences@, updated.table_occurrences@, r@),
{
    let ghost o = original.table_occurrences@;
    let ghost u = updated.table_occurrences@;
    let mut result = DiffCollection::new();
    let ghost mut done: Set<usize> = Set::empty();
    for x in it: updated.table_occurrences.iter()
        invariant
            o == original.table_occurrences@,
            u == updated.table_occurrences@,
            forall|i: int| 0 <= i < it.index() ==> done.contains(*(#[trigger] it.seq()[i]).0),
            forall|k: usize| #[trigger] done.contains(k) ==> u.contains_key(k) && result@.contains_key(u[k].id),
            forall|id: usize| #[trigger] result@.contains_key(id) ==> has_occurrence_id(u, id),
            forall|id: usize| #[trigger] result@.contains_key(id) ==> occurrence_status_ok(o, u, id, result@[id]),
    {
        proof {
            let i = it.index();
            assert(x == it.seq()[i as int]);
            assert(u.contains_key(*it.seq()[i as int].0));
        }
        let id = x.1.id;
        let ghost ku = *x.0;
        assert(u.contains_key(ku) && u[ku].id == id);
        match find_occurrence(&original.table_occurrences, id) {
            Some(matching) => {
                if matching.0 == *x.0 && occurrences_equal(matching.1, x.1) {
                    result.insert(id, DBObjectStatus::Unmodified);
                } else {
                    result.insert(id, DBObjectStatus::Modified);
                }
                proof {
                    let ko = matching.0;
                    assert(o.contains_key(ko) && u.contains_key(ku) && o[ko].id == id && u[ku].id == id);
                }
            },
            None => {
                result.insert(id, DBObjectStatus::Created);
            },
        }
        proof {
            done = done.insert(*x.0);
        }
    }
    proof {
        assert(done =~= u.dom());
    }
    let ghost mut done2: Set<usize> = Set::empty();
    for x in it: original.table_occurrences.iter()
        invariant
            o == original.table_occurrences@,
            u == updated.table_occurrences@,
            forall|i: int| 0 <= i < it.index() ==> done2.contains(*(#[trigger] it.seq()[i]).0),
            forall|k: usize| #[trigger] done2.contains(k) ==> o.contains_key(k) && result@.contains_key(o[k].id),
            forall|k: usize| #[trigger] u.contains_key(k) ==> result@.contains_key(u[k].id),
            forall|id: usize| #[trigger] result@.contains_key(id) ==> has_occurrence_id(u, id) || has_occurrence_id(o, id),
            forall|id: usize| #[trigger] result@.contains_key(id) ==> occurrence_status_ok(o, u, id, result@[id]),
    {
        proof {
            let i = it.index();
            assert(x == it.seq()[i as int]);
            assert(o.contains_key(*it.seq()[i as int].0));
        }
        let ghost ko = *x.0;
        assert(o.contains_key(ko) && o[ko].id == x.1.id);
        if find_occurrence(&updated.table_occurrences, x.1.id).is_none() {
            result.insert(x.1.id, DBObjectStatus::Deleted);
        }
        proof {
            done2 = done2.insert(*x.0);
        }
    }
    proof {
        assert(done2 =~= o.dom());
        assert forall|id: usize| #[trigger] result@.contains_key(id) == (has_occurrence_id(o, id) || has_occurrence_id(u, id)) by {
            if has_occurrence_id(o, id) {
                let k = choose|k: usize| #[trigger] o.contains_key(k) && o[k].id == id;
                assert(done2.contains(k));
            }
            if has_occurrence_id(u, id) {
                let k = choose|k: usize| #[trigger] u.contains_key(k) && u[k].id == id;
                assert(u.contains_key(k));
            }
        }
    }
    result
}

/// The diff that the relation report gives. It compares the table
/// occurrences of the two schemas, exactly as `get_table_occurrence_diffs`
/// does.
pub fn get_relations_diffs(original: &Schema, updated: &Schema) -> (r: DiffCollection)
    ensures
        occurrence_diff_by_id(original.table_occurrences@, updated.table_occurrences@, r@),
{
    get_table_occurrence_diffs(original, updated)
}

/// The diff of two schemas: tables and table occurrences are compared, as
/// `get_table_diffs` and `get_table_occurrence_diffs` do; the other kinds of
/// object get no entries.
pub fn get_diffs(original: &Schema, updated: &Schema) -> (r: SchemaDiff)
    ensures
        table_diff_by_id(original.tables@, updated.tables@, r.tables@),
        occurrence_diff_by_id(original.table_occurrences@, updated.table_occurrences@, r.table_occurrences@),
        r.fields@ == Map::<usize, DBObjectStatus>::empty(),
        r.relations@ == Map::<usize, DBObjectStatus>::empty(),
        r.value_lists@ == Map::<usize, DBObjectStatus>::empty(),
        r.scripts@ == Map::<usize, DBObjectStatus>::empty(),
        r.tests@ == Map::<usize, DBObjectStatus>::empty(),
{
    let mut result = SchemaDiff::new();
    result.tables = get_table_diffs(original, updated);
    result.table_occurrences = get_table_occurrence_diffs(original, updated);
    result
}

/// Every table is the same as itself, fields included.
pub proof fn lemma_table_eq_refl(t: Table)
    ensures
        table_eq(t, t),
{
    assert forall|k: usize| t.fields@.contains_key(k) implies #[trigger] field_eq(t.fields@[k], t.fields@[k]) by {
        let f = t.fields@[k];
        assert forall|i: int| 0 <= i < f.validation.checks@.len() implies #[trigger] validation_type_eq(
            f.validation.checks@[i],
            f.validation.checks@[i],
        ) by {
            match f.validation.checks@[i] {
                ValidationType::MemberOf(_) => {},
                _ => {},
            }
        }
        match f.autoentry.definition {
            AutoEntryType::NA => {},
            _ => {},
        }
    }
}

/// Every table occurrence is the same as itself.
pub proof fn lemma_occurrence_eq_refl(t: TableOccurrence)
    ensures
        occurrence_eq(t, t),
{
}

/// No two tables of `m` share an id.
pub open spec fn table_ids_unique(m: Map<usize, Table>) -> bool {
    forall|k1: usize, k2: usize|
        #[trigger] m.contains_key(k1) && #[trigger] m.contains_key(k2) && m[k1].id == m[k2].id ==> k1 == k2
}

/// Where each table is stored under its own id, the diff by id is the keyed
/// diff: the status of each id follows from the two entries under it.
pub proof fn lemma_keyed_table_diff(o: Map<usize, Table>, u: Map<usize, Table>, r: Map<usize, DBObjectStatus>)
    requires
        tables_keyed(o),
        tables_keyed(u),
        table_diff_by_id(o, u, r),
    ensures
        r == table_diff(o, u),
{
    assert forall|m: Map<usize, Table>, id: usize| tables_keyed(m) implies #[trigger] has_table_id(m, id) == m.contains_key(id) by {
        if has_table_id(m, id) {
            let k = choose|k: usize| #[trigger] m.contains_key(k) && m[k].id == id;
            assert(m[k].id == k);
        }
        if m.contains_key(id) {
            assert(m[id].id == id);
        }
    }
    assert forall|id: usize| #[trigger] r.contains_key(id) implies r[id] == table_diff(o, u)[id] by {
        assert(has_table_id(o, id) == o.contains_key(id));
        assert(has_table_id(u, id) == u.contains_key(id));
        if o.contains_key(id) && u.contains_key(id) {
            if table_pair(o, u, id, true) {
                let (ko, ku) = choose|ko: usize, ku: usize|
                    #[trigger] o.contains_key(ko) && #[trigger] u.contains_key(ku) && o[ko].id == id && u[ku].id
                        == id && ((ko == ku && table_eq(o[ko], u[ku])) == true);
                assert(o[ko].id == ko && u[ku].id == ku);
            }
            if table_pair(o, u, id, false) {
                let (ko, ku) = choose|ko: usize, ku: usize|
                    #[trigger] o.contains_key(ko) && #[trigger] u.contains_key(ku) && o[ko].id == id && u[ku].id
                        == id && ((ko == ku && table_eq(o[ko], u[ku])) == false);
                assert(o[ko].id == ko && u[ku].id == ku);
            }
        }
    }
    assert forall|id: usize| #[trigger] r.contains_key(id) == table_diff(o, u).contains_key(id) by {
        assert(has_table_id(o, id) == o.contains_key(id));
        assert(has_table_id(u, id) == u.contains_key(id));
    }
    assert(r =~= table_diff(o, u));
}

/// Comparing tables with themselves finds every one unmodified, where no two
/// share an id.
pub proof fn lemma_table_diff_with_itself(s: Map<usize, Table>, r: Map<usize, DBObjectStatus>)
    requires
        table_ids_unique(s),
        table_diff_by_id(s, s, r),
    ensures
        forall|id: usize| #[trigger] r.contains_key(id) == has_table_id(s, id),
        forall|id: usize| #[trigger] r.contains_key(id) ==> r[id] == DBObjectStatus::Unmodified,
{
    assert forall|id: usize| #[trigger] r.contains_key(id) implies r[id] == DBObjectStatus::Unmodified by {
        if table_pair(s, s, id, false) {
            let (ko, ku) = choose|ko: usize, ku: usize|
                #[trigger] s.contains_key(ko) && #[trigger] s.contains_key(ku) && s[ko].id == id && s[ku].id == id
                    && ((ko == ku && table_eq(s[ko], s[ku])) == false);
            assert(ko == ku);
            lemma_table_eq_refl(s[ko]);
        }
    }
}

/// Every id of either collection gets a status: created exactly when only
/// the updated collection has it, deleted exactly when only the earlier one
/// has it.
pub proof fn lemma_table_created_deleted(o: Map<usize, Table>, u: Map<usize, Table>, r: Map<usize, DBObjectStatus>, id: usize)
    requires
        table_diff_by_id(o, u, r),
    ensures
        r.contains_key(id) == (has_table_id(o, id) || has_table_id(u, id)),
        r.contains_key(id) ==> ((r[id] == DBObjectStatus::Created) == (has_table_id(u, id) && !has_table_id(o, id))),
        r.contains_key(id) ==> ((r[id] == DBObjectStatus::Deleted) == (has_table_id(o, id) && !has_table_id(u, id))),
{
}

/// No two occurrences of `m` share an id.
pub open spec fn occurrence_ids_unique(m: Map<usize, TableOccurrence>) -> bool {
    forall|k1: usize, k2: usize|
        #[trigger] m.contains_key(k1) && #[trigger] m.contains_key(k2) && m[k1].id == m[k2].id ==> k1 == k2
}

/// Where each occurrence is stored under its own id, the diff by id is the keyed
/// diff: the status of each id follows from the two entries under it.
pub proof fn lemma_keyed_occurrence_diff(o: Map<usize, TableOccurrence>, u: Map<usize, TableOccurrence>, r: Map<usize, DBObjectStatus>)
    requires
        occurrences_keyed(o),
        occurrences_keyed(u),
        occurrence_diff_by_id(o, u, r),
    ensures
        r == occurrence_diff(o, u),
{
    assert forall|m: Map<usize, TableOccurrence>, id: usize| occurrences_keyed(m) implies #[trigger] has_occurrence_id(m, id) == m.contains_key(id) by {
        if has_occurrence_id(m, id) {
            let k = choose|k: usize| #[trigger] m.contains_key(k) && m[k].id == id;
            assert(m[k].id == k);
        }
        if m.contains_key(id) {
            assert(m[id].id == id);
        }
    }
    assert forall|id: usize| #[trigger] r.contains_key(id) implies r[id] == occurrence_diff(o, u)[id] by {
        assert(has_occurrence_id(o, id) == o.contains_key(id));
        assert(has_occurrence_id(u, id) == u.contains_key(id));
        if o.contains_key(id) && u.contains_key(id) {
            if occurrence_pair(o, u, id, true) {
                let (ko, ku) = choose|ko: usize, ku: usize|
                    #[trigger] o.contains_key(ko) && #[trigger] u.contains_key(ku) && o[ko].id == id && u[ku].id
                        == id && ((ko == ku && occurrence_eq(o[ko], u[ku])) == true);
                assert(o[ko].id == ko && u[ku].id == ku);
            }
            if occurrence_pair(o, u, id, false) {
                let (ko, ku) = choose|ko: usize, ku: usize|
                    #[trigger] o.contains_key(ko) && #[trigger] u.contains_key(ku) && o[ko].id == id && u[ku].id
                        == id && ((ko == ku && occurrence_eq(o[ko], u[ku])) == false);
                assert(o[ko].id == ko && u[ku].id == ku);
            }
        }
    }
    assert forall|id: usize| #[trigger] r.contains_key(id) == occurrence_diff(o, u).contains_key(id) by {
        assert(has_occurrence_id(o, id) == o.contains_key(id));
        assert(has_occurrence_id(u, id) == u.contains_key(id));
    }
    assert(r =~= occurrence_diff(o, u));
}

/// Comparing occurrences with themselves finds every one unmodified, where no two
/// share an id.
pub proof fn lemma_occurrence_diff_with_itself(s: Map<usize, TableOccurrence>, r: Map<usize, DBObjectStatus>)
    requires
        occurrence_ids_unique(s),
        occurrence_diff_by_id(s, s, r),
    ensures
        forall|id: usize| #[trigger] r.contains_key(id) == has_occurrence_id(s, id),
        forall|id: usize| #[trigger] r.contains_key(id) ==> r[id] == DBObjectStatus::Unmodified,
{
    assert forall|id: usize| #[trigger] r.contains_key(id) implies r[id] == DBObjectStatus::Unmodified by {
        if occurrence_pair(s, s, id, false) {
            let (ko, ku) = choose|ko: usize, ku: usize|
                #[trigger] s.contains_key(ko) && #[trigger] s.contains_key(ku) && s[ko].id == id && s[ku].id == id
                    && ((ko == ku && occurrence_eq(s[ko], s[ku])) == false);
            assert(ko == ku);
            lemma_occurrence_eq_refl(s[ko]);
        }
    }
}

/// Every id of either collection gets a status: created exactly when only
/// the updated collection has it, deleted exactly when only the earlier one
/// has it.
pub proof fn lemma_occurrence_created_deleted(o: Map<usize, TableOccurrence>, u: Map<usize, TableOccurrence>, r: Map<usize, DBObjectStatus>, id: usize)
    requires
        occurrence_diff_by_id(o, u, r),
    ensures
        r.contains_key(id) == (has_occurrence_id(o, id) || has_occurrence_id(u, id)),
        r.contains_key(id) ==> ((r[id] == DBObjectStatus::Created) == (has_occurrence_id(u, id) && !has_occurrence_id(o, id))),
        r.contains_key(id) ==> ((r[id] == DBObjectStatus::Deleted) == (has_occurrence_id(o, id) && !has_occurrence_id(u, id))),
{
}

/// Where no two tables of either collection share an id, the diff by id is
/// one map: two diffs of the same collections are equal.
pub proof fn lemma_table_diff_determined(
    o: Map<usize, Table>,
    u: Map<usize, Table>,
    r1: Map<usize, DBObjectStatus>,
    r2: Map<usize, DBObjectStatus>,
)
    requires
        table_ids_unique(o),
        table_ids_unique(u),
        table_diff_by_id(o, u, r1),
        table_diff_by_id(o, u, r2),
    ensures
        r1 == r2,
{
    assert forall|id: usize| #[trigger] r1.contains_key(id) implies r1[id] == r2[id] by {
        assert(r2.contains_key(id));
        if table_pair(o, u, id, true) && table_pair(o, u, id, false) {
            let (a1, b1) = choose|ko: usize, ku: usize|
                #[trigger] o.contains_key(ko) && #[trigger] u.contains_key(ku) && o[ko].id == id && u[ku].id == id
                    && ((ko == ku && table_eq(o[ko], u[ku])) == true);
            let (a2, b2) = choose|ko: usize, ku: usize|
                #[trigger] o.contains_key(ko) && #[trigger] u.contains_key(ku) && o[ko].id == id && u[ku].id == id
                    && ((ko == ku && table_eq(o[ko], u[ku])) == false);
            assert(a1 == a2 && b1 == b2);
        }
    }
    assert forall|id: usize| #[trigger] r1.contains_key(id) == r2.contains_key(id) by {}
    assert(r1 =~= r2);
}

/// Where no two occurrences of either collection share an id, the diff by id is
/// one map: two diffs of the same collections are equal.
pub proof fn lemma_occurrence_diff_determined(
    o: Map<usize, TableOccurrence>,
    u: Map<usize, TableOccurrence>,
    r1: Map<usize, DBObjectStatus>,
    r2: Map<usize, DBObjectStatus>,
)
    requires
        occurrence_ids_unique(o),
        occurrence_ids_unique(u),
        occurrence_diff_by_id(o, u, r1),
        occurrence_diff_by_id(o, u, r2),
    ensures
        r1 == r2,
{
    assert forall|id: usize| #[trigger] r1.contains_key(id) implies r1[id] == r2[id] by {
        assert(r2.contains_key(id));
        if occurrence_pair(o, u, id, true) && occurrence_pair(o, u, id, false) {
            let (a1, b1) = choose|ko: usize, ku: usize|
                #[trigger] o.contains_key(ko) && #[trigger] u.contains_key(ku) && o[ko].id == id && u[ku].id == id
                    && ((ko == ku && occurrence_eq(o[ko], u[ku])) == true);
            let (a2, b2) = choose|ko: usize, ku: usize|
                #[trigger] o.contains_key(ko) && #[trigger] u.contains_key(ku) && o[ko].id == id && u[ku].id == id
                    && ((ko == ku && occurrence_eq(o[ko], u[ku])) == false);
            assert(a1 == a2 && b1 == b2);
        }
    }
    assert forall|id: usize| #[trigger] r1.contains_key(id) == r2.contains_key(id) by {}
    assert(r1 =~= r2);
}


/// Two tables count as the same only when they agree in every attribute:
/// id, name and authors, and the same field ids, each field with the same
/// id, name, data type, validation (trigger, override, message, number of
/// checks), auto-entry setting, storage, repetitions and authors.
pub proof fn lemma_same_tables_agree(a: Table, b: Table)
    requires
        table_eq(a, b),
    ensures
        a.id == b.id,
        a.name@ == b.name@,
        a.created_by@ == b.created_by@,
        a.modified_by@ == b.modified_by@,
        a.fields@.dom() == b.fields@.dom(),
        forall|k: usize| #[trigger] a.fields@.contains_key(k) ==> {
            let f = a.fields@[k];
            let g = b.fields@[k];
            &&& f.id == g.id
            &&& f.name@ == g.name@
            &&& f.dtype == g.dtype
            &&& f.validation.trigger == g.validation.trigger
            &&& f.validation.user_override == g.validation.user_override
            &&& f.validation.message@ == g.validation.message@
            &&& f.validation.checks@.len() == g.validation.checks@.len()
        &&& forall|i: int| 0 <= i < f.validation.checks@.len() ==> #[trigger] validation_type_eq(f.validation.checks@[i], g.validation.checks@[i])
        &&& auto_entry_type_eq(f.autoentry.definition, g.autoentry.definition)
            &&& forall|i: int| 0 <= i < f.validation.checks@.len() ==> #[trigger] validation_type_eq(f.validation.checks@[i], g.validation.checks@[i])
            &&& auto_entry_type_eq(f.autoentry.definition, g.autoentry.definition)
            &&& f.autoentry.nomodify == g.autoentry.nomodify
            &&& f.global == g.global
            &&& f.repetitions == g.repetitions
            &&& f.created_by@ == g.created_by@
            &&& f.modified_by@ == g.modified_by@
        },
{
    assert forall|k: usize| #[trigger] a.fields@.contains_key(k) implies {
        let f = a.fields@[k];
        let g = b.fields@[k];
        &&& f.id == g.id
        &&& f.name@ == g.name@
        &&& f.dtype == g.dtype
        &&& f.validation.trigger == g.validation.trigger
        &&& f.validation.user_override == g.validation.user_override
        &&& f.validation.message@ == g.validation.message@
        &&& f.validation.checks@.len() == g.validation.checks@.len()
        &&& forall|i: int| 0 <= i < f.validation.checks@.len() ==> #[trigger] validation_type_eq(f.validation.checks@[i], g.validation.checks@[i])
        &&& auto_entry_type_eq(f.autoentry.definition, g.autoentry.definition)
        &&& f.autoentry.nomodify == g.autoentry.nomodify
        &&& f.global == g.global
        &&& f.repetitions == g.repetitions
        &&& f.created_by@ == g.created_by@
        &&& f.modified_by@ == g.modified_by@
    } by {
        assert(field_eq(a.fields@[k], b.fields@[k]));
    }
}

/// Two validation checks count as the same only when they are the same
/// kind of check with the same settings.
pub proof fn lemma_same_checks_agree(a: ValidationType, b: ValidationType)
    requires
        validation_type_eq(a, b),
    ensures
        (a is NotEmpty) == (b is NotEmpty),
        (a is Unique) == (b is Unique),
        (a is Required) == (b is Required),
        a matches ValidationType::MemberOf(s) ==> (b matches ValidationType::MemberOf(t) && s@ == t@),
        a matches ValidationType::Range { start, end } ==> (b matches ValidationType::Range { start: s2, end: e2 }
            && start == s2 && end == e2),
        a matches ValidationType::Calculation(s) ==> (b matches ValidationType::Calculation(t) && s@ == t@),
        a matches ValidationType::MaxChars(n) ==> (b matches ValidationType::MaxChars(m) && n == m),
{
}

/// Two auto-entry definitions count as the same only when they are the same
/// kind with the same settings.
pub proof fn lemma_same_auto_entries_agree(a: AutoEntryType, b: AutoEntryType)
    requires
        auto_entry_type_eq(a, b),
    ensures
        (a is NA) == (b is NA),
        (a is LastVisited) == (b is LastVisited),
        a matches AutoEntryType::Serial { next, increment, trigger } ==> (b matches AutoEntryType::Serial {
            next: n2,
            increment: i2,
            trigger: t2,
        } && next == n2 && increment == i2 && trigger == t2),
        a matches AutoEntryType::Lookup { from, to } ==> (b matches AutoEntryType::Lookup { from: f2, to: t2 }
            && from == f2 && to == t2),
        a matches AutoEntryType::Creation(p) ==> (b matches AutoEntryType::Creation(q) && p == q),
        a matches AutoEntryType::Modification(p) ==> (b matches AutoEntryType::Modification(q) && p == q),
        a matches AutoEntryType::Data(s) ==> (b matches AutoEntryType::Data(t) && s@ == t@),
        a matches AutoEntryType::Calculation { code, noreplace } ==> (b matches AutoEntryType::Calculation {
            code: c2,
            noreplace: n2,
        } && code@ == c2@ && noreplace == n2),
{
}

/// Two table occurrences count as the same only when they agree in id,
/// name, base table and authors.
pub proof fn lemma_same_occurrences_agree(a: TableOccurrence, b: TableOccurrence)
    requires
        occurrence_eq(a, b),
    ensures
        a.id == b.id,
        a.name@ == b.name@,
        a.base_table == b.base_table,
        a.created_by@ == b.created_by@,
        a.modified_by@ == b.modified_by@,
{
}

/// A table reported unmodified has, in both schemas, an entry under one key
/// holding that id, and the two tables are the same.
pub proof fn lemma_unmodified_table(o: Map<usize, Table>, u: Map<usize, Table>, r: Map<usize, DBObjectStatus>, id: usize)
    requires
        table_diff_by_id(o, u, r),
        r.contains_key(id),
        r[id] == DBObjectStatus::Unmodified,
    ensures
        exists|k: usize|
            #![trigger o.contains_key(k), u.contains_key(k)]
            o.contains_key(k) && u.contains_key(k) && o[k].id == id && u[k].id == id && table_eq(o[k], u[k]),
{
    assert(table_status_ok(o, u, id, r[id]));
    let (ko, ku) = choose|ko: usize, ku: usize|
        #[trigger] o.contains_key(ko) && #[trigger] u.contains_key(ku) && o[ko].id == id && u[ku].id == id && ((
        ko == ku && table_eq(o[ko], u[ku])) == true);
    assert(o.contains_key(ko) && u.contains_key(ko));
}

/// An occurrence reported unmodified has, in both schemas, an entry under one
/// key holding that id, and the two occurrences are the same.
pub proof fn lemma_unmodified_occurrence(
    o: Map<usize, TableOccurrence>,
    u: Map<usize, TableOccurrence>,
    r: Map<usize, DBObjectStatus>,
    id: usize,
)
    requires
        occurrence_diff_by_id(o, u, r),
        r.contains_key(id),
        r[id] == DBObjectStatus::Unmodified,
    ensures
        exists|k: usize|
            #![trigger o.contains_key(k), u.contains_key(k)]
            o.contains_key(k) && u.contains_key(k) && o[k].id == id && u[k].id == id && occurrence_eq(o[k], u[k]),
{
    assert(occurrence_status_ok(o, u, id, r[id]));
    let (ko, ku) = choose|ko: usize, ku: usize|
        #[trigger] o.contains_key(ko) && #[trigger] u.contains_key(ku) && o[ko].id == id && u[ku].id == id && ((
        ko == ku && occurrence_eq(o[ko], u[ku])) == true);
    assert(o.contains_key(ko) && u.contains_key(ko));
}

} // verus!
