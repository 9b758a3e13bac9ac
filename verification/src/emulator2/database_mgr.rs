//! The open databases of the second emulator, by file name.

use vstd::prelude::*;
use super::data_source::{DataSource, DataSourceType};
use super::database::Database;
use crate::emulator::database::{first_named, lemma_first_named, lemma_none_first_named, lemma_prefix_first_named};

verus! {

/// The open databases, each under its file name; no name occurs twice.
pub struct DatabaseMgr {
    pub databases: Vec<(String, Database)>,
}

/// The file names of the open databases.
pub open spec fn db_names(dbs: Seq<(String, Database)>) -> Seq<Seq<char>> {
    dbs.map_values(|e: (String, Database)| e.0@)
}

/// The position of the database opened under `name`.
pub open spec fn db_index(dbs: Seq<(String, Database)>, name: Seq<char>) -> Option<int> {
    first_named(db_names(dbs), name)
}

impl DatabaseMgr {
    /// The store's invariant: no file name occurs twice.
    pub open spec fn wf(&self) -> bool {
        db_names(self.databases@).no_duplicates()
    }

    /// No open databases.
    pub fn new() -> (r: Self)
        ensures
            r.wf(),
            r.databases@ == Seq::<(String, Database)>::empty(),
    {
        let r = DatabaseMgr { databases: Vec::new() };
        assert(db_names(r.databases@) =~= Seq::<Seq<char>>::empty());
        r
    }

    fn find(&self, name: &String) -> (r: Option<usize>)
        requires
            self.wf(),
        ensures
            match r {
                Some(i) => i < self.databases@.len() && self.databases@[i as int].0@ == name@ && db_index(
                    self.databases@,
                    name@,
                ) == Some(i as int),
                None => db_index(self.databases@, name@) is None,
            },
    {
        let ghost ns = db_names(self.databases@);
        let mut i: usize = 0;
        while i < self.databases.len()
            invariant
                i <= self.databases@.len(),
                ns == db_names(self.databases@),
                forall|j: int| 0 <= j < i ==> ns[j] != name@,
            decreases self.databases.len() - i,
        {
            if self.databases[i].0 == *name {
                proof {
                    lemma_prefix_first_named(ns, name@, i as int);
                }
                return Some(i);
            }
            i = i + 1;
        }
        proof {
            lemma_none_first_named(ns, name@);
        }
        None
    }

    /// Adds a record to table `table_id` of the database opened under
    /// `file`. The record is built by the table and not stored, so nothing
    /// changes.
    pub fn add_record(&mut self, file: String, table_id: usize)
        requires
            old(self).wf(),
            db_index(old(self).databases@, file@) matches Some(i) && exists|t: int|
                0 <= t < old(self).databases@[i].1.tables@.len() && (#[trigger] old(self).databases@[i].1.tables@[t]).id
                    == table_id,
        ensures
            *final(self) == *old(self),
    {
        let i = self.find(&file).unwrap();
        let db = &self.databases[i].1;
        let mut t: usize = 0;
        while t < db.tables.len()
            invariant
                t <= db.tables@.len(),
                exists|k: int| t <= k < db.tables@.len() && (#[trigger] db.tables@[k]).id == table_id,
            decreases db.tables.len() - t,
        {
            if db.tables[t].id == table_id {
                let mut table = db.tables[t].clone();
                table.new_record();
                return ;
            }
            t = t + 1;
        }
    }

    /// Opens an empty database under the file name of `source`, replacing
    /// one opened under that name before.
    pub fn load_data_source(&mut self, source: &DataSource)
        requires
            old(self).wf(),
            source.dstype != DataSourceType::ODBC,
        ensures
            final(self).wf(),
            ({
                let d = final(self).databases@;
                match db_index(old(self).databases@, source.filename@) {
                    Some(i) => d.len() == old(self).databases@.len() && d[i].0@ == source.filename@ && (forall|j: int|
                        0 <= j < d.len() && j != i ==> #[trigger] d[j] == old(self).databases@[j]),
                    None => d.len() == old(self).databases@.len() + 1 && d.drop_last() == old(self).databases@
                        && d.last().0@ == source.filename@,
                }
            }),
            ({
                let d = final(self).databases@;
                let i = db_index(d, source.filename@)->0;
                &&& db_index(d, source.filename@) is Some
                &&& d[i].1.tables@.len() == 0
                &&& d[i].1.table_occurrences@.len() == 0
                &&& d[i].1.layouts@.len() == 0
                &&& d[i].1.scripts@.len() == 0
                &&& d[i].1.external_sources@.len() == 0
                &&& d[i].1.name@.len() == 0
                &&& d[i].1.filename@.len() == 0
            }),
    {
        let tmp_db = Database::new();
        let name = source.filename.clone();
        match self.find(&name) {
            Some(i) => {
                let _ = self.databases.remove(i);
                self.databases.insert(i, (name, tmp_db));
                proof {
                    assert(db_names(self.databases@) =~= db_names(old(self).databases@));
                    lemma_first_named(db_names(self.databases@), source.filename@);
                }
            },
            None => {
                self.databases.push((name, tmp_db));
                proof {
                    let ns = db_names(self.databases@);
                    assert(ns =~= db_names(old(self).databases@).push(source.filename@));
                    assert(self.databases@.drop_last() =~= old(self).databases@);
                    lemma_first_named(db_names(old(self).databases@), source.filename@);
                    assert(ns.drop_last() =~= db_names(old(self).databases@));
                    assert(first_named(ns, source.filename@) == Some(ns.len() - 1));
                }
            },
        }
    }
}

} // verus!
