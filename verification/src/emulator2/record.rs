//! A record: a value for each field name.

use vstd::prelude::*;

verus! {

/// A record with its id and its field values, one entry per field name (the
/// first entry for a name is the one that counts).
#[derive(Clone, Debug)]
pub struct Record {
    id: usize,
    fields: Vec<(String, String)>,
}

/// The values that a list of entries gives each field name: the first entry
/// for a name wins.
pub open spec fn entries_map(s: Seq<(String, String)>) -> Map<Seq<char>, Seq<char>>
    decreases s.len(),
{
    if s.len() == 0 {
        Map::empty()
    } else {
        entries_map(s.drop_first()).insert(s[0].0@, s[0].1@)
    }
}

/// The position of the first entry for `name`.
pub open spec fn first_entry(s: Seq<(String, String)>, name: Seq<char>) -> Option<int>
    decreases s.len(),
{
    if s.len() == 0 {
        None
    } else if s[0].0@ == name {
        Some(0)
    } else {
        match first_entry(s.drop_first(), name) {
            Some(i) => Some(i + 1),
            None => None,
        }
    }
}

pub proof fn lemma_first_entry(s: Seq<(String, String)>, name: Seq<char>)
    ensures
        first_entry(s, name) matches Some(i) ==> 0 <= i < s.len() && s[i].0@ == name && entries_map(s).contains_key(
            name,
        ) && entries_map(s)[name] == s[i].1@ && forall|j: int| 0 <= j < i ==> (#[trigger] s[j]).0@ != name,
        first_entry(s, name) is None ==> !entries_map(s).contains_key(name) && forall|j: int|
            0 <= j < s.len() ==> (#[trigger] s[j]).0@ != name,
    decreases s.len(),
{
    if s.len() > 0 {
        let d = s.drop_first();
        lemma_first_entry(d, name);
        if s[0].0@ != name {
            match first_entry(d, name) {
                Some(i) => {
                    assert(s[i + 1] == d[i]);
                    assert forall|j: int| 0 <= j < i + 1 implies (#[trigger] s[j]).0@ != name by {
                        if j > 0 {
                            assert(s[j] == d[j - 1]);
                        }
                    }
                },
                None => {
                    assert forall|j: int| 0 <= j < s.len() implies (#[trigger] s[j]).0@ != name by {
                        if j > 0 {
                            assert(s[j] == d[j - 1]);
                        }
                    }
                },
            }
        }
    }
}

pub proof fn lemma_update_first_entry(s: Seq<(String, String)>, name: Seq<char>, v: String)
    requires
        first_entry(s, name) is Some,
    ensures
        entries_map(s.update(first_entry(s, name)->0, (s[first_entry(s, name)->0].0, v))) == entries_map(s).insert(
            name,
            v@,
        ),
    decreases s.len(),
{
    lemma_first_entry(s, name);
    let i = first_entry(s, name)->0;
    let s2 = s.update(i, (s[i].0, v));
    if i == 0 {
        assert(s2.drop_first() =~= s.drop_first());
        assert(entries_map(s2) =~= entries_map(s).insert(name, v@));
    } else {
        let d = s.drop_first();
        assert(first_entry(d, name) == Some(i - 1));
        lemma_first_entry(d, name);
        lemma_update_first_entry(d, name, v);
        assert(s2[0] == s[0]);
        assert(d.update(i - 1, (d[i - 1].0, v)) =~= s2.drop_first());
        assert(entries_map(s2) =~= entries_map(s).insert(name, v@));
    }
}

/// Appending an entry for a name that has none adds that name.
pub proof fn lemma_push_new_entry(s: Seq<(String, String)>, e: (String, String))
    requires
        !entries_map(s).contains_key(e.0@),
    ensures
        entries_map(s.push(e)) == entries_map(s).insert(e.0@, e.1@),
    decreases s.len(),
{
    if s.len() == 0 {
        assert(s.push(e).drop_first() =~= Seq::<(String, String)>::empty());
        assert(s.push(e)[0] == e);
        assert(entries_map(s.push(e).drop_first()) == Map::<Seq<char>, Seq<char>>::empty());
        assert(entries_map(s) == Map::<Seq<char>, Seq<char>>::empty());
        assert(entries_map(s.push(e)) =~= entries_map(s).insert(e.0@, e.1@));
    } else {
        let d = s.drop_first();
        assert(s.push(e).drop_first() =~= d.push(e));
        assert(!entries_map(d).contains_key(e.0@)) by {
            if entries_map(d).contains_key(e.0@) {
                assert(entries_map(s).contains_key(e.0@));
            }
        }
        lemma_push_new_entry(d, e);
        assert(s.push(e)[0] == s[0]);
        assert(entries_map(s.push(e)) =~= entries_map(s).insert(e.0@, e.1@));
    }
}

/// The entries for the names of `names`, each with an empty value.
pub open spec fn blank_entries(names: Seq<String>) -> Map<Seq<char>, Seq<char>> {
    Map::new(|k: Seq<char>| exists|i: int| 0 <= i < names.len() && names[i]@ == k, |k: Seq<char>| Seq::empty())
}

impl Record {
    /// The record's id.
    pub closed spec fn id(&self) -> usize {
        self.id
    }

    /// The record's value for each field name.
    pub closed spec fn values(&self) -> Map<Seq<char>, Seq<char>> {
        entries_map(self.fields@)
    }

    /// A record with the given id and an empty value for each name of
    /// `fields_`.
    pub fn new(id_: usize, fields_: &Vec<String>) -> (r: Self)
        ensures
            r.id() == id_,
            r.values() == blank_entries(fields_@),
    {
        let mut fields: Vec<(String, String)> = Vec::new();
        let mut i: usize = 0;
        while i < fields_.len()
            invariant
                i <= fields_@.len(),
                fields@.len() == i,
                forall|j: int| 0 <= j < i ==> (#[trigger] fields@[j]).0 == fields_@[j] && fields@[j].1@ == Seq::<char>::empty(),
            decreases fields_.len() - i,
        {
            fields.push((fields_[i].clone(), String::new()));
            i = i + 1;
        }
        let r = Record { id: id_, fields };
        proof {
            lemma_blank(fields@, fields_@);
        }
        r
    }

    /// Sets the value of `fieldname`; a name the record does not have is
    /// ignored.
    pub fn set_field(&mut self, fieldname: &str, value: &str)
        ensures
            final(self).id() == old(self).id(),
            final(self).values() == if old(self).values().contains_key(fieldname@) {
                old(self).values().insert(fieldname@, value@)
            } else {
                old(self).values()
            },
    {
        proof {
            lemma_first_entry(self.fields@, fieldname@);
        }
        match self.find(fieldname) {
            Some(i) => {
                let (name, _) = self.fields.remove(i);
                let v = value.to_owned();
                self.fields.insert(i, (name, v));
                proof {
                    assert(self.fields@ =~= old(self).fields@.update(i as int, (old(self).fields@[i as int].0, v)));
                    lemma_update_first_entry(old(self).fields@, fieldname@, v);
                }
            },
            None => {},
        }
    }

    /// The value of `fieldname`, if the record has that field.
    pub fn get_field(&self, fieldname: &str) -> (r: Option<String>)
        ensures
            match r {
                Some(v) => self.values().contains_key(fieldname@) && v@ == self.values()[fieldname@],
                None => !self.values().contains_key(fieldname@),
            },
    {
        proof {
            lemma_first_entry(self.fields@, fieldname@);
        }
        match self.find(fieldname) {
            Some(i) => Some(self.fields[i].1.clone()),
            None => None,
        }
    }

    fn find(&self, fieldname: &str) -> (r: Option<usize>)
        ensures
            match r {
                Some(i) => first_entry(self.fields@, fieldname@) == Some(i as int),
                None => first_entry(self.fields@, fieldname@) is None,
            },
    {
        let target = fieldname.to_owned();
        let mut i: usize = 0;
        proof {
            lemma_first_entry(self.fields@, fieldname@);
        }
        while i < self.fields.len()
            invariant
                i <= self.fields@.len(),
                target@ == fieldname@,
                forall|j: int| 0 <= j < i ==> (#[trigger] self.fields@[j]).0@ != fieldname@,
                first_entry(self.fields@, fieldname@) matches Some(k) ==> 0 <= k < self.fields@.len()
                    && self.fields@[k].0@ == fieldname@ && forall|j: int|
                    0 <= j < k ==> (#[trigger] self.fields@[j]).0@ != fieldname@,
                first_entry(self.fields@, fieldname@) is None ==> forall|j: int|
                    0 <= j < self.fields@.len() ==> (#[trigger] self.fields@[j]).0@ != fieldname@,
            decreases self.fields.len() - i,
        {
            if self.fields[i].0 == target {
                return Some(i);
            }
            i = i + 1;
        }
        None
    }
}

proof fn lemma_blank(fields: Seq<(String, String)>, names: Seq<String>)
    requires
        fields.len() == names.len(),
        forall|j: int| 0 <= j < fields.len() ==> (#[trigger] fields[j]).0 == names[j] && fields[j].1@ == Seq::<char>::empty(),
    ensures
        entries_map(fields) == blank_entries(names),
    decreases fields.len(),
{
    if fields.len() > 0 {
        let d = fields.drop_first();
        let dn = names.drop_first();
        assert forall|j: int| 0 <= j < d.len() implies (#[trigger] d[j]).0 == dn[j] && d[j].1@ == Seq::<char>::empty() by {
            assert(d[j] == fields[j + 1]);
        }
        lemma_blank(d, dn);
        assert forall|k: Seq<char>| #[trigger] blank_entries(names).contains_key(k) <==> entries_map(fields).contains_key(k) by {
            if blank_entries(names).contains_key(k) {
                let i = choose|i: int| 0 <= i < names.len() && names[i]@ == k;
                if i > 0 {
                    assert(dn[i - 1] == names[i]);
                    assert(blank_entries(dn).contains_key(k));
                }
            }
            if entries_map(fields).contains_key(k) && k != fields[0].0@ {
                assert(blank_entries(dn).contains_key(k));
                let i = choose|i: int| 0 <= i < dn.len() && dn[i]@ == k;
                assert(names[i + 1] == dn[i]);
            }
        }
        assert(entries_map(fields) =~= blank_entries(names));
    } else {
        assert(entries_map(fields) =~= blank_entries(names));
    }
}

/// Reading a field after setting it gives the value set when the record has
/// that field; a field it lacks stays absent; the other fields keep their
/// values.
pub proof fn lemma_get_after_set_field(
    before: Map<Seq<char>, Seq<char>>,
    after: Map<Seq<char>, Seq<char>>,
    name: Seq<char>,
    value: Seq<char>,
    other: Seq<char>,
)
    requires
        after == (if before.contains_key(name) { before.insert(name, value) } else { before }),
        other != name,
    ensures
        after.contains_key(name) == before.contains_key(name),
        before.contains_key(name) ==> after[name] == value,
        after.contains_key(other) == before.contains_key(other),
        before.contains_key(other) ==> after[other] == before[other],
{
}

} // verus!
