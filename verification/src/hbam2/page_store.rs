//! An in-memory cache of pages, keyed by file name and page number.

use std::collections::HashMap;
use std::sync::Arc;
use vstd::prelude::*;
use super::page::Page;

verus! {

broadcast use vstd::std_specs::hash::group_hash_axioms;

pub type FileIndex = u8;
pub type PageIndex = u64;

/// Pages cached per file. Each file name gets a file index when its first
/// page is stored: the number of names seen so far, cut to a byte, so that
/// the 257th file shares the index of the first.
pub struct PageStore {
    file_map: Vec<String>,
    store: Vec<HashMap<u64, Page>>,
}

/// `after` is `before` once `put` stored `page` as page `index` of `file`:
/// the file is known (added at the end when new), and the page is stored
/// under the file's index unless a page was stored there already.
pub open spec fn stored(before: PageStore, after: PageStore, file: Seq<char>, index: u64, page: Page) -> bool {
    &&& after.files() == (if first_index(before.files(), file) is None {
        before.files().push(file)
    } else {
        before.files()
    })
    &&& after.file_slot(file) is Some
    &&& forall|s: int, p: u64|
        #![trigger after.slot_page(s, p)]
        after.slot_page(s, p) == (if Some(s) == after.file_slot(file) && p == index && before.slot_page(s, p) is None {
            Some(page)
        } else {
            before.slot_page(s, p)
        })
}

/// `s2` holds every page of `file` that `s1` holds, unchanged.
pub open spec fn holds_pages_of(s1: PageStore, s2: PageStore, file: Seq<char>) -> bool {
    forall|n: u64| #[trigger] s1.cached(file, n) is Some ==> s2.cached(file, n) == s1.cached(file, n)
}

/// The position of the first occurrence of `f` in `names`.
pub open spec fn first_index(names: Seq<Seq<char>>, f: Seq<char>) -> Option<int>
    decreases names.len(),
{
    if names.len() == 0 {
        None
    } else {
        match first_index(names.drop_last(), f) {
            Some(i) => Some(i),
            None => if names.last() == f { Some(names.len() - 1) } else { None },
        }
    }
}

impl PageStore {
    /// The names of the files seen, in the order their first page came in.
    pub closed spec fn files(&self) -> Seq<Seq<char>> {
        self.file_map@.map_values(|s: String| s@)
    }

    /// The file index of a file, if any of its pages were stored.
    pub open spec fn file_slot(&self, file: Seq<char>) -> Option<int> {
        match first_index(self.files(), file) {
            Some(i) => Some(i % 256),
            None => None,
        }
    }

    /// The page stored under a file index and page number.
    pub closed spec fn slot_page(&self, slot: int, page: u64) -> Option<Page> {
        if 0 <= slot < self.store@.len() && self.store@[slot]@.contains_key(page) {
            Some(self.store@[slot]@[page])
        } else {
            None
        }
    }

    /// The page stored for a file and page number.
    pub open spec fn cached(&self, file: Seq<char>, page: u64) -> Option<Page> {
        match self.file_slot(file) {
            Some(s) => self.slot_page(s, page),
            None => None,
        }
    }

    /// The page numbers stored for a file.
    pub open spec fn page_numbers(&self, file: Seq<char>) -> Set<u64> {
        Set::new(|p: u64| self.cached(file, p) is Some)
    }

    /// Only finitely many pages are stored for a file.
    pub proof fn lemma_page_numbers_finite(&self, file: Seq<char>)
        ensures
            self.page_numbers(file).finite(),
    {
        match self.file_slot(file) {
            Some(s) => {
                if 0 <= s < self.store@.len() {
                    let d = self.store@[s]@.dom();
                    assert(self.page_numbers(file) =~= d.intersect(self.page_numbers(file)));
                } else {
                    assert(self.page_numbers(file) =~= Set::empty());
                }
            },
            None => {
                assert(self.page_numbers(file) =~= Set::empty());
            },
        }
    }

    pub closed spec fn wf(&self) -> bool {
        &&& self.store@.len() == if self.file_map@.len() < 256 { self.file_map@.len() as int } else { 256 }
    }

    /// An empty store.
    pub fn new() -> (r: Self)
        ensures
            r.wf(),
            r.files() == Seq::<Seq<char>>::empty(),
            forall|s: int, p: u64| r.slot_page(s, p) is None,
    {
        let r = PageStore { file_map: Vec::new(), store: Vec::new() };
        assert(r.files() =~= Seq::<Seq<char>>::empty());
        r
    }

    fn find_file(&self, file: &String) -> (r: Option<usize>)
        ensures
            match r {
                Some(i) => first_index(self.files(), file@) == Some(i as int),
                None => first_index(self.files(), file@) is None,
            },
    {
        let mut i: usize = 0;
        while i < self.file_map.len()
            invariant
                i <= self.file_map@.len(),
                first_index(self.files().subrange(0, i as int), file@) is None,
            decreases self.file_map.len() - i,
        {
            assert(self.files().subrange(0, i as int + 1).drop_last() =~= self.files().subrange(0, i as int));
            if self.file_map[i] == *file {
                proof {
                    lemma_first_index_prefix(self.files(), file@, i as int + 1);
                }
                return Some(i);
            }
            i = i + 1;
        }
        assert(self.files().subrange(0, i as int) =~= self.files());
        None
    }

    /// The page stored for `file` and `page`.
    pub fn get(&self, file: String, page: PageIndex) -> (r: Option<Arc<Page>>)
        requires
            self.wf(),
        ensures
            match r {
                Some(p) => self.cached(file@, page) == Some(*p),
                None => self.cached(file@, page) is None,
            },
    {
        match self.find_file(&file) {
            Some(i) => {
                proof {
                    lemma_first_index_bound(self.files(), file@);
                }
                let slot = i % 256;
                match self.store[slot].get(&page) {
                    Some(p) => Some(Arc::new(*p)),
                    None => None,
                }
            },
            None => None,
        }
    }

    /// The root page of `file` (page 1).
    pub fn get_root(&self, file: String) -> (r: Option<Arc<Page>>)
        requires
            self.wf(),
        ensures
            match r {
                Some(p) => self.cached(file@, 1) == Some(*p),
                None => self.cached(file@, 1) is None,
            },
    {
        self.get(file, 1)
    }

    /// Stores `page` as page `index` of `file`, unless a page is already
    /// stored under that file index and page number, in which case the store
    /// keeps the page it has. A file seen for the first time gets the next
    /// file index.
    pub fn put(&mut self, file: String, index: u64, page: &Page)
        requires
            old(self).wf(),
        ensures
            final(self).wf(),
            stored(*old(self), *final(self), file@, index, *page),
    {
        let ghost old_files = self.files();
        let slot = match self.find_file(&file) {
            Some(i) => {
                proof {
                    lemma_first_index_bound(self.files(), file@);
                }
                i % 256
            },
            None => {
                let n = self.file_map.len();
                let ghost f = file@;
                self.file_map.push(file);
                if n < 256 {
                    self.store.push(HashMap::new());
                }
                proof {
                    assert(self.files() =~= old_files.push(f));
                    assert(self.files().drop_last() =~= old_files);
                }
                n % 256
            },
        };
        if !self.store[slot].contains_key(&index) {
            let mut m = self.store.remove(slot);
            m.insert(index, *page);
            self.store.insert(slot, m);
        }
    }
}

proof fn lemma_first_index_bound(names: Seq<Seq<char>>, f: Seq<char>)
    ensures
        first_index(names, f) matches Some(i) ==> 0 <= i < names.len() && names[i] == f,
    decreases names.len(),
{
    if names.len() > 0 {
        lemma_first_index_bound(names.drop_last(), f);
    }
}

proof fn lemma_first_index_prefix(names: Seq<Seq<char>>, f: Seq<char>, n: int)
    requires
        0 < n <= names.len(),
        first_index(names.subrange(0, n - 1), f) is None,
        names[n - 1] == f,
    ensures
        first_index(names, f) == Some(n - 1),
    decreases names.len(),
{
    if n == names.len() {
        assert(names.drop_last() =~= names.subrange(0, n - 1));
    } else {
        assert(names.drop_last().subrange(0, n - 1) =~= names.subrange(0, n - 1));
        lemma_first_index_prefix(names.drop_last(), f, n);
    }
}

/// A page stored for a file is read back: once `put` stored `page` as page
/// `index` of `file`, and that file had no such page before (with fewer
/// than 256 files seen, or the file already seen), the store gives `page`
/// for it; every page that was stored before is still given.
pub proof fn lemma_put_then_get(before: PageStore, after: PageStore, file: Seq<char>, index: u64, page: Page, other: Seq<char>, p: u64)
    requires
        before.wf(),
        stored(before, after, file, index, page),
        before.cached(file, index) is None,
        before.files().len() < 256 || first_index(before.files(), file) is Some,
    ensures
        after.cached(file, index) == Some(page),
        before.cached(other, p) is Some ==> after.cached(other, p) == before.cached(other, p),
{
    lemma_first_index_bound(before.files(), file);
    lemma_first_index_bound(after.files(), file);
    if first_index(before.files(), file) is None {
        assert(after.files().subrange(0, after.files().len() - 1) =~= before.files());
        lemma_first_index_prefix(after.files(), file, after.files().len() as int);
        let s = (before.files().len() as int) % 256;
        assert(before.slot_page(s, index) is None) by {
            reveal_store_len(before);
        }
    } else {
        assert(after.files() == before.files());
    }
    if before.cached(other, p) is Some {
        lemma_first_index_bound(before.files(), other);
        lemma_first_index_keep(before.files(), file, other);
    }
}

/// Storing a page keeps every page stored before: after `put`, with fewer
/// than 256 files seen or the file already seen, the store holds each page
/// of each file that it held before.
pub proof fn lemma_put_keeps_pages(before: PageStore, after: PageStore, file: Seq<char>, index: u64, page: Page, other: Seq<char>)
    requires
        before.wf(),
        stored(before, after, file, index, page),
        before.files().len() < 256 || first_index(before.files(), file) is Some,
    ensures
        holds_pages_of(before, after, other),
{
    assert forall|n: u64| #[trigger] before.cached(other, n) is Some implies after.cached(other, n) == before.cached(other, n) by {
        if before.cached(file, index) is None {
            lemma_put_then_get(before, after, file, index, page, other, n);
        } else {
            lemma_first_index_bound(before.files(), file);
            lemma_first_index_bound(before.files(), other);
            assert(after.files() == before.files());
        }
    }
}

proof fn reveal_store_len(st: PageStore)
    requires
        st.wf(),
        st.files().len() < 256,
    ensures
        forall|p: u64| st.slot_page(st.files().len() as int, p) is None,
{
}

/// Adding a name at the end keeps the first position of every name seen
/// before.
proof fn lemma_first_index_keep(names: Seq<Seq<char>>, f: Seq<char>, g: Seq<char>)
    requires
        first_index(names, g) is Some,
    ensures
        first_index(names.push(f), g) == first_index(names, g),
{
    assert(names.push(f).drop_last() =~= names);
}

} // verus!
