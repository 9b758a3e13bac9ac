//! Views: the chunks of the B+tree that lie under one key.

use vstd::prelude::*;
use vstd::view::View as ViewOf;
use super::chunk::{ContentsView, LocalChunk, LocalChunkContents};
use super::path::{drop_last_component, path_order, paths_equal, HBAMPath};

verus! {

/// The chunks found under a key, copied out of their pages.
pub struct View {
    pub path: HBAMPath,
    pub chunks: Vec<LocalChunk>,
}

/// A selection of the chunks of a view that lie under one directory.
pub struct SubView<'a> {
    pub path: HBAMPath,
    pub chunks: Vec<&'a LocalChunk>,
}

/// The two kinds of keys a directory maps values under.
pub enum KeyType {
    Simple(u16),
    Long(Vec<u8>),
}

/// The directory after a chunk: a push adds its key, a pop removes the last
/// component, any other chunk leaves the directory as it is.
pub open spec fn apply_chunk(cur: Seq<Seq<u8>>, c: ContentsView) -> Seq<Seq<u8>> {
    match c {
        ContentsView::Push { key } => cur.push(key),
        ContentsView::Pop => drop_last_component(cur),
        _ => cur,
    }
}

/// The data of the first simple reference with key `search` among `chunks`.
pub open spec fn first_simple_ref(chunks: Seq<ContentsView>, search: u16) -> Option<Seq<u8>>
    decreases chunks.len(),
{
    if chunks.len() == 0 {
        None
    } else {
        match chunks[0] {
            ContentsView::SimpleRef { key, data } if key == search => Some(data),
            _ => first_simple_ref(chunks.drop_first(), search),
        }
    }
}

/// The positions of the chunks that `get_dir` collects, scanning from
/// position `i` in directory `cur` with the positions `acc` collected so
/// far: each chunk first moves the directory; once the directory sorts
/// after `search` the scan stops (giving `None` when nothing was collected);
/// a chunk whose directory equals `search` is collected; a scan that runs
/// off the end gives `None`.
pub open spec fn dir_scan(
    cur: Seq<Seq<u8>>,
    chunks: Seq<ContentsView>,
    search: Seq<Seq<u8>>,
    i: int,
    acc: Seq<int>,
) -> Option<Seq<int>>
    decreases chunks.len() - i,
{
    if i < 0 || i >= chunks.len() {
        None
    } else {
        let next = apply_chunk(cur, chunks[i]);
        if path_order(next, search) == 1 {
            if acc.len() == 0 {
                None
            } else {
                Some(acc)
            }
        } else {
            dir_scan(next, chunks, search, i + 1, if paths_equal(next, search) { acc.push(i) } else { acc })
        }
    }
}

/// The contents of the chunks of a view, in order.
pub open spec fn contents_of(chunks: Seq<LocalChunk>) -> Seq<ContentsView> {
    chunks.map_values(|c: LocalChunk| c.contents@)
}

/// The directory reached from `start` after the first `n` of `chunks`.
pub open spec fn dir_after(start: Seq<Seq<u8>>, chunks: Seq<ContentsView>, n: nat) -> Seq<Seq<u8>>
    decreases n,
{
    if n == 0 {
        start
    } else {
        apply_chunk(dir_after(start, chunks, (n - 1) as nat), chunks[n - 1])
    }
}

/// The directory after each chunk of `chunks`, walking from `start`: the
/// entry for a chunk is the directory once that chunk moved it.
pub fn chunk_paths(start: &HBAMPath, chunks: &Vec<LocalChunk>) -> (r: Vec<HBAMPath>)
    ensures
        r@.len() == chunks@.len(),
        forall|i: int| 0 <= i < r@.len() ==> (#[trigger] r@[i])@ == dir_after(start@, contents_of(chunks@), (i + 1) as nat),
{
    let ghost cs = contents_of(chunks@);
    let mut cur = start.copy();
    let mut out: Vec<HBAMPath> = Vec::new();
    let mut i: usize = 0;
    while i < chunks.len()
        invariant
            i <= chunks@.len(),
            cs == contents_of(chunks@),
            cur@ == dir_after(start@, cs, i as nat),
            out@.len() == i,
            forall|j: int| 0 <= j < i ==> (#[trigger] out@[j])@ == dir_after(start@, cs, (j + 1) as nat),
        decreases chunks.len() - i,
    {
        assert(cs[i as int] == chunks@[i as int].contents@);
        match &chunks[i].contents {
            LocalChunkContents::Push { key } => {
                cur.push_component(vstd::slice::slice_to_vec(key.as_slice()));
            },
            LocalChunkContents::Pop => {
                cur.pop_component();
            },
            _ => {},
        }
        out.push(cur.copy());
        i = i + 1;
    }
    out
}

fn find_simple_ref(chunks: &Vec<LocalChunk>, search: u16) -> (r: Option<&[u8]>)
    ensures
        match r {
            Some(d) => first_simple_ref(contents_of(chunks@), search) == Some(d@),
            None => first_simple_ref(contents_of(chunks@), search) is None,
        },
{
    let ghost cs = contents_of(chunks@);
    assert(cs.subrange(0, cs.len() as int) =~= cs);
    let mut i: usize = 0;
    while i < chunks.len()
        invariant
            i <= chunks@.len(),
            cs == contents_of(chunks@),
            first_simple_ref(cs, search) == first_simple_ref(cs.subrange(i as int, cs.len() as int), search),
        decreases chunks.len() - i,
    {
        let ghost rest = cs.subrange(i as int, cs.len() as int);
        assert(rest.drop_first() =~= cs.subrange(i + 1, cs.len() as int));
        assert(rest[0] == chunks@[i as int].contents@);
        match &chunks[i].contents {
            LocalChunkContents::SimpleRef { key, data } => {
                if search == *key {
                    return Some(data.as_slice());
                }
            },
            _ => {},
        }
        i = i + 1;
    }
    None
}

impl<'a> SubView<'a> {
    pub fn new(path_: HBAMPath, chunks_: Vec<&'a LocalChunk>) -> (r: Self)
        ensures
            r.path == path_,
            r.chunks == chunks_,
    {
        SubView { path: path_, chunks: chunks_ }
    }

    /// The data of the first simple reference with key `search`.
    pub fn get_value(&self, search: u16) -> (r: Option<&[u8]>)
        ensures
            match r {
                Some(d) => first_simple_ref(self.chunks@.map_values(|c: &LocalChunk| c.contents@), search) == Some(d@),
                None => first_simple_ref(self.chunks@.map_values(|c: &LocalChunk| c.contents@), search) is None,
            },
    {
        let ghost cs = self.chunks@.map_values(|c: &LocalChunk| c.contents@);
        assert(cs.subrange(0, cs.len() as int) =~= cs);
        let mut i: usize = 0;
        while i < self.chunks.len()
            invariant
                i <= self.chunks@.len(),
                cs == self.chunks@.map_values(|c: &LocalChunk| c.contents@),
                first_simple_ref(cs, search) == first_simple_ref(cs.subrange(i as int, cs.len() as int), search),
            decreases self.chunks.len() - i,
        {
            let ghost rest = cs.subrange(i as int, cs.len() as int);
            assert(rest.drop_first() =~= cs.subrange(i + 1, cs.len() as int));
            assert(rest[0] == self.chunks@[i as int].contents@);
            let c: &LocalChunk = self.chunks[i];
            match &c.contents {
                LocalChunkContents::SimpleRef { key, data } => {
                    if search == *key {
                        return Some(data.as_slice());
                    }
                },
                _ => {},
            }
            i = i + 1;
        }
        None
    }
}

impl View {
    pub fn new(path_: HBAMPath, chunks_: Vec<LocalChunk>) -> (r: Self)
        ensures
            r.path == path_,
            r.chunks == chunks_,
    {
        View { path: path_, chunks: chunks_ }
    }

    /// The data of the first simple reference with key `search`.
    pub fn get_value(&self, search: u16) -> (r: Option<&[u8]>)
        ensures
            match r {
                Some(d) => first_simple_ref(contents_of(self.chunks@), search) == Some(d@),
                None => first_simple_ref(contents_of(self.chunks@), search) is None,
            },
    {
        find_simple_ref(&self.chunks, search)
    }

    /// The chunks of this view that lie in directory `search` (see
    /// `dir_scan`), starting from the view's own path.
    pub fn get_dir<'b>(&'b self, search: HBAMPath) -> (r: Option<SubView<'b>>)
        ensures
            match dir_scan(self.path@, contents_of(self.chunks@), search@, 0, Seq::empty()) {
                Some(idx) => r matches Some(sv) && sv.path@ == search@ && sv.chunks@.len() == idx.len()
                    && forall|k: int| 0 <= k < idx.len() ==> *#[trigger] sv.chunks@[k] == self.chunks@[idx[k]],
                None => r is None,
            },
    {
        let ghost cs = contents_of(self.chunks@);
        let mut current_dir = self.path.copy();
        let mut result_chunks: Vec<&'b LocalChunk> = Vec::new();
        let ghost mut acc: Seq<int> = Seq::empty();
        let mut i: usize = 0;
        while i < self.chunks.len()
            invariant
                i <= self.chunks@.len(),
                cs == contents_of(self.chunks@),
                dir_scan(self.path@, cs, search@, 0, Seq::empty()) == dir_scan(current_dir@, cs, search@, i as int, acc),
                result_chunks@.len() == acc.len(),
                forall|k: int| 0 <= k < acc.len() ==> 0 <= #[trigger] acc[k] < self.chunks@.len()
                    && *result_chunks@[k] == self.chunks@[acc[k]],
            decreases self.chunks.len() - i,
        {
            let chunk: &'b LocalChunk = &self.chunks[i];
            assert(cs[i as int] == chunk.contents@);
            match &chunk.contents {
                LocalChunkContents::Push { key } => {
                    current_dir.push_component(vstd::slice::slice_to_vec(key.as_slice()));
                },
                LocalChunkContents::Pop => {
                    current_dir.pop_component();
                },
                _ => {},
            }
            
            if current_dir.order(&search) == 1 {
                if result_chunks.len() == 0 {
                    return None;
                } else {
                    return Some(SubView::new(search, result_chunks));
                }
            }
            if current_dir.equals(&search) {
                result_chunks.push(chunk);
                proof {
                    acc = acc.push(i as int);
                }
            }
            i = i + 1;
        }
        None
    }
}

} // verus!
