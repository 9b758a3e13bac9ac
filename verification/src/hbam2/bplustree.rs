//! Searching the B+tree of an HBAM file: scanning one page for a key,
//! choosing the child of an index page, and walking from the root to the data
//! pages.

use std::collections::HashSet;
use std::sync::Arc;
use vstd::prelude::*;
use vstd::view::View as ViewOf;
use super::api::{Key, KeyValue};
use super::chunk::{
    lemma_parse_progress, parse_chunk, Chunk, ChunkContents, ChunkParse, ContentsView, ParseErr,
};
use super::page::{BlockType, Page, PageHeader};
use super::page_store::{holds_pages_of, PageIndex, PageStore};
use crate::util::encoding_util::{be_int, get_int};
use super::path::{components_order, drop_last_component, path_order, paths_equal, HBAMPath};
use super::view::{apply_chunk, View};
use super::chunk::{chunk_would_panic, ChunkView, LocalChunk};

verus! {

type Offset = usize;

/// Why a search in the B+tree failed.
#[derive(Debug)]
pub enum BPlusTreeErr {
    KeyNotFound(Vec<Vec<u8>>),
    EmptyKey,
    PageNotFound(usize),
    RootNotFound,
    InvalidChunkComposition(ParseErr),
    PageCycle(PageIndex),
}

/// A position in the chunk stream of a page.
pub struct Cursor {
    pub key: Key,
    pub offset: Offset,
}

/// The last component of a key read as a number: one byte, or two bytes
/// big-endian. Other lengths give `None`.
pub open spec fn key_suffix(k: Seq<Seq<u8>>) -> Option<u16> {
    if k.len() == 0 {
        None
    } else if k.last().len() == 1 {
        Some(k.last()[0] as u16)
    } else if k.last().len() == 2 {
        Some((k.last()[0] as int * 256 + k.last()[1] as int) as u16)
    } else {
        None
    }
}

/// The outcome of scanning a page for a key.
pub ghost enum KeySearch {
    Panics,
    Error(ParseErr),
    Found(Seq<u8>),
    NotFound,
}

/// Scanning the page `c` from offset `o` in directory `path` for a simple
/// reference with key `suffix` in directory `dir`. The end-of-chunks marker
/// is stepped over; any other read error ends the scan.
pub open spec fn key_scan(c: Seq<u8>, o: int, path: Seq<Seq<u8>>, dir: Seq<Seq<u8>>, suffix: u16) -> KeySearch
    decreases c.len() - o,
{
    if o < 0 || o >= c.len() {
        KeySearch::NotFound
    } else {
        proof {
            lemma_parse_progress(c, o);
        }
        match parse_chunk(c, o) {
            ChunkParse::Panics => KeySearch::Panics,
            ChunkParse::Fails { err, next } => if err == ParseErr::EndChunk {
                key_scan(c, next, path, dir, suffix)
            } else {
                KeySearch::Error(err)
            },
            ChunkParse::Parses { chunk, next } => match chunk.contents {
                ContentsView::SimpleRef { key, data } => if paths_equal(path, dir) && key == suffix {
                    KeySearch::Found(data)
                } else {
                    key_scan(c, next, path, dir, suffix)
                },
                ContentsView::Push { key } => key_scan(c, next, path.push(key), dir, suffix),
                ContentsView::Pop => key_scan(c, next, drop_last_component(path), dir, suffix),
                _ => key_scan(c, next, path, dir, suffix),
            },
        }
    }
}

/// What `search_key_in_page` gives for a key and a page.
pub open spec fn page_key_search(key: Seq<Seq<u8>>, c: Seq<u8>) -> Option<KeySearch> {
    if key.len() == 0 {
        Some(KeySearch::NotFound)
    } else {
        match key_suffix(key) {
            None => None,
            Some(s) => Some(key_scan(c, 20, Seq::empty(), key.drop_last(), s)),
        }
    }
}

/// The last component of a key names the simple reference searched for: a
/// one-byte component is its value, a two-byte component is read
/// big-endian, and a component of another length names none.
pub proof fn lemma_key_suffix_value(k: Seq<Seq<u8>>)
    requires
        k.len() > 0,
    ensures
        k.last().len() == 1 ==> key_suffix(k) == Some(k.last()[0] as u16),
        k.last().len() == 2 ==> key_suffix(k) == Some(be_int(k.last()) as u16),
        k.last().len() != 1 && k.last().len() != 2 ==> key_suffix(k) is None,
{
    if k.last().len() == 2 {
        crate::util::encoding_util::lemma_be_int_two(k.last());
    }
}

/// A search of a page finds a value only in a simple reference of the page
/// whose key is the number searched for (the key's last component, see
/// `lemma_key_suffix_value`); the value is that reference's data.
pub proof fn lemma_found_reference(
    c: Seq<u8>,
    o: int,
    path: Seq<Seq<u8>>,
    dir: Seq<Seq<u8>>,
    suffix: u16,
    d: Seq<u8>,
)
    requires
        key_scan(c, o, path, dir, suffix) == KeySearch::Found(d),
    ensures
        exists|p: int|
            #![trigger parse_chunk(c, p)]
            o <= p < c.len() && (parse_chunk(c, p) matches ChunkParse::Parses { chunk, .. } && chunk.contents == (
            ContentsView::SimpleRef { key: suffix, data: d })),
    decreases c.len() - o,
{
    lemma_parse_progress(c, o);
    match parse_chunk(c, o) {
        ChunkParse::Fails { err, next } => {
            lemma_found_reference(c, next, path, dir, suffix, d);
        },
        ChunkParse::Parses { chunk, next } => {
            match chunk.contents {
                ContentsView::SimpleRef { key, data } => {
                    if paths_equal(path, dir) && key == suffix {
                        assert(parse_chunk(c, o) matches ChunkParse::Parses { chunk, .. } && chunk.contents == (
                        ContentsView::SimpleRef { key: suffix, data: d }));
                    } else {
                        lemma_found_reference(c, next, path, dir, suffix, d);
                    }
                },
                ContentsView::Push { key } => {
                    lemma_found_reference(c, next, path.push(key), dir, suffix, d);
                },
                ContentsView::Pop => {
                    lemma_found_reference(c, next, drop_last_component(path), dir, suffix, d);
                },
                _ => {
                    lemma_found_reference(c, next, path, dir, suffix, d);
                },
            }
        },
        ChunkParse::Panics => {},
    }
}

fn suffix_of(key: &HBAMPath) -> (r: Option<u16>)
    requires
        key@.len() > 0,
    ensures
        r == key_suffix(key@),
{
    let last = &key.components[key.components.len() - 1];
    proof {
        assert(key@.last() == last@);
    }
    if last.len() == 1 {
        Some(last[0] as u16)
    } else if last.len() == 2 {
        Some((last[0] as u16) * 256 + last[1] as u16)
    } else {
        None
    }
}

/// Searches one page for the value stored under `key`.
pub fn search_key_in_page(key_: &HBAMPath, page_data: &[u8; 4096]) -> (r: Result<Option<KeyValue>, BPlusTreeErr>)
    requires
        !(page_key_search(key_@, page_data@) matches Some(KeySearch::Panics)),
    ensures
        match page_key_search(key_@, page_data@) {
            None => r matches Err(BPlusTreeErr::EmptyKey),
            Some(KeySearch::Found(d)) => r matches Ok(Some(kv)) && kv.key.deep_view() == key_@ && kv.value@ == d,
            Some(KeySearch::Error(e)) => r matches Err(BPlusTreeErr::InvalidChunkComposition(e2)) && e2 == e,
            Some(_) => r matches Ok(None),
        },
{
    match search_key_in_page_checked(key_, page_data) {
        Some(r) => r,
        None => Ok(None),
    }
}

/// `search_key_in_page` on any page: `None` where the search would index
/// out of the page.
pub fn search_key_in_page_checked(key_: &HBAMPath, page_data: &[u8; 4096]) -> (r: Option<Result<Option<KeyValue>, BPlusTreeErr>>)
    ensures
        match page_key_search(key_@, page_data@) {
            None => r matches Some(Err(BPlusTreeErr::EmptyKey)),
            Some(KeySearch::Found(d)) => r matches Some(Ok(Some(kv))) && kv.key.deep_view() == key_@ && kv.value@ == d,
            Some(KeySearch::Error(e)) => r matches Some(Err(BPlusTreeErr::InvalidChunkComposition(e2))) && e2 == e,
            Some(KeySearch::Panics) => r is None,
            Some(KeySearch::NotFound) => r matches Some(Ok(None)),
        },
{
    if key_.components.len() == 0 {
        return Some(Ok(None));
    }
    let mut key_without_suffix = key_.copy();
    key_without_suffix.pop_component();
    let suffix = match suffix_of(key_) {
        Some(s) => s,
        None => return Some(Err(BPlusTreeErr::EmptyKey)),
    };
    let ghost dir = key_@.drop_last();
    let mut path = HBAMPath { components: Vec::new() };
    let mut offset: usize = 20;
    assert(path@ =~= Seq::<Seq<u8>>::empty());
    while offset < page_data.len()
        invariant
            key_without_suffix@ == dir,
            key_@.len() > 0,
            dir == key_@.drop_last(),
            page_key_search(key_@, page_data@) == Some(key_scan(page_data@, offset as int, path@, dir, suffix)),
        decreases page_data@.len() - offset,
    {
        proof {
            lemma_parse_progress(page_data@, offset as int);
        }
        if chunk_would_panic(page_data, offset) {
            return None;
        }
        let chunk = match Chunk::from_bytes(page_data, &mut offset) {
            Ok(inner) => inner,
            Err(ParseErr::EndChunk) => {
                continue;
            },
            Err(e) => {
                return Some(Err(BPlusTreeErr::InvalidChunkComposition(e)));
            },
        };
        match chunk.contents {
            ChunkContents::SimpleRef { key, data } => {
                if path.equals(&key_without_suffix) && key == suffix {
                    let k = key_.copy();
                    return Some(Ok(Some(KeyValue { key: k.components, value: vstd::slice::slice_to_vec(data) })));
                }
            },
            ChunkContents::Push { key } => {
                path.push_component(vstd::slice::slice_to_vec(key));
            },
            ChunkContents::Pop => {
                path.pop_component();
            },
            _ => {},
        }
    }
    Some(Ok(None))
}


/// What listing the chunks of a page gives: the page would make the reader
/// index out of it, or the chunks read, each with the directory it was read
/// in, and whether the listing reached the end of the page (rather than
/// stopping at a read error).
pub ghost enum PageListing {
    Panics,
    Listed { entries: Seq<(Seq<Seq<u8>>, ChunkView)>, complete: bool },
}

/// Listing the chunks of page `c` from offset `o` in directory `path`: each
/// chunk is listed with the directory it is read in, then a push adds its
/// key, a pop removes the last component and a delayed chunk removes one
/// more. The end-of-chunks marker is stepped over; any other read error
/// ends the listing.
pub open spec fn list_scan(c: Seq<u8>, o: int, path: Seq<Seq<u8>>) -> PageListing
    decreases c.len() - o,
{
    if o < 0 || o >= c.len() {
        PageListing::Listed { entries: Seq::empty(), complete: true }
    } else {
        proof {
            lemma_parse_progress(c, o);
        }
        match parse_chunk(c, o) {
            ChunkParse::Panics => PageListing::Panics,
            ChunkParse::Fails { err, next } => if err == ParseErr::EndChunk {
                list_scan(c, next, path)
            } else {
                PageListing::Listed { entries: Seq::empty(), complete: false }
            },
            ChunkParse::Parses { chunk, next } => {
                let moved = apply_chunk(path, chunk.contents);
                let after = if chunk.delayed { drop_last_component(moved) } else { moved };
                prepend(seq![(path, chunk)], list_scan(c, next, after))
            },
        }
    }
}

/// `l` with `entries` listed before its own.
pub open spec fn prepend(entries: Seq<(Seq<Seq<u8>>, ChunkView)>, l: PageListing) -> PageListing {
    match l {
        PageListing::Panics => PageListing::Panics,
        PageListing::Listed { entries: e, complete } => PageListing::Listed { entries: entries + e, complete },
    }
}

/// The directories and chunks of a listing, as values.
pub open spec fn listing_views(v: Seq<(HBAMPath, LocalChunk)>) -> Seq<(Seq<Seq<u8>>, ChunkView)> {
    v.map_values(|e: (HBAMPath, LocalChunk)| (e.0@, e.1@))
}

/// Lists the chunks of a page, each with the directory it lies in, as the
/// tree printer walks them; the flag says whether the end of the page was
/// reached.
pub fn list_page(page_data: &[u8; 4096]) -> (r: (Vec<(HBAMPath, LocalChunk)>, bool))
    requires
        !(list_scan(page_data@, 20, Seq::empty()) is Panics),
    ensures
        list_scan(page_data@, 20, Seq::empty()) == (PageListing::Listed { entries: listing_views(r.0@), complete: r.1 }),
{
    let mut out: Vec<(HBAMPath, LocalChunk)> = Vec::new();
    let mut path = HBAMPath { components: Vec::new() };
    let mut offset: usize = 20;
    let ghost whole = list_scan(page_data@, 20, Seq::empty());
    assert(path@ =~= Seq::<Seq<u8>>::empty());
    assert(listing_views(out@) =~= Seq::<(Seq<Seq<u8>>, ChunkView)>::empty());
    assert(whole == prepend(listing_views(out@), whole)) by {
        if let PageListing::Listed { entries, complete } = whole {
            assert(listing_views(out@) + entries =~= entries);
        }
    }
    while offset < page_data.len()
        invariant
            whole == list_scan(page_data@, 20, Seq::empty()),
            !(whole is Panics),
            whole == prepend(listing_views(out@), list_scan(page_data@, offset as int, path@)),
        decreases page_data@.len() - offset,
    {
        proof {
            lemma_parse_progress(page_data@, offset as int);
        }
        let ghost o = offset as int;
        let ghost p = path@;
        let chunk = match Chunk::from_bytes(page_data, &mut offset) {
            Ok(inner) => inner,
            Err(ParseErr::EndChunk) => {
                continue;
            },
            Err(_) => {
                proof {
                    assert(listing_views(out@) + Seq::<(Seq<Seq<u8>>, ChunkView)>::empty() =~= listing_views(out@));
                }
                return (out, false);
            },
        };
        let here = path.copy();
        match chunk.contents {
            ChunkContents::Push { key } => {
                path.push_component(vstd::slice::slice_to_vec(key));
            },
            ChunkContents::Pop => {
                path.pop_component();
            },
            _ => {},
        }
        if chunk.delayed {
            path.pop_component();
        }
        let ghost before = listing_views(out@);
        let local = chunk.copy_to_local();
        out.push((here, local));
        proof {
            let x = (p, chunk@);
            assert(listing_views(out@) =~= before.push(x));
            let rest = list_scan(page_data@, offset as int, path@);
            if let PageListing::Listed { entries, complete } = rest {
                assert(before + (seq![x] + entries) =~= before.push(x) + entries);
            }
        }
    }
    proof {
        assert(listing_views(out@) + Seq::<(Seq<Seq<u8>>, ChunkView)>::empty() =~= listing_views(out@));
    }
    (out, true)
}

/// Whether listing a page panics does not depend on the directory it starts
/// in.
pub proof fn lemma_list_panics_any_path(c: Seq<u8>, o: int, p: Seq<Seq<u8>>, q: Seq<Seq<u8>>)
    ensures
        (list_scan(c, o, p) is Panics) == (list_scan(c, o, q) is Panics),
    decreases c.len() - o,
{
    if 0 <= o < c.len() {
        lemma_parse_progress(c, o);
        match parse_chunk(c, o) {
            ChunkParse::Fails { err, next } => {
                if err == ParseErr::EndChunk {
                    lemma_list_panics_any_path(c, next, p, q);
                }
            },
            ChunkParse::Parses { chunk, next } => {
                let mp = apply_chunk(p, chunk.contents);
                let ap = if chunk.delayed { drop_last_component(mp) } else { mp };
                let mq = apply_chunk(q, chunk.contents);
                let aq = if chunk.delayed { drop_last_component(mq) } else { mq };
                lemma_list_panics_any_path(c, next, ap, aq);
            },
            ChunkParse::Panics => {},
        }
    }
}

/// Whether listing the page (see `list_page`) would index out of it.
pub fn list_would_panic(page_data: &[u8; 4096]) -> (r: bool)
    ensures
        r == (list_scan(page_data@, 20, Seq::empty()) is Panics),
{
    let ghost c = page_data@;
    let ghost whole = list_scan(c, 20, Seq::empty());
    let mut offset: usize = 20;
    while offset < page_data.len()
        invariant
            c == page_data@,
            whole == list_scan(c, 20, Seq::empty()),
            (whole is Panics) == (list_scan(c, offset as int, Seq::empty()) is Panics),
        decreases page_data@.len() - offset,
    {
        proof {
            lemma_parse_progress(c, offset as int);
        }
        if chunk_would_panic(page_data, offset) {
            return true;
        }
        let ghost o = offset as int;
        match Chunk::from_bytes(page_data, &mut offset) {
            Ok(chunk) => {
                proof {
                    let mp = apply_chunk(Seq::empty(), chunk@.contents);
                    let ap = if chunk@.delayed { drop_last_component(mp) } else { mp };
                    lemma_list_panics_any_path(c, offset as int, ap, Seq::empty());
                }
            },
            Err(ParseErr::EndChunk) => {},
            Err(_) => {
                return false;
            },
        }
    }
    false
}

/// `list_page` where the listing can be made: `None` where it would index
/// out of the page.
pub fn list_page_checked(page_data: &[u8; 4096]) -> (r: Option<(Vec<(HBAMPath, LocalChunk)>, bool)>)
    ensures
        match list_scan(page_data@, 20, Seq::empty()) {
            PageListing::Panics => r is None,
            PageListing::Listed { entries, complete } => r matches Some(x) && listing_views(x.0@) == entries
                && x.1 == complete,
        },
{
    if list_would_panic(page_data) {
        None
    } else {
        Some(list_page(page_data))
    }
}

/// One page of the tree printer's walk along the chain of pages from the
/// root: the page's chunks with their directories (`None` where listing
/// would index out of the page), the next page of the chain, and whether
/// the walk goes on: the page was listed to its end and a next page follows
/// (page number 0 ends the chain).
pub fn tree_walk_step(page: &Page) -> (r: Option<(Vec<(HBAMPath, LocalChunk)>, u32, bool)>)
    ensures
        match list_scan(page.data@, 20, Seq::empty()) {
            PageListing::Panics => r is None,
            PageListing::Listed { entries, complete } => r matches Some(x) && listing_views(x.0@) == entries
                && x.1 == page.header.next && x.2 == (complete && page.header.next > 0),
        },
{
    let next = page.header.next;
    match list_page_checked(&page.data) {
        None => None,
        Some((entries, complete)) => Some((entries, next, complete && next > 0)),
    }
}

/// The little-endian bytes of a two-byte key.
pub open spec fn le_bytes(k: u16) -> Seq<u8> {
    seq![(k % 256) as u8, (k / 256) as u8]
}

/// A path with its last `n` components removed (removing from the empty path
/// leaves it empty).
pub open spec fn pop_n(p: Seq<Seq<u8>>, n: nat) -> Seq<Seq<u8>>
    decreases n,
{
    if n == 0 {
        p
    } else {
        pop_n(drop_last_component(p), (n - 1) as nat)
    }
}

/// The outcome of choosing a child in an index page.
pub ghost enum IndexSearch {
    Panics,
    Found(u64),
    NotFound,
}

/// Choosing the child of the index page `c` for the key `search`, from
/// offset `o`, in directory `path`, with the child last seen `idx` and `pops`
/// delayed pops pending. Each simple reference names a child page (its data
/// is the page number, big-endian) for the directory extended by its key
/// (little-endian); the child of the first such entry at or after `search`
/// is chosen, and a push that takes the directory past `search` chooses the
/// child last seen. A read error chooses the child last seen.
pub open spec fn index_scan(
    c: Seq<u8>,
    o: int,
    path: Seq<Seq<u8>>,
    idx: usize,
    pops: nat,
    search: Seq<Seq<u8>>,
) -> IndexSearch
    decreases c.len() - o,
{
    if !(path_order(path, search) <= 0 && 0 <= o < 4096 && o < c.len()) {
        IndexSearch::NotFound
    } else {
        proof {
            lemma_parse_progress(c, o);
        }
        match parse_chunk(c, o) {
            ChunkParse::Panics => IndexSearch::Panics,
            ChunkParse::Fails { .. } => IndexSearch::Found(idx as u64),
            ChunkParse::Parses { chunk, next } => {
                let d: nat = if chunk.delayed { 1 } else { 0 };
                match chunk.contents {
                    ContentsView::Push { key } => {
                        let p2 = path.push(key);
                        if path_order(search, p2) == -1 || (paths_equal(search, p2) && search.len() == p2.len()) {
                            IndexSearch::Found(idx as u64)
                        } else {
                            index_scan(c, next, p2, idx, pops + d, search)
                        }
                    },
                    ContentsView::Pop => index_scan(c, next, drop_last_component(path), idx, pops + d, search),
                    ContentsView::SimpleData { .. } => index_scan(c, next, path, idx, pops + d, search),
                    ContentsView::SimpleRef { key, data } => {
                        let idx2 = be_int(data) as usize;
                        if path_order(search, path.push(le_bytes(key))) <= 0 {
                            IndexSearch::Found(idx2 as u64)
                        } else if chunk.delayed {
                            index_scan(c, next, pop_n(path, pops + 1), idx2, 0, search)
                        } else {
                            index_scan(c, next, path, idx2, pops, search)
                        }
                    },
                    _ => index_scan(c, next, path, idx, pops, search),
                }
            },
        }
    }
}

/// What `search_index_page` gives for a key and an index page.
pub open spec fn page_index_search(key: Seq<Seq<u8>>, c: Seq<u8>) -> IndexSearch {
    index_scan(c, 20, Seq::empty(), 1, 0, key)
}

/// Chooses the child page of an index page under which `key_` lies.
#[verifier::rlimit(100)]
pub fn search_index_page(key_: &HBAMPath, page: Page) -> (r: Result<PageIndex, BPlusTreeErr>)
    requires
        !(page_index_search(key_@, page.data@) is Panics),
    ensures
        match page_index_search(key_@, page.data@) {
            IndexSearch::Found(i) => r == Ok::<PageIndex, BPlusTreeErr>(i),
            _ => r matches Err(BPlusTreeErr::KeyNotFound(k)) && k.deep_view() == key_@,
        },
{
    match search_index_page_checked(key_, &page) {
        Some(r) => r,
        None => Ok(1),
    }
}

/// `search_index_page` on any page: `None` where choosing the child would
/// index out of the page.
#[verifier::rlimit(100)]
pub fn search_index_page_checked(key_: &HBAMPath, page: &Page) -> (r: Option<Result<PageIndex, BPlusTreeErr>>)
    ensures
        match page_index_search(key_@, page.data@) {
            IndexSearch::Found(i) => r == Some(Ok::<PageIndex, BPlusTreeErr>(i)),
            IndexSearch::NotFound => r matches Some(Err(BPlusTreeErr::KeyNotFound(k))) && k.deep_view() == key_@,
            IndexSearch::Panics => r is None,
        },
{
    let mut cur_path = HBAMPath { components: Vec::new() };
    let mut offset: usize = PageHeader::SIZE;
    let search_key = key_.copy();
    let mut cur_index: usize = 1;
    let mut delayed_pops: u32 = 0;
    assert(cur_path@ =~= Seq::<Seq<u8>>::empty());
    while cur_path.order(&search_key) <= 0 && offset < Page::SIZE as usize
        invariant
            search_key@ == key_@,
            20 <= offset,
            delayed_pops <= offset,
            page_index_search(key_@, page.data@) == index_scan(
                page.data@,
                offset as int,
                cur_path@,
                cur_index,
                delayed_pops as nat,
                key_@,
            ),
        decreases page.data@.len() - offset,
    {
        proof {
            lemma_parse_progress(page.data@, offset as int);
        }
        let ghost o = offset;
        if chunk_would_panic(&page.data, offset) {
            return None;
        }
        if let Ok(chunk) = Chunk::from_bytes(&page.data, &mut offset) {
            match chunk.contents {
                ChunkContents::Push { key } => {
                    cur_path.push_component(vstd::slice::slice_to_vec(key));
                    if search_key.order(&cur_path) == -1 || (search_key.equals(&cur_path)
                        && search_key.components.len() == cur_path.components.len()) {
                        return Some(Ok(cur_index as u64));
                    }
                    if chunk.delayed {
                        delayed_pops += 1;
                    }
                },
                ChunkContents::Pop => {
                    cur_path.pop_component();
                    if chunk.delayed {
                        delayed_pops += 1;
                    }
                },
                ChunkContents::SimpleData { .. } => {
                    if chunk.delayed {
                        delayed_pops += 1;
                    }
                },
                ChunkContents::SimpleRef { key, data } => {
                    cur_index = get_int(data);
                    let mut kv: Vec<u8> = Vec::new();
                    kv.push((key % 256) as u8);
                    kv.push((key / 256) as u8);
                    assert(kv@ =~= le_bytes(key));
                    let ghost before = cur_path@;
                    cur_path.push_component(kv);
                    if search_key.order(&cur_path) <= 0 {
                        return Some(Ok(cur_index as u64));
                    }
                    cur_path.pop_component();
                    assert(cur_path@ =~= before);
                    if chunk.delayed {
                        delayed_pops += 1;
                        let ghost total = delayed_pops as nat;
                        while delayed_pops > 0
                            invariant
                                pop_n(before, total) == pop_n(cur_path@, delayed_pops as nat),
                            decreases delayed_pops,
                        {
                            cur_path.pop_component();
                            delayed_pops -= 1;
                        }
                    }
                },
                _ => {},
            }
        } else {
            return Some(Ok(cur_index as u64));
        }
    }
    Some(Err(BPlusTreeErr::KeyNotFound(key_.copy().components)))
}

/// Takes page `index` of `file` from the store.
fn get_page(index: PageIndex, cache: &PageStore, file: &str) -> (r: Result<Arc<Page>, BPlusTreeErr>)
    requires
        cache.wf(),
    ensures
        match cache.cached(file@, index) {
            Some(p) => r matches Ok(q) && *q == p,
            None => r matches Err(BPlusTreeErr::PageNotFound(m)) && m == index as usize,
        },
{
    match cache.get(file.to_owned(), index) {
        Some(p) => Ok(p),
        None => Err(BPlusTreeErr::PageNotFound(index as usize)),
    }
}

/// Where a walk from the root towards the data pages ends.
pub ghost enum DataWalk {
    Panics,
    Missing(u64),
    Cycle(u64),
    Found(Page),
}

/// The child that an index page leads to for `key`: the one its entries
/// choose, or the page after it when none does (`None` when reading the page
/// would fail).
pub open spec fn next_child(key: Seq<Seq<u8>>, page: Page) -> Option<u64> {
    match page_index_search(key, page.data@) {
        IndexSearch::Found(i) => Some(i),
        IndexSearch::NotFound => Some(page.header.next as u64),
        IndexSearch::Panics => None,
    }
}

/// The walk from the page `cur` to a data page, having followed the pages in
/// `visited`; following a page a second time ends the walk.
pub open spec fn data_walk(store: PageStore, file: Seq<char>, key: Seq<Seq<u8>>, cur: Page, visited: Set<u64>) -> DataWalk
    decreases (store.page_numbers(file) - visited).len(),
{
    if cur.header.page_type == BlockType::Data {
        DataWalk::Found(cur)
    } else {
        match next_child(key, cur) {
            None => DataWalk::Panics,
            Some(n) => if visited.contains(n) {
                DataWalk::Cycle(n)
            } else {
                match store.cached(file, n) {
                    None => DataWalk::Missing(n),
                    Some(p) => {
                        proof {
                            lemma_walk_step(store, file, visited, n);
                        }
                        data_walk(store, file, key, p, visited.insert(n))
                    },
                }
            }
        }
    }
}

/// Following a stored page not yet visited leaves fewer stored pages to visit.
pub proof fn lemma_walk_step(store: PageStore, file: Seq<char>, visited: Set<u64>, n: u64)
    requires
        store.cached(file, n) is Some,
        !visited.contains(n),
    ensures
        (store.page_numbers(file) - visited.insert(n)).len() < (store.page_numbers(file) - visited).len(),
{
    store.lemma_page_numbers_finite(file);
    let a = store.page_numbers(file);
    assert((a - visited.insert(n)) =~= (a - visited).remove(n));
    assert((a - visited).contains(n));
}

/// The walk from the root page (page 1) of `file` to the data page for `key`.
pub open spec fn data_page_of(store: PageStore, file: Seq<char>, key: Seq<Seq<u8>>) -> DataWalk {
    match store.cached(file, 1) {
        None => DataWalk::Missing(1),
        Some(root) => data_walk(store, file, key, root, Set::empty()),
    }
}

/// Follows the index pages from the root to the data page for `key`.
fn get_data_page(key: &HBAMPath, cache: &PageStore, file: &str) -> (r: Result<Arc<Page>, BPlusTreeErr>)
    requires
        cache.wf(),
        key@.len() > 0 ==> !(data_page_of(*cache, file@, key@) is Panics),
    ensures
        key@.len() == 0 ==> r matches Err(BPlusTreeErr::EmptyKey),
        key@.len() > 0 ==> match data_page_of(*cache, file@, key@) {
            DataWalk::Found(p) => r matches Ok(q) && *q == p,
            DataWalk::Missing(n) => r matches Err(BPlusTreeErr::PageNotFound(m)) && m == n as usize,
            DataWalk::Cycle(n) => r matches Err(BPlusTreeErr::PageCycle(m)) && m == n,
            DataWalk::Panics => false,
        },
{
    match get_data_page_checked(key, cache, file) {
        Some(r) => r,
        None => Err(BPlusTreeErr::EmptyKey),
    }
}

/// `get_data_page` on any store: `None` where choosing a child would index
/// out of an index page.
fn get_data_page_checked(key: &HBAMPath, cache: &PageStore, file: &str) -> (r: Option<Result<Arc<Page>, BPlusTreeErr>>)
    requires
        cache.wf(),
    ensures
        key@.len() == 0 ==> r matches Some(Err(BPlusTreeErr::EmptyKey)),
        key@.len() > 0 ==> match data_page_of(*cache, file@, key@) {
            DataWalk::Found(p) => r matches Some(Ok(q)) && *q == p,
            DataWalk::Missing(n) => r matches Some(Err(BPlusTreeErr::PageNotFound(m))) && m == n as usize,
            DataWalk::Cycle(n) => r matches Some(Err(BPlusTreeErr::PageCycle(m))) && m == n,
            DataWalk::Panics => r is None,
        },
{
    if key.components.len() == 0 {
        return Some(Err(BPlusTreeErr::EmptyKey));
    }
    let mut page_set: HashSet<u64> = HashSet::new();
    let root = match get_page(1, cache, file) {
        Ok(p) => p,
        Err(e) => return Some(Err(e)),
    };
    let mut cur_page = root;
    loop
        invariant
            cache.wf(),
            key@.len() > 0,
            data_page_of(*cache, file@, key@) == data_walk(*cache, file@, key@, *cur_page, page_set@),
        decreases (cache.page_numbers(file@) - page_set@).len(),
    {
        match cur_page.header.page_type {
            BlockType::Data => {
                return Some(Ok(cur_page));
            },
            _ => {
                let next_index = match search_index_page_checked(key, &cur_page) {
                    None => return None,
                    Some(Ok(inner)) => inner,
                    Some(Err(BPlusTreeErr::KeyNotFound(_))) => cur_page.header.next as u64,
                    Some(Err(e)) => return Some(Err(e)),
                };
                if page_set.contains(&next_index) {
                    return Some(Err(BPlusTreeErr::PageCycle(next_index)));
                }
                let ghost before = page_set@;
                page_set.insert(next_index);
                cur_page = match get_page(next_index, cache, file) {
                    Ok(p) => p,
                    Err(e) => return Some(Err(e)),
                };
                proof {
                    lemma_walk_step(*cache, file@, before, next_index);
                }
            },
        }
    }
}

/// Where the scan for a key along the chain of data pages ends, within
/// `fuel` steps to a following page.
pub ghost enum KeyWalk {
    Panics,
    BadSuffix,
    Missing(u64),
    Error(ParseErr),
    Found(Seq<u8>),
    Unfinished,
}

/// Scans the data page `cur` for `key`, then each following page in turn,
/// taking at most `fuel` steps to a following page.
pub open spec fn key_walk(store: PageStore, file: Seq<char>, key: Seq<Seq<u8>>, cur: Page, fuel: nat) -> KeyWalk
    decreases fuel,
{
    match page_key_search(key, cur.data@) {
        None => KeyWalk::BadSuffix,
        Some(KeySearch::Panics) => KeyWalk::Panics,
        Some(KeySearch::Error(e)) => KeyWalk::Error(e),
        Some(KeySearch::Found(d)) => KeyWalk::Found(d),
        Some(KeySearch::NotFound) => if fuel == 0 {
            KeyWalk::Unfinished
        } else {
            match store.cached(file, cur.header.next as u64) {
                None => KeyWalk::Missing(cur.header.next as u64),
                Some(p) => key_walk(store, file, key, p, (fuel - 1) as nat),
            }
        },
    }
}

/// The scan for `key` from the data page `cur` comes to an end.
pub open spec fn key_walk_ends(store: PageStore, file: Seq<char>, key: Seq<Seq<u8>>, cur: Page) -> bool {
    exists|f: nat| !(#[trigger] key_walk(store, file, key, cur, f) is Unfinished)
}

/// The number of steps after which the scan for `key` from `cur` has ended.
pub open spec fn key_walk_fuel(store: PageStore, file: Seq<char>, key: Seq<Seq<u8>>, cur: Page) -> nat {
    choose|f: nat| !(#[trigger] key_walk(store, file, key, cur, f) is Unfinished)
}

/// Once the scan has ended, more steps change nothing.
pub proof fn lemma_key_walk_stable(store: PageStore, file: Seq<char>, key: Seq<Seq<u8>>, cur: Page, f: nat, g: nat)
    requires
        f <= g,
        !(key_walk(store, file, key, cur, f) is Unfinished),
    ensures
        key_walk(store, file, key, cur, g) == key_walk(store, file, key, cur, f),
    decreases f,
{
    if f > 0 {
        match page_key_search(key, cur.data@) {
            Some(KeySearch::NotFound) => match store.cached(file, cur.header.next as u64) {
                Some(p) => lemma_key_walk_stable(store, file, key, p, (f - 1) as nat, (g - 1) as nat),
                None => {},
            },
            _ => {},
        }
    }
}

/// Where the search for `key` in `file` ends: the walk to its data page,
/// then the scan along the data pages.
pub ghost enum KeyLookup {
    Walk(DataWalk),
    Scan(KeyWalk),
}

pub open spec fn key_lookup(store: PageStore, file: Seq<char>, key: Seq<Seq<u8>>) -> KeyLookup {
    match data_page_of(store, file, key) {
        DataWalk::Found(p) => KeyLookup::Scan(key_walk(store, file, key, p, key_walk_fuel(store, file, key, p))),
        w => KeyLookup::Walk(w),
    }
}

/// The search for `key` neither fails inside a page read nor runs forever
/// along the chain of data pages.
pub open spec fn key_lookup_ends(store: PageStore, file: Seq<char>, key: Seq<Seq<u8>>) -> bool {
    match data_page_of(store, file, key) {
        DataWalk::Panics => false,
        DataWalk::Found(p) => key_walk_ends(store, file, key, p) && !(key_lookup(store, file, key) matches KeyLookup::Scan(KeyWalk::Panics)),
        _ => true,
    }
}

/// What looking up `key` in the pages of `file` held by `store` gives: the
/// empty key is refused; a page that the walk needs and the store lacks is
/// reported by number; otherwise the walk's and the scan's outcome.
pub open spec fn key_search_result(
    store: PageStore,
    file: Seq<char>,
    key: Seq<Seq<u8>>,
    r: Result<Option<KeyValue>, BPlusTreeErr>,
) -> bool {
    if key.len() == 0 {
        r matches Err(BPlusTreeErr::EmptyKey)
    } else {
        match key_lookup(store, file, key) {
        KeyLookup::Walk(DataWalk::Missing(n)) => r matches Err(BPlusTreeErr::PageNotFound(m)) && m == n as usize,
        KeyLookup::Walk(DataWalk::Cycle(n)) => r matches Err(BPlusTreeErr::PageCycle(m)) && m == n,
        KeyLookup::Scan(KeyWalk::BadSuffix) => r matches Err(BPlusTreeErr::EmptyKey),
        KeyLookup::Scan(KeyWalk::Missing(n)) => r matches Err(BPlusTreeErr::PageNotFound(m)) && m == n as usize,
        KeyLookup::Scan(KeyWalk::Error(e)) => r matches Err(BPlusTreeErr::InvalidChunkComposition(e2)) && e2 == e,
        KeyLookup::Scan(KeyWalk::Found(d)) => r matches Ok(Some(kv)) && kv.key.deep_view() == key && kv.value@ == d,
        _ => false,
        }
    }
}

proof fn lemma_data_walk_extends(s1: PageStore, s2: PageStore, file: Seq<char>, key: Seq<Seq<u8>>, cur: Page, visited: Set<u64>)
    requires
        holds_pages_of(s1, s2, file),
        !(data_walk(s1, file, key, cur, visited) is Missing),
    ensures
        data_walk(s2, file, key, cur, visited) == data_walk(s1, file, key, cur, visited),
    decreases (s1.page_numbers(file) - visited).len(),
{
    if cur.header.page_type != BlockType::Data {
        if let Some(n) = next_child(key, cur) {
            if !visited.contains(n) {
                if let Some(p) = s1.cached(file, n) {
                    lemma_walk_step(s1, file, visited, n);
                    lemma_data_walk_extends(s1, s2, file, key, p, visited.insert(n));
                }
            }
        }
    }
}

proof fn lemma_key_walk_extends(s1: PageStore, s2: PageStore, file: Seq<char>, key: Seq<Seq<u8>>, cur: Page, fuel: nat)
    requires
        holds_pages_of(s1, s2, file),
        !(key_walk(s1, file, key, cur, fuel) is Missing),
    ensures
        key_walk(s2, file, key, cur, fuel) == key_walk(s1, file, key, cur, fuel),
    decreases fuel,
{
    if fuel > 0 {
        if let Some(KeySearch::NotFound) = page_key_search(key, cur.data@) {
            if let Some(p) = s1.cached(file, cur.header.next as u64) {
                lemma_key_walk_extends(s1, s2, file, key, p, (fuel - 1) as nat);
            }
        }
    }
}

/// Storing more pages does not change a lookup that needed no missing page:
/// when a store holds every page of `file` that another holds, and the
/// lookup of `key` in the smaller store ended without reporting a missing
/// page, the larger store gives the same outcome.
pub proof fn lemma_lookup_keeps_with_more_pages(s1: PageStore, s2: PageStore, file: Seq<char>, key: Seq<Seq<u8>>)
    requires
        holds_pages_of(s1, s2, file),
        key_lookup_ends(s1, file, key),
        !(key_lookup(s1, file, key) matches KeyLookup::Walk(DataWalk::Missing(_))),
        !(key_lookup(s1, file, key) matches KeyLookup::Scan(KeyWalk::Missing(_))),
    ensures
        key_lookup_ends(s2, file, key),
        key_lookup(s2, file, key) == key_lookup(s1, file, key),
{
    match s1.cached(file, 1) {
        None => {},
        Some(root) => {
            lemma_data_walk_extends(s1, s2, file, key, root, Set::empty());
            if let DataWalk::Found(p) = data_page_of(s1, file, key) {
                let f1 = key_walk_fuel(s1, file, key, p);
                lemma_key_walk_extends(s1, s2, file, key, p, f1);
                assert(!(key_walk(s2, file, key, p, f1) is Unfinished));
                let f2 = key_walk_fuel(s2, file, key, p);
                let g = if f1 <= f2 { f2 } else { f1 };
                lemma_key_walk_stable(s2, file, key, p, f1, g);
                lemma_key_walk_stable(s2, file, key, p, f2, g);
            }
        },
    }
}

/// Looks up the value stored under `key` in the pages of `file` held by the
/// store: from the root to the data page for `key`, then along the data
/// pages until one holds it.
pub fn search_key(key: &HBAMPath, cache: &PageStore, file: &str) -> (r: Result<Option<KeyValue>, BPlusTreeErr>)
    requires
        cache.wf(),
        key@.len() > 0 ==> key_lookup_ends(*cache, file@, key@),
    ensures
        key_search_result(*cache, file@, key@, r),
{
    if key.components.len() == 0 {
        return Err(BPlusTreeErr::EmptyKey);
    }
    let mut current_page = get_data_page(key, cache, file)?;
    let ghost first = *current_page;
    let ghost mut fuel: nat = key_walk_fuel(*cache, file@, key@, first);
    loop
        invariant
            cache.wf(),
            key@.len() > 0,
            key_lookup(*cache, file@, key@) == KeyLookup::Scan(key_walk(*cache, file@, key@, *current_page, fuel)),
            !(key_walk(*cache, file@, key@, *current_page, fuel) is Unfinished),
            !(key_walk(*cache, file@, key@, *current_page, fuel) is Panics),
        decreases fuel,
    {
        match search_key_in_page(key, &current_page.data)? {
            Some(inner) => {
                return Ok(Some(inner));
            },
            None => {
                current_page = get_page(current_page.header.next as u64, cache, file)?;
                proof {
                    fuel = (fuel - 1) as nat;
                }
            },
        }
    }
}

/// The data pages `q` follow one another along the chain, and none but
/// perhaps the last holds `key`.
pub open spec fn scan_chain(store: PageStore, file: Seq<char>, key: Seq<Seq<u8>>, q: Seq<Page>) -> bool {
    forall|i: int|
        0 <= i < q.len() - 1 ==> #[trigger] page_key_search(key, q[i].data@) == Some(KeySearch::NotFound)
            && store.cached(file, q[i].header.next as u64) == Some(q[i + 1])
}

/// Scanning from the first page of a chain with `i` more steps is scanning
/// from its page `i`.
pub proof fn lemma_key_walk_shift(store: PageStore, file: Seq<char>, key: Seq<Seq<u8>>, q: Seq<Page>, i: int, f: nat)
    requires
        scan_chain(store, file, key, q),
        0 <= i < q.len(),
    ensures
        key_walk(store, file, key, q[0], (f + i) as nat) == key_walk(store, file, key, q[i], f),
    decreases i,
{
    if i > 0 {
        lemma_key_walk_shift(store, file, key, q, i - 1, f + 1);
        assert(page_key_search(key, q[i - 1].data@) == Some(KeySearch::NotFound));
        assert(((f + 1) + (i - 1)) as nat == (f + i) as nat);
    }
}

proof fn lemma_key_walk_loops_from(
    store: PageStore,
    file: Seq<char>,
    key: Seq<Seq<u8>>,
    q: Seq<Page>,
    j: int,
    i: int,
    f: nat,
)
    requires
        scan_chain(store, file, key, q),
        0 <= j <= i < q.len(),
        page_key_search(key, q.last().data@) == Some(KeySearch::NotFound),
        store.cached(file, q.last().header.next as u64) == Some(q[j]),
    ensures
        key_walk(store, file, key, q[i], f) is Unfinished,
    decreases f,
{
    if i < q.len() - 1 {
        assert(page_key_search(key, q[i].data@) == Some(KeySearch::NotFound));
        if f > 0 {
            lemma_key_walk_loops_from(store, file, key, q, j, i + 1, (f - 1) as nat);
        }
    } else {
        if f > 0 {
            lemma_key_walk_loops_from(store, file, key, q, j, j, (f - 1) as nat);
        }
    }
}

/// When the chain of data pages comes back to one of its pages without
/// finding `key`, the scan never ends.
pub proof fn lemma_key_walk_cycle(store: PageStore, file: Seq<char>, key: Seq<Seq<u8>>, q: Seq<Page>, j: int)
    requires
        scan_chain(store, file, key, q),
        0 <= j < q.len(),
        page_key_search(key, q.last().data@) == Some(KeySearch::NotFound),
        store.cached(file, q.last().header.next as u64) == Some(q[j]),
    ensures
        !key_walk_ends(store, file, key, q[0]),
{
    assert forall|f: nat| #[trigger] key_walk(store, file, key, q[0], f) is Unfinished by {
        if f >= j {
            lemma_key_walk_shift(store, file, key, q, j, (f - j) as nat);
            lemma_key_walk_loops_from(store, file, key, q, j, j, (f - j) as nat);
        } else {
            lemma_key_walk_shift(store, file, key, q, f as int, 0);
            assert(page_key_search(key, q[f as int].data@) == Some(KeySearch::NotFound));
        }
    }
}

/// A scan that ends within `m` steps decides the lookup.
pub proof fn lemma_scan_decides(store: PageStore, file: Seq<char>, key: Seq<Seq<u8>>, p: Page, m: nat)
    requires
        data_page_of(store, file, key) == DataWalk::Found(p),
        !(key_walk(store, file, key, p, m) is Unfinished),
    ensures
        key_lookup(store, file, key) == KeyLookup::Scan(key_walk(store, file, key, p, m)),
        key_lookup_ends(store, file, key) == !(key_walk(store, file, key, p, m) is Panics),
{
    assert(key_walk_ends(store, file, key, p));
    let f = key_walk_fuel(store, file, key, p);
    if f <= m {
        lemma_key_walk_stable(store, file, key, p, f, m);
    } else {
        lemma_key_walk_stable(store, file, key, p, m, f);
    }
}

/// `search_key` on any store: `None` where the search would index out of a
/// page or would follow the chain of data pages for ever (the chain comes
/// back to a page it has left without finding the key).
pub fn search_key_checked(key: &HBAMPath, cache: &PageStore, file: &str) -> (r: Option<Result<Option<KeyValue>, BPlusTreeErr>>)
    requires
        cache.wf(),
    ensures
        (r is None) == (key@.len() > 0 && !key_lookup_ends(*cache, file@, key@)),
        r matches Some(x) ==> key_search_result(*cache, file@, key@, x),
{
    if key.components.len() == 0 {
        return Some(Err(BPlusTreeErr::EmptyKey));
    }
    let first = match get_data_page_checked(key, cache, file) {
        None => return None,
        Some(Ok(p)) => p,
        Some(Err(e)) => return Some(Err(e)),
    };
    let mut current = first;
    let ghost mut q: Seq<Page> = seq![*current];
    let ghost mut nums: Seq<u64> = Seq::empty();
    let mut visited: HashSet<u64> = HashSet::new();
    loop
        invariant
            cache.wf(),
            key@.len() > 0,
            q.len() >= 1,
            data_page_of(*cache, file@, key@) == DataWalk::Found(q[0]),
            *current == q.last(),
            scan_chain(*cache, file@, key@, q),
            nums.len() == q.len() - 1,
            forall|i: int| 0 <= i < nums.len() ==> #[trigger] nums[i] == q[i].header.next as u64,
            forall|n: u64| #[trigger] visited@.contains(n) ==> exists|i: int| 0 <= i < nums.len() && nums[i] == n,
            forall|n: u64| #[trigger] visited@.contains(n) ==> cache.cached(file@, n) is Some,
        decreases (cache.page_numbers(file@) - visited@).len(),
    {
        let ghost k = (q.len() - 1) as int;
        proof {
            lemma_key_walk_shift(*cache, file@, key@, q, k, 0);
            lemma_key_walk_shift(*cache, file@, key@, q, k, 1);
        }
        match search_key_in_page_checked(key, &current.data) {
            None => {
                proof {
                    lemma_scan_decides(*cache, file@, key@, q[0], k as nat);
                }
                return None;
            },
            Some(Ok(None)) => {
                let n = current.header.next as u64;
                if visited.contains(&n) {
                    proof {
                        let i = choose|i: int| 0 <= i < nums.len() && nums[i] == n;
                        assert(page_key_search(key@, q[i].data@) == Some(KeySearch::NotFound));
                        lemma_key_walk_cycle(*cache, file@, key@, q, i + 1);
                    }
                    return None;
                }
                match get_page(n, cache, file) {
                    Err(e) => {
                        proof {
                            lemma_scan_decides(*cache, file@, key@, q[0], (k + 1) as nat);
                        }
                        return Some(Err(e));
                    },
                    Ok(p) => {
                        proof {
                            lemma_walk_step(*cache, file@, visited@, n);
                            let q2 = q.push(*p);
                            assert forall|i: int| 0 <= i < q2.len() - 1 implies #[trigger] page_key_search(key@, q2[i].data@)
                                == Some(KeySearch::NotFound) && cache.cached(file@, q2[i].header.next as u64) == Some(
                                q2[i + 1],
                            ) by {
                                if i < k {
                                    assert(page_key_search(key@, q[i].data@) == Some(KeySearch::NotFound));
                                }
                            }
                            let nums2 = nums.push(n);
                            assert forall|m: u64| #[trigger] visited@.insert(n).contains(m) implies exists|i: int|
                                0 <= i < nums2.len() && nums2[i] == m by {
                                if m == n {
                                    assert(nums2[nums.len() as int] == m);
                                } else {
                                    let i = choose|i: int| 0 <= i < nums.len() && nums[i] == m;
                                    assert(nums2[i] == m);
                                }
                            }
                            q = q2;
                            nums = nums2;
                        }
                        visited.insert(n);
                        current = p;
                    },
                }
            },
            Some(x) => {
                proof {
                    lemma_scan_decides(*cache, file@, key@, q[0], k as nat);
                }
                return Some(x);
            },
        }
    }
}

/// The lexicographic order of component lists (the order of
/// `Vec<Vec<u8>>`): the first differing component decides, else the shorter
/// list sorts first.
pub open spec fn list_order(p: Seq<Seq<u8>>, q: Seq<Seq<u8>>) -> int {
    if components_order(p, q) != 0 {
        components_order(p, q)
    } else if p.len() < q.len() {
        -1
    } else if p.len() == q.len() {
        0
    } else {
        1
    }
}

/// The phases of collecting a view: scanning a page for the chunks under
/// the key, moving to the following page, and skipping the chunks of that
/// page that lie before the directory reached on the previous page.
pub ghost enum ViewPhase {
    Scan,
    NextPage,
    Skip,
}

pub open spec fn phase_rank(ph: ViewPhase) -> int {
    match ph {
        ViewPhase::NextPage => 0,
        ViewPhase::Scan => 1,
        ViewPhase::Skip => 2,
    }
}

pub open spec fn bytes_left(o: int) -> int {
    if o < 4096 {
        4096 - o
    } else {
        0
    }
}

/// Where collecting a view ends, within `fuel` moves to a following page.
pub ghost enum ViewWalk {
    Panics,
    Missing(u64),
    Error(ParseErr),
    Found(Seq<ChunkView>),
    NotFound,
    Unfinished,
}

/// Collecting the chunks that lie under `key`, from offset `o` of page `p`
/// in directory `path` (in the skip phase, `cached` is the directory reached
/// on the previous page), with the chunks `chunks` collected so far.
///
/// While scanning, each chunk is looked at with the directory before it:
/// once the directory sorts after `key` the scan ends, as it does once it no
/// longer equals `key` after chunks were collected; a chunk whose directory
/// equals `key` and is at least as long is collected. At the end of a page
/// the scan moves to the following page (none when its number is 0), whose
/// leading chunks are replayed from the empty directory while that directory
/// stays at or before `cached`.
pub open spec fn view_walk(
    store: PageStore,
    file: Seq<char>,
    key: Seq<Seq<u8>>,
    ph: ViewPhase,
    p: Page,
    o: int,
    path: Seq<Seq<u8>>,
    cached: Seq<Seq<u8>>,
    chunks: Seq<ChunkView>,
    fuel: nat,
) -> ViewWalk
    decreases fuel, phase_rank(ph), bytes_left(o),
{
    match ph {
        ViewPhase::Scan => if o < 4096 {
            proof {
                lemma_parse_progress(p.data@, o);
            }
            match parse_chunk(p.data@, o) {
                ChunkParse::Panics => ViewWalk::Panics,
                ChunkParse::Fails { err, next } => if err == ParseErr::EndChunk {
                    view_walk(store, file, key, ViewPhase::NextPage, p, next, path, cached, chunks, fuel)
                } else {
                    ViewWalk::Error(err)
                },
                ChunkParse::Parses { chunk, next } => if path_order(path, key) == 1 {
                    if chunks.len() == 0 {
                        ViewWalk::NotFound
                    } else {
                        ViewWalk::Found(chunks)
                    }
                } else if !paths_equal(path, key) && chunks.len() > 0 {
                    ViewWalk::Found(chunks)
                } else {
                    let chunks2 = if path.len() >= key.len() && paths_equal(path, key) {
                        chunks.push(chunk)
                    } else {
                        chunks
                    };
                    let path2 = match chunk.contents {
                        ContentsView::Push { key: k } => path.push(k),
                        ContentsView::Pop => drop_last_component(path),
                        _ => path,
                    };
                    view_walk(store, file, key, ViewPhase::Scan, p, next, path2, cached, chunks2, fuel)
                },
            }
        } else {
            view_walk(store, file, key, ViewPhase::NextPage, p, o, path, cached, chunks, fuel)
        },
        ViewPhase::NextPage => if p.header.next == 0 {
            ViewWalk::NotFound
        } else if fuel == 0 {
            ViewWalk::Unfinished
        } else {
            match store.cached(file, p.header.next as u64) {
                None => ViewWalk::Missing(p.header.next as u64),
                Some(q) => view_walk(
                    store,
                    file,
                    key,
                    ViewPhase::Skip,
                    q,
                    20,
                    Seq::empty(),
                    path,
                    chunks,
                    (fuel - 1) as nat,
                ),
            }
        },
        ViewPhase::Skip => if o < 4096 && list_order(path, cached) <= 0 && path_order(path, cached) <= 0 {
            proof {
                lemma_parse_progress(p.data@, o);
            }
            match parse_chunk(p.data@, o) {
                ChunkParse::Panics => ViewWalk::Panics,
                ChunkParse::Fails { err, next } => if err == ParseErr::EndChunk {
                    view_walk(store, file, key, ViewPhase::Scan, p, next, path, cached, chunks, fuel)
                } else {
                    ViewWalk::Error(err)
                },
                ChunkParse::Parses { chunk, next } => {
                    let path2 = match chunk.contents {
                        ContentsView::Push { key: k } => path.push(k),
                        ContentsView::Pop => drop_last_component(path),
                        _ => path,
                    };
                    view_walk(store, file, key, ViewPhase::Skip, p, next, path2, cached, chunks, fuel)
                },
            }
        } else {
            view_walk(store, file, key, ViewPhase::Scan, p, o, path, cached, chunks, fuel)
        },
    }
}

/// Collecting the view for `key` from the data page `p` comes to an end.
pub open spec fn view_walk_ends(store: PageStore, file: Seq<char>, key: Seq<Seq<u8>>, p: Page) -> bool {
    exists|f: nat|
        !(#[trigger] view_walk(store, file, key, ViewPhase::Scan, p, 20, Seq::empty(), Seq::empty(), Seq::empty(), f) is Unfinished)
}

pub open spec fn view_walk_fuel(store: PageStore, file: Seq<char>, key: Seq<Seq<u8>>, p: Page) -> nat {
    choose|f: nat|
        !(#[trigger] view_walk(store, file, key, ViewPhase::Scan, p, 20, Seq::empty(), Seq::empty(), Seq::empty(), f) is Unfinished)
}

/// Where collecting the view for `key` in `file` ends.
pub ghost enum ViewLookup {
    Walk(DataWalk),
    Scan(ViewWalk),
}

pub open spec fn view_lookup(store: PageStore, file: Seq<char>, key: Seq<Seq<u8>>) -> ViewLookup {
    match data_page_of(store, file, key) {
        DataWalk::Found(p) => ViewLookup::Scan(
            view_walk(store, file, key, ViewPhase::Scan, p, 20, Seq::empty(), Seq::empty(), Seq::empty(), view_walk_fuel(store, file, key, p)),
        ),
        w => ViewLookup::Walk(w),
    }
}

/// Collecting the view for `key` neither fails inside a page read nor runs
/// forever along the chain of data pages.
pub open spec fn view_lookup_ends(store: PageStore, file: Seq<char>, key: Seq<Seq<u8>>) -> bool {
    match data_page_of(store, file, key) {
        DataWalk::Panics => false,
        DataWalk::Found(p) => view_walk_ends(store, file, key, p) && !(view_lookup(store, file, key) matches ViewLookup::Scan(ViewWalk::Panics)),
        _ => true,
    }
}

proof fn lemma_view_walk_extends(
    s1: PageStore,
    s2: PageStore,
    file: Seq<char>,
    key: Seq<Seq<u8>>,
    ph: ViewPhase,
    p: Page,
    o: int,
    path: Seq<Seq<u8>>,
    cached: Seq<Seq<u8>>,
    chunks: Seq<ChunkView>,
    fuel: nat,
)
    requires
        holds_pages_of(s1, s2, file),
        !(view_walk(s1, file, key, ph, p, o, path, cached, chunks, fuel) is Missing),
    ensures
        view_walk(s2, file, key, ph, p, o, path, cached, chunks, fuel) == view_walk(
            s1,
            file,
            key,
            ph,
            p,
            o,
            path,
            cached,
            chunks,
            fuel,
        ),
    decreases fuel, phase_rank(ph), bytes_left(o),
{
    match ph {
        ViewPhase::Scan => if o < 4096 {
            lemma_parse_progress(p.data@, o);
            match parse_chunk(p.data@, o) {
                ChunkParse::Fails { err, next } => if err == ParseErr::EndChunk {
                    lemma_view_walk_extends(s1, s2, file, key, ViewPhase::NextPage, p, next, path, cached, chunks, fuel);
                },
                ChunkParse::Parses { chunk, next } => if path_order(path, key) != 1 && !(!paths_equal(path, key)
                    && chunks.len() > 0) {
                    let chunks2 = if path.len() >= key.len() && paths_equal(path, key) {
                        chunks.push(chunk)
                    } else {
                        chunks
                    };
                    let path2 = match chunk.contents {
                        ContentsView::Push { key: k } => path.push(k),
                        ContentsView::Pop => drop_last_component(path),
                        _ => path,
                    };
                    lemma_view_walk_extends(s1, s2, file, key, ViewPhase::Scan, p, next, path2, cached, chunks2, fuel);
                },
                _ => {},
            }
        } else {
            lemma_view_walk_extends(s1, s2, file, key, ViewPhase::NextPage, p, o, path, cached, chunks, fuel);
        },
        ViewPhase::NextPage => if p.header.next != 0 && fuel > 0 {
            if let Some(q) = s1.cached(file, p.header.next as u64) {
                lemma_view_walk_extends(
                    s1,
                    s2,
                    file,
                    key,
                    ViewPhase::Skip,
                    q,
                    20,
                    Seq::empty(),
                    path,
                    chunks,
                    (fuel - 1) as nat,
                );
            }
        },
        ViewPhase::Skip => if o < 4096 && list_order(path, cached) <= 0 && path_order(path, cached) <= 0 {
            lemma_parse_progress(p.data@, o);
            match parse_chunk(p.data@, o) {
                ChunkParse::Fails { err, next } => if err == ParseErr::EndChunk {
                    lemma_view_walk_extends(s1, s2, file, key, ViewPhase::Scan, p, next, path, cached, chunks, fuel);
                },
                ChunkParse::Parses { chunk, next } => {
                    let path2 = match chunk.contents {
                        ContentsView::Push { key: k } => path.push(k),
                        ContentsView::Pop => drop_last_component(path),
                        _ => path,
                    };
                    lemma_view_walk_extends(s1, s2, file, key, ViewPhase::Skip, p, next, path2, cached, chunks, fuel);
                },
                _ => {},
            }
        } else {
            lemma_view_walk_extends(s1, s2, file, key, ViewPhase::Scan, p, o, path, cached, chunks, fuel);
        },
    }
}

proof fn lemma_view_walk_stable(store: PageStore, file: Seq<char>, key: Seq<Seq<u8>>, ph: ViewPhase, p: Page, o: int, path: Seq<Seq<u8>>, cached: Seq<Seq<u8>>, chunks: Seq<ChunkView>, f: nat, g: nat)
    requires
        f <= g,
        !(view_walk(store, file, key, ph, p, o, path, cached, chunks, f) is Unfinished),
    ensures
        view_walk(store, file, key, ph, p, o, path, cached, chunks, g) == view_walk(store, file, key, ph, p, o, path, cached, chunks, f),
    decreases f, phase_rank(ph), bytes_left(o),
{
    match ph {
        ViewPhase::Scan => if o < 4096 {
            lemma_parse_progress(p.data@, o);
            match parse_chunk(p.data@, o) {
                ChunkParse::Fails { err, next } => if err == ParseErr::EndChunk {
                    lemma_view_walk_stable(store, file, key, ViewPhase::NextPage, p, next, path, cached, chunks, f, g);
                },
                ChunkParse::Parses { chunk, next } => if path_order(path, key) != 1 && !(!paths_equal(path, key)
                    && chunks.len() > 0) {
                    let chunks2 = if path.len() >= key.len() && paths_equal(path, key) {
                        chunks.push(chunk)
                    } else {
                        chunks
                    };
                    let path2 = match chunk.contents {
                        ContentsView::Push { key: k } => path.push(k),
                        ContentsView::Pop => drop_last_component(path),
                        _ => path,
                    };
                    lemma_view_walk_stable(store, file, key, ViewPhase::Scan, p, next, path2, cached, chunks2, f, g);
                },
                _ => {},
            }
        } else {
            lemma_view_walk_stable(store, file, key, ViewPhase::NextPage, p, o, path, cached, chunks, f, g);
        },
        ViewPhase::NextPage => if p.header.next != 0 && f > 0 {
            if let Some(q) = store.cached(file, p.header.next as u64) {
                lemma_view_walk_stable(
                    store,
                    file,
                    key,
                    ViewPhase::Skip,
                    q,
                    20,
                    Seq::empty(),
                    path,
                    chunks,
                    (f - 1) as nat,
                    (g - 1) as nat,
                );
            }
        },
        ViewPhase::Skip => if o < 4096 && list_order(path, cached) <= 0 && path_order(path, cached) <= 0 {
            lemma_parse_progress(p.data@, o);
            match parse_chunk(p.data@, o) {
                ChunkParse::Fails { err, next } => if err == ParseErr::EndChunk {
                    lemma_view_walk_stable(store, file, key, ViewPhase::Scan, p, next, path, cached, chunks, f, g);
                },
                ChunkParse::Parses { chunk, next } => {
                    let path2 = match chunk.contents {
                        ContentsView::Push { key: k } => path.push(k),
                        ContentsView::Pop => drop_last_component(path),
                        _ => path,
                    };
                    lemma_view_walk_stable(store, file, key, ViewPhase::Skip, p, next, path2, cached, chunks, f, g);
                },
                _ => {},
            }
        } else {
            lemma_view_walk_stable(store, file, key, ViewPhase::Scan, p, o, path, cached, chunks, f, g);
        },
    }
}

/// Storing more pages does not change a view that needed no missing page:
/// when a store holds every page of `file` that another holds, and
/// collecting the view for `key` in the smaller store ended without
/// reporting a missing page, the larger store gives the same outcome.
pub proof fn lemma_view_keeps_with_more_pages(s1: PageStore, s2: PageStore, file: Seq<char>, key: Seq<Seq<u8>>)
    requires
        holds_pages_of(s1, s2, file),
        view_lookup_ends(s1, file, key),
        !(view_lookup(s1, file, key) matches ViewLookup::Walk(DataWalk::Missing(_))),
        !(view_lookup(s1, file, key) matches ViewLookup::Scan(ViewWalk::Missing(_))),
    ensures
        view_lookup_ends(s2, file, key),
        view_lookup(s2, file, key) == view_lookup(s1, file, key),
{
    match s1.cached(file, 1) {
        None => {},
        Some(root) => {
            lemma_data_walk_extends(s1, s2, file, key, root, Set::empty());
            if let DataWalk::Found(p) = data_page_of(s1, file, key) {
                let e = Seq::<Seq<u8>>::empty();
                let c = Seq::<ChunkView>::empty();
                let f1 = view_walk_fuel(s1, file, key, p);
                lemma_view_walk_extends(s1, s2, file, key, ViewPhase::Scan, p, 20, e, e, c, f1);
                assert(!(view_walk(s2, file, key, ViewPhase::Scan, p, 20, e, e, c, f1) is Unfinished));
                let f2 = view_walk_fuel(s2, file, key, p);
                let g = if f1 <= f2 { f2 } else { f1 };
                lemma_view_walk_stable(s2, file, key, ViewPhase::Scan, p, 20, e, e, c, f1, g);
                lemma_view_walk_stable(s2, file, key, ViewPhase::Scan, p, 20, e, e, c, f2, g);
            }
        },
    }
}

/// The views of a list of copied chunks.
pub open spec fn chunk_views(v: Seq<LocalChunk>) -> Seq<ChunkView> {
    v.map_values(|c: LocalChunk| c@)
}

/// Collects the chunks stored under `key` in the pages of `file` held by the
/// store (see `view_walk`).
pub fn get_view_from_key(key: &HBAMPath, cache: &PageStore, file: &str) -> (r: Result<Option<View>, BPlusTreeErr>)
    requires
        cache.wf(),
        key@.len() > 0 ==> view_lookup_ends(*cache, file@, key@),
    ensures
        key@.len() == 0 ==> r matches Err(BPlusTreeErr::EmptyKey),
        key@.len() > 0 ==> match view_lookup(*cache, file@, key@) {
            ViewLookup::Walk(DataWalk::Missing(n)) => r matches Err(BPlusTreeErr::PageNotFound(m)) && m == n as usize,
            ViewLookup::Walk(DataWalk::Cycle(n)) => r matches Err(BPlusTreeErr::PageCycle(m)) && m == n,
            ViewLookup::Scan(ViewWalk::Missing(n)) => r matches Err(BPlusTreeErr::PageNotFound(m)) && m == n as usize,
            ViewLookup::Scan(ViewWalk::Error(e)) => r matches Err(BPlusTreeErr::InvalidChunkComposition(e2)) && e2 == e,
            ViewLookup::Scan(ViewWalk::Found(cs)) => r matches Ok(Some(v)) && v.path@ == key@ && chunk_views(v.chunks@) == cs,
            ViewLookup::Scan(ViewWalk::NotFound) => r matches Ok(None),
            _ => false,
        },
{
    if key.components.len() == 0 {
        return Err(BPlusTreeErr::EmptyKey);
    }
    let mut current_page = get_data_page(key, cache, file)?;
    let ghost first = *current_page;
    let ghost mut fuel: nat = view_walk_fuel(*cache, file@, key@, first);
    let mut current_path = HBAMPath { components: Vec::new() };
    let mut chunks: Vec<LocalChunk> = Vec::new();
    let mut offset: usize = PageHeader::SIZE;
    proof {
        assert(current_path@ =~= Seq::<Seq<u8>>::empty());
        assert(chunk_views(chunks@) =~= Seq::<ChunkView>::empty());
    }
    loop
        invariant
            cache.wf(),
            key@.len() > 0,
            view_lookup(*cache, file@, key@) == ViewLookup::Scan(
                view_walk(*cache, file@, key@, ViewPhase::Scan, *current_page, offset as int, current_path@, Seq::empty(), chunk_views(chunks@), fuel),
            ),
            !(view_walk(*cache, file@, key@, ViewPhase::Scan, *current_page, offset as int, current_path@, Seq::empty(), chunk_views(chunks@), fuel) is Unfinished),
            !(view_walk(*cache, file@, key@, ViewPhase::Scan, *current_page, offset as int, current_path@, Seq::empty(), chunk_views(chunks@), fuel) is Panics),
        decreases fuel,
    {
        let ghost g = view_lookup(*cache, file@, key@);
        loop
            invariant_except_break
                g == ViewLookup::Scan(
                    view_walk(*cache, file@, key@, ViewPhase::Scan, *current_page, offset as int, current_path@, Seq::empty(), chunk_views(chunks@), fuel),
                ),
                !(view_walk(*cache, file@, key@, ViewPhase::Scan, *current_page, offset as int, current_path@, Seq::empty(), chunk_views(chunks@), fuel) is Unfinished),
                !(view_walk(*cache, file@, key@, ViewPhase::Scan, *current_page, offset as int, current_path@, Seq::empty(), chunk_views(chunks@), fuel) is Panics),
            invariant
                key@.len() > 0,
                cache.wf(),
                g == view_lookup(*cache, file@, key@),
            ensures
                g == ViewLookup::Scan(
                    view_walk(*cache, file@, key@, ViewPhase::NextPage, *current_page, offset as int, current_path@, Seq::empty(), chunk_views(chunks@), fuel),
                ),
            decreases bytes_left(offset as int),
        {
            if offset >= Page::SIZE as usize {
                break;
            }
            proof {
                lemma_parse_progress(current_page.data@, offset as int);
            }
            let chunk = match Chunk::from_bytes(&current_page.data, &mut offset) {
                Ok(inner) => inner,
                Err(ParseErr::EndChunk) => {
                    break;
                },
                Err(e) => return Err(BPlusTreeErr::InvalidChunkComposition(e)),
            };
            if current_path.order(key) == 1 {
                if chunks.len() == 0 {
                    return Ok(None);
                } else {
                    return Ok(Some(View::new(key.copy(), chunks)));
                }
            } else if !current_path.equals(key) && chunks.len() > 0 {
                return Ok(Some(View::new(key.copy(), chunks)));
            } else if current_path.components.len() >= key.components.len() && current_path.equals(key) {
                let local = chunk.copy_to_local();
                let ghost before = chunks@;
                chunks.push(local);
                proof {
                    assert(chunk_views(chunks@) =~= chunk_views(before).push(chunk@));
                }
            }
            match chunk.contents {
                ChunkContents::Push { key } => {
                    current_path.push_component(vstd::slice::slice_to_vec(key));
                },
                ChunkContents::Pop => {
                    current_path.pop_component();
                },
                _ => {},
            }
        }
        if current_page.header.next == 0 {
            return Ok(None);
        }
        let cached_path = current_path.copy();
        current_path = HBAMPath { components: Vec::new() };
        current_page = get_page(current_page.header.next as u64, cache, file)?;
        proof {
            fuel = (fuel - 1) as nat;
            assert(current_path@ =~= Seq::<Seq<u8>>::empty());
        }
        offset = PageHeader::SIZE;
        loop
            invariant_except_break
                g == ViewLookup::Scan(
                    view_walk(*cache, file@, key@, ViewPhase::Skip, *current_page, offset as int, current_path@, cached_path@, chunk_views(chunks@), fuel),
                ),
                !(view_walk(*cache, file@, key@, ViewPhase::Skip, *current_page, offset as int, current_path@, cached_path@, chunk_views(chunks@), fuel) is Unfinished),
                !(view_walk(*cache, file@, key@, ViewPhase::Skip, *current_page, offset as int, current_path@, cached_path@, chunk_views(chunks@), fuel) is Panics),
            invariant
                key@.len() > 0,
                cache.wf(),
                g == view_lookup(*cache, file@, key@),
            ensures
                g == ViewLookup::Scan(
                    view_walk(*cache, file@, key@, ViewPhase::Scan, *current_page, offset as int, current_path@, cached_path@, chunk_views(chunks@), fuel),
                ),
            decreases bytes_left(offset as int),
        {
            if !(offset < Page::SIZE as usize && compare_lists(&current_path, &cached_path) <= 0
                && current_path.order(&cached_path) <= 0) {
                break;
            }
            proof {
                lemma_parse_progress(current_page.data@, offset as int);
            }
            let chunk = match Chunk::from_bytes(&current_page.data, &mut offset) {
                Ok(inner) => inner,
                Err(ParseErr::EndChunk) => {
                    break;
                },
                Err(e) => return Err(BPlusTreeErr::InvalidChunkComposition(e)),
            };
            match chunk.contents {
                ChunkContents::Push { key } => {
                    current_path.push_component(vstd::slice::slice_to_vec(key));
                },
                ChunkContents::Pop => {
                    current_path.pop_component();
                },
                _ => {},
            }
        }
        proof {
            lemma_view_walk_cached_irrelevant(*cache, file@, key@, *current_page, offset as int, current_path@, cached_path@, chunk_views(chunks@), fuel);
        }
    }
}

/// The directory remembered for the skip phase plays no part in the scan.
proof fn lemma_view_walk_cached_irrelevant(
    store: PageStore,
    file: Seq<char>,
    key: Seq<Seq<u8>>,
    p: Page,
    o: int,
    path: Seq<Seq<u8>>,
    cached: Seq<Seq<u8>>,
    chunks: Seq<ChunkView>,
    fuel: nat,
)
    ensures
        view_walk(store, file, key, ViewPhase::Scan, p, o, path, cached, chunks, fuel)
            == view_walk(store, file, key, ViewPhase::Scan, p, o, path, Seq::empty(), chunks, fuel),
        view_walk(store, file, key, ViewPhase::NextPage, p, o, path, cached, chunks, fuel)
            == view_walk(store, file, key, ViewPhase::NextPage, p, o, path, Seq::empty(), chunks, fuel),
    decreases bytes_left(o),
{
    assert(view_walk(store, file, key, ViewPhase::NextPage, p, o, path, cached, chunks, fuel)
        == view_walk(store, file, key, ViewPhase::NextPage, p, o, path, Seq::empty(), chunks, fuel));
    if o < 4096 {
        lemma_parse_progress(p.data@, o);
        match parse_chunk(p.data@, o) {
            ChunkParse::Fails { err, next } => {
                assert(view_walk(store, file, key, ViewPhase::NextPage, p, next, path, cached, chunks, fuel)
                    == view_walk(store, file, key, ViewPhase::NextPage, p, next, path, Seq::empty(), chunks, fuel));
            },
            ChunkParse::Parses { chunk, next } => {
                let chunks2 = if path.len() >= key.len() && paths_equal(path, key) {
                    chunks.push(chunk)
                } else {
                    chunks
                };
                let path2 = match chunk.contents {
                    ContentsView::Push { key: k } => path.push(k),
                    ContentsView::Pop => drop_last_component(path),
                    _ => path,
                };
                lemma_view_walk_cached_irrelevant(store, file, key, p, next, path2, cached, chunks2, fuel);
            },
            _ => {},
        }
    }
}

/// Compares two component lists in the order of `Vec<Vec<u8>>`: -1, 0 or 1.
fn compare_lists(p: &HBAMPath, q: &HBAMPath) -> (r: i8)
    ensures
        r as int == list_order(p@, q@),
{
    let c = super::path::compare_components(&p.components, &q.components);
    if c != 0 {
        c
    } else if p.components.len() < q.components.len() {
        -1
    } else if p.components.len() == q.components.len() {
        0
    } else {
        1
    }
}

} // verus!
