use cadmus::hbam2::api::{get_keyvalue, get_keyvalue_checked};
use cadmus::hbam2::bplustree::{search_key_checked, search_key_in_page_checked, search_index_page_checked, get_view_from_key, list_page, list_page_checked, tree_walk_step, search_index_page, search_key, search_key_in_page, BPlusTreeErr};
use cadmus::hbam2::chunk::{chunk_would_panic, Chunk, ChunkContents, LocalChunkContents, ParseErr};
use cadmus::hbam2::page::{BlockType, Page, PageHeader, PageHeaderErr};
use cadmus::hbam2::page_store::PageStore;
use cadmus::hbam2::path::HBAMPath;
use cadmus::hbam2::view::chunk_paths;

/// A page of the given type and following page, with `chunks` after the
/// header.
fn page_bytes(page_type: u8, next: u32, chunks: &[u8]) -> [u8; 4096] {
    let mut bytes = [0u8; 4096];
    bytes[8..12].copy_from_slice(&next.to_be_bytes());
    bytes[13] = page_type;
    bytes[20..20 + chunks.len()].copy_from_slice(chunks);
    bytes
}

#[test]
fn chunk_reads_push_ref_pop() {
    let bytes = page_bytes(0, 0, &[0x20, 3, 0x03, 7, 1, 2, 3, 4, 0x3d, 0x00, 0x00]);
    let mut offset = 20;
    let c = Chunk::from_bytes(&bytes, &mut offset).unwrap();
    assert!(matches!(c.contents, ChunkContents::Push { key } if key == [3]));
    assert_eq!(offset, 22);
    let c = Chunk::from_bytes(&bytes, &mut offset).unwrap();
    assert!(matches!(c.contents, ChunkContents::SimpleRef { key: 7, data } if data == [1, 2, 3, 4]));
    assert_eq!(offset, 28);
    let local = c.copy_to_local();
    assert!(matches!(local.contents, LocalChunkContents::SimpleRef { key: 7, ref data } if *data == vec![1, 2, 3, 4]));
    let c = Chunk::from_bytes(&bytes, &mut offset).unwrap();
    assert!(matches!(c.contents, ChunkContents::Pop));
    assert!(matches!(Chunk::from_bytes(&bytes, &mut offset), Err(ParseErr::EndChunk)));
}

#[test]
fn page_header_fields() {
    let bytes = page_bytes(1, 77, &[]);
    let header = PageHeader::from_bytes(&bytes).unwrap();
    assert_eq!(header.next, 77);
    assert!(matches!(header.page_type, BlockType::Index));
    let mut bad = bytes;
    bad[13] = 9;
    assert!(matches!(PageHeader::from_bytes(&bad), Err(PageHeaderErr::InvalidPageType(0, 77))));
}

#[test]
fn store_gives_back_stored_page() {
    let mut store = PageStore::new();
    assert!(store.get("a".to_string(), 3).is_none());
    let page = Page::from_bytes(&page_bytes(0, 5, &[0x80]));
    store.put("a".to_string(), 3, &page);
    assert_eq!(store.get("a".to_string(), 3).unwrap().header.next, 5);
    assert!(store.get("b".to_string(), 3).is_none());
    // A page already stored is kept.
    let other = Page::from_bytes(&page_bytes(0, 9, &[0x80]));
    store.put("a".to_string(), 3, &other);
    assert_eq!(store.get("a".to_string(), 3).unwrap().header.next, 5);
    assert!(store.get_root("a".to_string()).is_none());
}

#[test]
fn key_in_page_found_and_missing() {
    let bytes = page_bytes(0, 0, &[0x20, 3, 0x20, 17, 0x01, 5, 9, 0x3d, 0x3d]);
    let key = HBAMPath::new(vec![&[3], &[17], &[5]]);
    let kv = search_key_in_page(&key, &bytes).unwrap().unwrap();
    assert_eq!(kv.value, vec![9]);
    let missing = HBAMPath::new(vec![&[3], &[17], &[6]]);
    assert!(search_key_in_page(&missing, &bytes).unwrap().is_none());
    let long_suffix = HBAMPath::new(vec![&[3], &[1, 2, 3]]);
    assert!(matches!(search_key_in_page(&long_suffix, &bytes), Err(BPlusTreeErr::EmptyKey)));
}

fn index_page() -> Page {
    // Directory [3].[17] holds the children: key 0 in page 64, key 5 in page 70.
    Page::from_bytes(&page_bytes(3, 0, &[0x20, 3, 0x20, 17, 0x03, 0, 0, 0, 0, 64, 0x03, 5, 0, 0, 0, 70]))
}

#[test]
fn index_page_chooses_child() {
    let key = HBAMPath::new(vec![&[3], &[17], &[0]]);
    assert_eq!(search_index_page(&key, index_page()).unwrap(), 64);
    let key = HBAMPath::new(vec![&[3], &[17], &[0, 1]]);
    assert_eq!(search_index_page(&key, index_page()).unwrap(), 70);
    // Past the last reference the scan meets the end of the chunks and
    // settles on the last child seen.
    let key = HBAMPath::new(vec![&[3], &[17], &[9]]);
    assert_eq!(search_index_page(&key, index_page()).unwrap(), 70);
    // A key before every entry of the directory goes to the first child.
    let key = HBAMPath::new(vec![&[2]]);
    assert_eq!(search_index_page(&key, index_page()).unwrap(), 1);
}

#[test]
fn lookup_walks_from_root_and_reports_missing_pages() {
    let file = "f";
    let key = HBAMPath::new(vec![&[3], &[17], &[0]]);
    let mut store = PageStore::new();
    assert!(matches!(search_key(&key, &store, file), Err(BPlusTreeErr::PageNotFound(1))));
    store.put(file.to_string(), 1, &index_page());
    assert!(matches!(search_key(&key, &store, file), Err(BPlusTreeErr::PageNotFound(64))));
    let data = Page::from_bytes(&page_bytes(0, 0, &[0x20, 3, 0x20, 17, 0x01, 0, 42]));
    store.put(file.to_string(), 64, &data);
    let kv = get_keyvalue(&key, &store, file).unwrap().unwrap();
    assert_eq!(kv.value, vec![42]);
    assert!(matches!(get_keyvalue(&HBAMPath::new(vec![]), &store, file), Err(BPlusTreeErr::EmptyKey)));
}

#[test]
fn lookup_refuses_a_cycle() {
    let file = "g";
    let mut store = PageStore::new();
    // Root and page 2 are index pages whose only child is each other.
    let root = Page::from_bytes(&page_bytes(3, 0, &[0x01, 9, 2]));
    let second = Page::from_bytes(&page_bytes(1, 0, &[0x01, 9, 2]));
    store.put(file.to_string(), 1, &root);
    store.put(file.to_string(), 2, &second);
    let key = HBAMPath::new(vec![&[1]]);
    assert!(matches!(search_key(&key, &store, file), Err(BPlusTreeErr::PageCycle(2))));
}

#[test]
fn view_collects_directory() {
    let file = "v";
    let mut store = PageStore::new();
    let chunks = [
        0x20, 3, 0x20, 16, 0x20, 5, 0x20, 129, 0x01, 16, 0x41, 0x3d, 0x3d, 0x20, 17, 0x80,
    ];
    store.put(file.to_string(), 1, &Page::from_bytes(&page_bytes(0, 0, &chunks)));
    let key = HBAMPath::new(vec![&[3], &[16], &[5]]);
    let view = get_view_from_key(&key, &store, file).unwrap().unwrap();
    assert_eq!(view.chunks.len(), 4);
    assert_eq!(view.get_value(16).unwrap(), &[0x41]);
    assert!(view.get_value(17).is_none());
    let missing = HBAMPath::new(vec![&[4]]);
    assert!(get_view_from_key(&missing, &store, file).unwrap().is_none());
}

#[test]
fn listing_gives_each_chunk_with_its_directory() {
    let bytes = page_bytes(0, 0, &[0x20, 3, 0x20, 17, 0x01, 5, 9, 0x3d, 0xC1, 6, 7, 0x20, 4]);
    let (entries, complete) = list_page(&bytes);
    assert!(complete);
    assert_eq!(entries.len(), 6);
    let dirs: Vec<Vec<Vec<u8>>> = entries.iter().map(|e| e.0.components.clone()).collect();
    assert_eq!(
        dirs,
        vec![vec![], vec![vec![3]], vec![vec![3], vec![17]], vec![vec![3], vec![17]], vec![vec![3]], vec![]]
    );
    assert!(matches!(entries[2].1.contents, LocalChunkContents::SimpleRef { key: 5, ref data } if *data == vec![9]));
    assert!(entries[4].1.delayed);
}

#[test]
fn listing_stops_at_an_unknown_code() {
    let bytes = page_bytes(0, 0, &[0x20, 3, 0x3E, 0x20, 4]);
    let (entries, complete) = list_page(&bytes);
    assert!(!complete);
    assert_eq!(entries.len(), 1);
}

#[test]
fn chunk_paths_follow_pushes_and_pops() {
    let bytes = page_bytes(0, 0, &[0x20, 3, 0x20, 17, 0x01, 5, 9, 0x3d, 0x20, 4]);
    let (entries, _) = list_page(&bytes);
    let chunks: Vec<_> = entries.into_iter().map(|e| e.1).collect();
    let paths = chunk_paths(&HBAMPath::new(vec![&[1]]), &chunks);
    let dirs: Vec<Vec<Vec<u8>>> = paths.iter().map(|p| p.components.clone()).collect();
    assert_eq!(
        dirs,
        vec![
            vec![vec![1], vec![3]],
            vec![vec![1], vec![3], vec![17]],
            vec![vec![1], vec![3], vec![17]],
            vec![vec![1], vec![3]],
            vec![vec![1], vec![3], vec![4]],
        ]
    );
}

#[test]
fn more_pages_keep_a_found_value() {
    let file = "m";
    let key = HBAMPath::new(vec![&[3], &[17], &[0]]);
    let mut store = PageStore::new();
    store.put(file.to_string(), 1, &index_page());
    let data = Page::from_bytes(&page_bytes(0, 0, &[0x20, 3, 0x20, 17, 0x01, 0, 42]));
    store.put(file.to_string(), 64, &data);
    let first = get_keyvalue(&key, &store, file).unwrap().unwrap();
    store.put(file.to_string(), 70, &Page::from_bytes(&page_bytes(0, 0, &[0x80])));
    store.put("other".to_string(), 1, &index_page());
    let again = get_keyvalue(&key, &store, file).unwrap().unwrap();
    assert_eq!(first.value, again.value);
    assert_eq!(again.value, vec![42]);
}

#[test]
fn checked_listing_reports_a_chunk_past_the_page() {
    let mut bytes = page_bytes(0, 0, &[0x20, 3]);
    assert!(!chunk_would_panic(&bytes, 20));
    assert!(list_page_checked(&bytes).is_some());
    bytes[4095] = 0x10;
    assert!(chunk_would_panic(&bytes, 4094));
    assert!(!chunk_would_panic(&bytes, 20));
    assert!(chunk_would_panic(&bytes, 4096));
    assert!(list_page_checked(&bytes).is_none());
}

#[test]
fn tree_walk_follows_the_chain() {
    let header = |next: u32| PageHeader::from_bytes(&page_bytes(0, next, &[])).unwrap();
    let page = Page { header: header(5), data: page_bytes(0, 5, &[0x20, 3, 0x3d]) };
    let (entries, next, go_on) = tree_walk_step(&page).unwrap();
    assert_eq!(entries.len(), 2);
    assert_eq!(next, 5);
    assert!(go_on);
    let last = Page { header: header(0), data: page_bytes(0, 0, &[0x20, 3]) };
    assert!(!tree_walk_step(&last).unwrap().2);
    let broken = Page { header: header(7), data: page_bytes(0, 7, &[0x20, 3, 0x3E]) };
    let (entries, next, go_on) = tree_walk_step(&broken).unwrap();
    assert_eq!(entries.len(), 1);
    assert_eq!(next, 7);
    assert!(!go_on);
}

#[test]
fn checked_lookup_reports_a_chain_that_loops() {
    let file = "c";
    let mut store = PageStore::new();
    let key = HBAMPath::new(vec![&[3], &[7]]);
    // Two data pages that follow each other, neither holding the key.
    store.put(file.to_string(), 1, &Page::from_bytes(&page_bytes(0, 2, &[0x20, 3])));
    store.put(file.to_string(), 2, &Page::from_bytes(&page_bytes(0, 1, &[0x20, 4])));
    assert!(search_key_checked(&key, &store, file).is_none());
    assert!(get_keyvalue_checked(&key, &store, file).is_none());
    // With the key on the second page the lookup ends.
    let mut found = PageStore::new();
    found.put(file.to_string(), 1, &Page::from_bytes(&page_bytes(0, 2, &[0x20, 3])));
    found.put(file.to_string(), 2, &Page::from_bytes(&page_bytes(0, 1, &[0x20, 3, 0x01, 7, 5])));
    let kv = get_keyvalue_checked(&key, &found, file).unwrap().unwrap().unwrap();
    assert_eq!(kv.value, vec![5]);
    // A missing page is still reported by number.
    let mut partial = PageStore::new();
    partial.put(file.to_string(), 1, &Page::from_bytes(&page_bytes(0, 9, &[0x20, 3])));
    assert!(matches!(search_key_checked(&key, &partial, file), Some(Err(BPlusTreeErr::PageNotFound(9)))));
}

#[test]
fn checked_page_searches_report_reading_past_the_page() {
    let key = HBAMPath::new(vec![&[3], &[7]]);
    let mut bytes = page_bytes(0, 0, &[0x80; 4075]);
    assert!(matches!(search_key_in_page_checked(&key, &bytes), Some(Ok(None))));
    bytes[4095] = 0x10;
    assert!(search_key_in_page_checked(&key, &bytes).is_none());
    let page = Page::from_bytes(&bytes);
    assert!(search_index_page_checked(&key, &page).is_none());
    assert!(matches!(search_index_page_checked(&key, &index_page()), Some(_)));
}
