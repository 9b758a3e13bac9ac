use cadmus::hbam2::api::{get_keyvalue, KeyValue};
use cadmus::hbam2::bplustree::BPlusTreeErr;
use cadmus::hbam2::page::Page;
use cadmus::hbam2::page_store::PageStore;
use cadmus::hbam2::path::HBAMPath;

/// A data page (no following page) holding the directory [3].[17].[1] with
/// the value 3 208 0 1 under the simple key 0.
fn blank_file_data_page() -> [u8; 4096] {
    let mut bytes = [0u8; 4096];
    let chunks: [u8; 12] = [0x20, 3, 0x20, 17, 0x20, 1, 0x03, 0, 3, 208, 0, 1];
    bytes[20..32].copy_from_slice(&chunks);
    bytes
}

#[test]
fn get_keyval_test() {
    let key = HBAMPath::new(vec![&[3], &[17], &[1], &[0]]);
    let expected = KeyValue { key: key.components.clone(), value: vec![3, 208, 0, 1] };

    let mut cache = PageStore::new();
    let file = "test_data/input/blank.fmp12";
    let result = loop {
        match get_keyvalue(&key, &cache, file) {
            Err(BPlusTreeErr::PageNotFound(n)) => {
                assert_eq!(n, 1);
                let page = Page::from_bytes(&blank_file_data_page());
                cache.put(file.to_string(), n as u64, &page);
            }
            other => break other.expect("Unable to get keyval"),
        }
    };

    assert_eq!(result, Some(expected));
}
