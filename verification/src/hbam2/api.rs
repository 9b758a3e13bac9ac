//! Key/value access to an HBAM file through its cached pages.

use vstd::prelude::*;
use super::bplustree::{key_lookup_ends, key_search_result, search_key, search_key_checked, BPlusTreeErr};
use super::page_store::PageStore;
use super::path::HBAMPath;

verus! {

pub type Key = Vec<String>;
pub type Value = String;

/// A key of the B+tree and the value stored under it.
#[derive(Debug, PartialEq, Eq)]
pub struct KeyValue {
    pub key: Vec<Vec<u8>>,
    pub value: Vec<u8>,
}

/// The value stored under `key` in `file`, looked up in the pages the store
/// holds; a page the lookup needs and the store lacks is reported as
/// `PageNotFound` with its number, so that the caller can load it and ask
/// again.
pub fn get_keyvalue(key: &HBAMPath, store: &PageStore, file: &str) -> (r: Result<Option<KeyValue>, BPlusTreeErr>)
    requires
        store.wf(),
        key@.len() > 0 ==> key_lookup_ends(*store, file@, key@),
    ensures
        key_search_result(*store, file@, key@, r),
{
    search_key(key, store, file)
}

/// `get_keyvalue` on any store: `None` where the lookup would index out of a
/// page or would follow the chain of data pages for ever.
pub fn get_keyvalue_checked(key: &HBAMPath, store: &PageStore, file: &str) -> (r: Option<Result<Option<KeyValue>, BPlusTreeErr>>)
    requires
        store.wf(),
    ensures
        (r is None) == (key@.len() > 0 && !key_lookup_ends(*store, file@, key@)),
        r matches Some(x) ==> key_search_result(*store, file@, key@, x),
{
    search_key_checked(key, store, file)
}

} // verus!
