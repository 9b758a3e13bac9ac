pub mod api;
pub mod bplustree;
pub mod chunk;
pub mod page;
pub mod page_store;
pub mod path;
pub mod view;
