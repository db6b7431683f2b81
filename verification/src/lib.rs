//! Model layer of a terminal browser over a reference-management database:
//! the collection forest, the document index with its filtered and sorted
//! view, and the pane focus controller. Every function carries a contract
//! that Verus proves.

pub mod app;
pub mod collection_laws;
pub mod collection_tree;
pub mod data_structures;
pub mod event;
pub mod handler;
pub mod matching;
pub mod sorting;
pub mod text;
pub mod ui;
pub mod view_laws;
