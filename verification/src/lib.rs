//! A workflow engine library: stateful processing steps composed into
//! directed graphs, with a conditional DAG traversal engine and a
//! bulk-synchronous (Pregel-style) message-passing engine, both operating
//! on a shared state container.

pub mod error;
pub mod value;
pub mod state;
pub mod text;
pub mod reach;
pub mod graph;
pub mod pregel;
pub mod serialization;
pub mod schema;
pub mod llms;
pub mod vectorstores;
pub mod utils;
pub mod checkpoint;
pub mod document_loaders;
pub mod text_splitters;
pub mod prompts;
