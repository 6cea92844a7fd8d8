//! Dead store elimination for a stack-less bytecode, together with the
//! decision logic of a binary self-updater and of a file-store tailer.
//!
//! The core is [`dead_store_elimination`]: it builds a definition-use graph
//! from a function's code and its live-variable annotation, extracts from it
//! the offsets of the stores that nothing observes, and rewrites the code
//! without them.
pub mod bytecode;
pub mod dead_store_elimination;
pub mod def_use;
pub mod def_use_graph;
pub mod extraction;
pub mod file_store;
pub mod function_target;
pub mod livevar;
pub mod update;
