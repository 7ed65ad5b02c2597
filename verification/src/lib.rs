//! cbx: a verified core for exploring CBOR data embedded in arbitrary bytes.
mod value;
pub use value::CborValue;

pub mod input;
pub mod config;
pub mod util;
pub mod config_store;
pub mod text;
pub mod cbor_parser;
pub mod scanner;
pub mod cbor_tree;
pub mod nodes;
pub mod ui;
pub mod app;
pub mod search;
pub mod zoom;
pub mod size;
pub mod display;
pub mod browser;
pub mod theme;
