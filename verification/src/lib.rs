//! Local Words: the data model and rules behind a localisation editor.

mod externals;
pub mod text;
pub mod languages;
pub mod writer;
pub mod tags;
pub mod vrt;
pub mod loader;
pub mod translation;
pub mod dictionary;
pub mod settings;
pub mod session;
pub mod interface;
pub mod file_loader;
pub mod sheet_refs;
