//! Selective editing of XML-like game data files: leaf values are extracted
//! with their element paths, edited by the caller, and written back into the
//! document while the rest of the markup is copied through.

pub mod config;
pub mod document;
pub mod events;
pub mod file_manager;
pub mod laws;
pub mod path;
pub mod session;
pub mod text;
pub mod values;
pub mod walk;
pub mod xml_handler;
