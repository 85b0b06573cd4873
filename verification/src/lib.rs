//! A read-only client for CernVM-FS repositories.
//!
//! A repository is a tree of catalogs, each an SQLite file that describes
//! one subtree, and a store of objects that are named by their content
//! hashes. This crate reads manifests, keeps catalogs, finds the entry of a
//! path, and says where the content of a file is found and how to read it.
//! It touches neither network nor disk: whoever uses it fetches the files
//! and hands in what they hold.

pub mod cache;
pub mod catalog;
pub mod certificate;
pub mod chunked_file;
pub mod common;
pub mod decimal;
pub mod digest;
pub mod directory_entry;
pub mod fetcher;
pub mod file_system;
pub mod history;
pub mod manifest;
pub mod repository;
pub mod revision;
pub mod revision_tag;
pub mod root_file;
pub mod text;
pub mod time;
