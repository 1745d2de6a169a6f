//! Finds the places where the projects in a source tree ask for support.
//!
//! A tree is searched for two kinds of files: funding manifests
//! (`FUNDING.yml`), which declare funding platforms by name, and readme files
//! (`README.md`), in which links to such platforms stand in free text. What
//! is found is kept in a [`store::ResultStore`], one row for each dependency,
//! named after the directory that the file was found in.
//!
//! The library works on plain values: paths and file contents come in as
//! strings, and what was found goes out as rows of strings. Walking the tree,
//! reading files and printing are left to the caller.
//!
//! - [`walk`] picks the files worth reading out of the entries of a tree;
//! - [`paths`] names the dependency that a file belongs to;
//! - [`manifest`] reads a funding manifest;
//! - [`links`] finds support links in free text;
//! - [`store`] keeps the results;
//! - [`scan`] fills a store from the files;
//! - [`report`] lays the results out for a table or an export;
//! - [`text`] holds the operations on text that the others share.

pub mod links;
pub mod manifest;
pub mod paths;
pub mod report;
pub mod scan;
pub mod store;
pub mod text;
pub mod walk;
