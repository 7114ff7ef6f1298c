//! The Package Environment System: semantic versions with release types and
//! variants, version ranges, the grammar of package requests and environment
//! paths, package manifests and lock files.
pub mod error;
pub mod release_type;
pub mod text;
pub mod semantic_version;
pub mod variant;
pub mod range;
pub mod constants;
pub mod parser;
pub mod env;
pub mod distribution;
pub mod distribution_range;
pub mod ordered_map;
pub mod manifest;
pub mod lock;
pub mod solve;
pub mod repository;
pub mod jsys;
pub mod shell;
pub mod finders;
pub mod index_map;
pub mod presentation;
