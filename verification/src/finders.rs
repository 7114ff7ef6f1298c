//! Finding package repositories and the manifest of a distribution. Each
//! deployment may lay these out its own way; the services here are the default
//! ones for development.
pub mod service;
pub mod repo;
pub mod manifest;
