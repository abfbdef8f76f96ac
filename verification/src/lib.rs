//! Verified core of a small system package manager: dependency-constraint
//! parsing, semantic version ordering, archive hashing and extraction,
//! manifest parsing, repository index queries, the local package database,
//! and the install/remove transaction state machines.
use vstd::prelude::*;

pub mod archive;
pub mod chars;
pub mod db;
pub mod install;
pub mod manifest;
pub mod query;
pub mod remove;
pub mod repo;
pub mod version;

verus! {

} // verus!
