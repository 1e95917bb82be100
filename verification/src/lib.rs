//! Core logic of a game-version launcher: version catalogs, artifact
//! metadata, platform rule filtering, library/asset delivery planning,
//! toolchain discovery, and launch argument composition.
use vstd::prelude::*;

pub mod archive;
pub mod auth;
pub mod catalog;
pub mod config;
pub mod delivery;
pub mod digest;
pub mod errors;
pub mod fabric;
pub mod installations;
pub mod java;
pub mod launch;
pub mod listmap;
pub mod meta;
pub mod metadata;
pub mod platform;
pub mod strutil;
pub mod toolchain;
pub mod ziputil;

verus! {

} // verus!
