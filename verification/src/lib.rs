use vstd::prelude::*;

pub mod app;
pub mod cache;
pub mod counting;
pub mod db;
pub mod error;
pub mod graph;
pub mod index;
pub mod indexer;
pub mod model;
pub mod nix_derivation;
pub mod nixos_search;
pub mod options;
pub mod order;
pub mod search;
pub mod strtable;
pub mod text;
pub mod ui;
pub mod web;

verus! {

} // verus!
