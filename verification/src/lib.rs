//! Data ingestion and ranking engine for a team-composition build planner.
//!
//! The engine turns a raw game-data document into a validated champion
//! roster and item catalog, keeps per-champion build state and a component
//! inventory, and ranks champions by how well their assigned items match
//! the owned components.  All state lives in plain values; fetching the
//! document, decoding images and drawing the interface are left to the
//! surrounding application.

pub mod domain;
pub mod ingest;
pub mod inventory;
pub mod rank;
pub mod store;
pub mod text;
