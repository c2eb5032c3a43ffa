//! Version resolution and manifest reconciliation for a mod manager.
//!
//! The manifest (`Options`) pins a game version and lists the tracked mods.
//! `resolve` picks the artifact of a mod that fits the pinned version,
//! `reconcile` classifies search hits and installs or removes entries, and
//! `update` plans and applies the updates of stale mods.

pub mod structs;
pub mod text;
pub mod resolve;
pub mod reconcile;
pub mod update;
