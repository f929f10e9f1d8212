//! Lifecycle and change-notification core of a 3D viewer engine: a registry of
//! subsystems, handler lists with enable flags, observable maps and sets, and
//! the teardown of mesh trees.
//!
//! Shared state is owned, not aliased: each aggregate holds its own event
//! table, and handlers and worlds are referred to by identifiers.
pub mod base;
pub mod clock;
pub mod components;
pub mod data_map;
pub mod data_set;
pub mod disposer;
pub mod element;
pub mod event;
pub mod interfaces;
pub mod model_id_map;
pub mod renderer;
pub mod scene;
pub mod uuid;
pub mod world;
pub mod world_item;
pub mod xml;
