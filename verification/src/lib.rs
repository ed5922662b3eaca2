//! Core logic of a multi-window sticky-note application: window-snapping
//! geometry, the save-collection rendezvous protocol, the window registry,
//! focus cycling, and the persistence rules for notes and the color palette.

pub mod coordinator;
pub mod cycling;
pub mod geometry;
pub mod notes;
pub mod registry;
pub mod store;

pub use geometry::window_overlap;
