//! Core of a retained-mode UI toolkit: a generational entity store, a tree of
//! parent/child relationships, sparse per-entity style storage with rule and
//! inheritance resolution, a lens/binding reactivity engine, a fixed-order
//! per-frame system pipeline, and a queue-based event dispatcher with
//! capture/bubble propagation.

pub mod accessibility;
pub mod binding;
pub mod context;
pub mod datepicker;
pub mod entity;
pub mod events;
pub mod gradient;
pub mod pipeline;
pub mod style;
pub mod tree;
