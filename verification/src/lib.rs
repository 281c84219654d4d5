//! Verified state, navigation and editing logic of the gpuicn component registry.
//!
//! Rendering belongs to the host UI toolkit; this crate owns the decisions the
//! components make: editing text, navigating menus and selectors, trapping modal
//! focus, resolving registry dependencies and validating installed sources.
#![allow(unused_imports)]

pub mod sidebar;
pub mod text;
pub mod segmentation;
pub mod editing;
pub mod names;
pub mod registry;
pub mod install;
pub mod publish;
pub mod source;
pub mod adoption;
pub mod clock;
pub mod menu;
pub mod select;
pub mod focus;
pub mod controls;
pub mod theme;
