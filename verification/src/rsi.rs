//! The RSI sprite-sheet interchange format: a versioned JSON manifest
//! (`meta.json`) bundled with one atlas PNG per animation state. This module
//! parses and validates the manifest, slices the atlases into per-direction,
//! per-frame sub-images with timing data, and models the resulting document.

pub mod constants;
pub mod enums;
pub mod error;
pub mod helpers;
pub mod meta;
pub mod images;
pub mod laws;
pub mod state;
pub mod rsi;

pub use self::constants::{MAXIMUM_RSI_VERSION, MINIMUM_RSI_VERSION};
pub use self::enums::{RsiFlags, RsiSelectors};
pub use self::error::RsiError;
pub use self::helpers::full_state_name;
pub use self::rsi::{Rsi, RsiRef, StateId};
pub use self::state::State;
