//! The library's main items under one path.
pub use crate::catalog::{Cost, Cosmetic, MatrixCores, Overclock, OverclockState};
pub use crate::error::SaveError;
pub use crate::save_file::{Brewing, Minerals, SaveFile};
