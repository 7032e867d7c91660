//! The state that the type checker keeps.

pub mod context;
pub mod fresh;
pub mod state;
