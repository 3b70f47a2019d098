//! What holds of the library whatever it is given, proved from what its functions are specified to
//! do.

pub mod cli;
pub mod dialogue;
pub mod document;
pub mod fetching;
pub mod json;
pub mod positions;
pub mod resources;
pub mod text;
pub mod v2;
pub mod v3;
pub mod views;
pub mod yaml;
