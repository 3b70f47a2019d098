//! Schemas of resources: what fields they have and of which type.

pub mod error;
pub mod fetch;
pub mod field;
pub mod lookup;
pub mod openapi;
pub mod v2;
pub mod v3;
