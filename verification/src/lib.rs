//! YAML for any Kubernetes resource or CRD, from the OpenAPI schema of the cluster that serves it.
//!
//! The library holds everything that is decided and computed on the way from a command line to a
//! YAML document, and what it does is proved. What it asks of the world, it hands out as values and
//! takes back as values: requests to the API server ([`discovery`], [`schema::fetch`]) and questions
//! to the user ([`interactive`]). What it promises as a whole stands in [`laws`].

pub mod cli;
pub mod discovery;
pub mod generate;
pub mod interactive;
pub mod json;
pub mod laws;
pub mod request;
pub mod schema;
pub mod text;
pub mod value;
pub mod yaml;
