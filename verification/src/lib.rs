//! Verified core of the metafield / metaobject definition sync tool.

pub mod text;
pub mod maps;
pub mod sorting;
pub mod model;
pub mod metafields;
pub mod metaobjects;
pub mod error;
pub mod domain;
pub mod logging;
pub mod validation;
pub mod metafield_config;
pub mod ports;
pub mod config;
pub mod infra;
pub mod startup;
