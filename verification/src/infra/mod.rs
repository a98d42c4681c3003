//! Adapter logic: environment files, Shopify responses.

pub mod env_service;
pub mod dto;
pub mod shopify;
