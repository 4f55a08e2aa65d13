//! An operator-facing library for managing infrastructure stack deployments:
//! it resolves layered configuration files into flat deployment records,
//! builds the exact argument vectors for the external cloud tool's lifecycle
//! operations, and renders local intent and observed remote state as
//! canonical texts for drift comparison.

pub mod aws;
pub mod config;
pub mod helpers;
pub mod params;
pub mod text;
