//! Core logic of the Protobuf Library Manager: library names, dependency
//! graphs, version resolution, configuration files and registry settings.

pub mod auth;
pub mod cli;
pub mod client;
pub mod configs;
pub mod dag;
pub mod errors;
pub mod fields;
pub mod fs;
pub mod lock;
pub mod store;
pub mod order;
pub mod ppm;
pub mod registry;
pub mod service;
pub mod text;
pub mod versioning;
