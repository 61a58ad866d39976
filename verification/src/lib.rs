//! Transactional software installer core: version model, dependency
//! resolution, rollback journal and the installation orchestrator.

pub mod cli;
pub mod command;
pub mod config;
pub mod installer;
pub mod journal;
pub mod packager;
pub mod platform;
pub mod resolver;
pub mod text;
pub mod version;
pub mod version_order;
