//! Verified core of the ClawPanel desktop companion for OpenClaw.
pub mod text;
pub mod num;
pub mod json;
pub mod uifields;
pub mod version;
pub mod providers;
pub mod messaging;
pub mod pairing;
pub mod sync;
pub mod install;
pub mod vision;
pub mod memory;
pub mod backups;
pub mod skills;
pub mod panel;
