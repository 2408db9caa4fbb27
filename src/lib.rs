//! Boot-time module mounting engine: inventory, mirror sync decisions, mount planning,
//! overlay staging, magic-mount trees, umount scheduling, snapshots and boot recovery.

pub mod analysis;
pub mod cli;
pub mod config;
pub mod executor;
pub mod hymo;
pub mod inventory;
pub mod magic;
pub mod module_info;
pub mod numbers;
pub mod overlay;
pub mod paths;
pub mod planner;
pub mod process;
pub mod recovery;
pub mod state;
pub mod storage;
pub mod sync;
pub mod text;
pub mod umount;
pub mod validation;
pub mod xattr;
