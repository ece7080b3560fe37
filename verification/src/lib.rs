//! cuvm: the verified core of a CUDA toolkit version manager.
pub mod candidate;
pub mod commands;
pub mod compat_adapter;
pub mod compat_engine;
pub mod compat_tables;
pub mod composition;
pub mod cudnn;
pub mod doctor;
pub mod domain;
pub mod env_plan;
pub mod error;
pub mod install;
pub mod list;
pub mod manifest;
pub mod nccl;
pub mod payloads;
pub mod pick;
pub mod ports;
pub mod process_env;
pub mod reporter;
pub mod resolver;
pub mod self_update;
pub mod shims;
pub mod text;
pub mod version;
