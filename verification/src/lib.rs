//! A local skill inventory and remote-registry synchronization engine.
//!
//! Skills are instruction and configuration artifacts consumed by AI coding
//! assistants. They live as files or folders under per-tool configuration
//! directories. This library discovers and normalizes them into one unified
//! model, fetches and caches remote registry manifests, keeps a ledger of
//! installed skills, and applies updates and rollbacks with
//! backup-before-mutate semantics.
//!
//! All filesystem state is modelled explicitly as an [`fsmodel::FsState`]
//! value, so every rule of the engine is stated and verified over that model;
//! the thin outer layer that mirrors the model to the real disk and network
//! lives outside this crate.

pub mod agent;
pub mod error;
pub mod external;
pub mod fsmodel;
pub mod paths;
pub mod registry;
pub mod scanner;
pub mod skill;
pub mod store;
pub mod templates;
pub mod text;
pub mod update;
pub mod urls;
pub mod vault;
pub mod version;

pub use error::AppError;
