//! Resolution and loading of dynamic-library packs.
//!
//! A pack is described by manifests that name a library for each platform, and
//! the packs and libraries that it depends on. This library decides: what is to be
//! read, fetched, opened and called, in what order, and what follows on each
//! outcome. It touches neither the disk nor the network nor the linker: each of
//! its tasks says what it needs next, and goes on with the reply.
pub mod cached;
pub mod cached_laws;
pub mod dlmopen_laws;
pub mod download;
pub mod download_laws;
pub mod failure;
pub mod fetch_laws;
pub mod graph;
pub mod library;
pub mod linux_dlmopen;
pub mod listing_laws;
pub mod load;
pub mod load_laws;
pub mod manifest;
pub mod manifest_laws;
pub mod module_laws;
pub mod module_load;
pub mod native_load;
pub mod operation_laws;
pub mod order;
pub mod order_laws;
pub mod outcome_laws;
pub mod pack_url;
pub mod reach_laws;
pub mod resolve;
pub mod resolve_laws;
pub mod runtime;
pub mod schedule_laws;
pub mod sleep_lib;
pub mod sort_laws;
pub mod step_laws;
pub mod task_laws;
pub mod text;
pub mod text_laws;
pub mod walk;
pub mod walk_laws;
pub mod wasm;
