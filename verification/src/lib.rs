//! Core of a proxy auto-configuration (PAC) service: an ordered, duplicate-free
//! hostname whitelist; a deterministic PAC-script generator whose artifacts are
//! addressed by a content hash; an artifact cache with a separate "latest"
//! pointer; the debounce state machine that coalesces bursts of whitelist
//! changes into single regeneration passes; and the bearer-credential gate that
//! guards mutating requests.

pub mod auth;
pub mod coalesce;
pub mod error;
pub mod host_order;
pub mod pac;
pub mod storage;
pub mod web;
