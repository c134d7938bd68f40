//! Verified core of the Dips++ game server: scene-flag packing, wire framing,
//! version checks, caching and the data analysis behind the server's replies.
pub mod context_flags;
pub mod text;
pub mod version;
pub mod consts;
pub mod router;
pub mod wire;
pub mod cache_util;
pub mod clean_db;
pub mod queries;
pub mod session;
pub mod web;
pub mod ids;
pub mod donations;
pub mod read_loop;
