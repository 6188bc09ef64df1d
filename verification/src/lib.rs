//! The rules of a small file hosting service.

pub mod admin;
pub mod ban_cache;
pub mod bytes;
pub mod challenge;
pub mod clamd;
pub mod cli;
pub mod db;
pub mod dedup;
pub mod handlers;
pub mod http;
pub mod ids;
pub mod import;
pub mod import_laws;
pub mod intake;
pub mod ip;
pub mod ip_text;
pub mod ip_text_laws;
pub mod link;
pub mod media;
pub mod model;
pub mod names;
pub mod nsfw;
pub mod pow;
pub mod rate_limit;
pub mod screening;
pub mod settings;
pub mod sync;
pub mod text;
pub mod text_laws;
pub mod timestamp;
pub mod ttl_cache;
pub mod upload;
pub mod upload_log;
pub mod util;
