pub mod application;
pub mod config;
pub mod cursors;
pub mod domain;
pub mod error;
pub mod fingerprint;
pub mod httpapi;
pub mod ids;
pub mod keys;
pub mod scan;
pub mod storage;
pub mod text;
pub mod time;
pub mod workflow;
