//! Verified core of the Shelf media library.
pub mod text;
pub mod models;
pub mod pdf;
pub mod jobs;
pub mod paths;
pub mod media;
pub mod tunnel;
pub mod lan;
pub mod auth;
pub mod http;
pub mod index;
pub mod translate;
pub mod ocr;
pub mod db;
pub mod watch;
pub mod keep_awake;
pub mod chapter;
pub mod settings;
