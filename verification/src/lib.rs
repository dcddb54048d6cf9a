//! Release selection, version handling and integrity checks for the
//! Rustinel EDR sensor updater.
pub mod text;
pub mod url;
pub mod version;
pub mod order;
pub mod platform;
pub mod manifest;
pub mod checksum;
pub mod download;
pub mod archive;
pub mod updater;
pub mod signature;
