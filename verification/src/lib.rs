//! Verified core of a Windows image fetcher and installer: catalogue parsing,
//! GUID and boot-device encoding, tool-output parsing, menu navigation,
//! checksum verification and update planning.

pub mod text;
pub mod api;
pub mod bcd;
pub mod catalog;
pub mod install;
pub mod update;
pub mod menu;
pub mod download;
pub mod wizard;
pub mod tools;
