//! Recovery of Snapchat Memories from a data export: the verified core.

pub mod db;
pub mod downloader;
pub mod folder;
pub mod metadata;
pub mod models;
pub mod parser;
pub mod paths;
pub mod pipeline;
pub mod services;
pub mod strmap;
pub mod text;
