//! Verified core of an audiobook builder.
#![allow(unused_imports)]

pub mod audible;
pub mod building;
pub mod building_laws;
pub mod chapter;
pub mod chapter_file_laws;
pub mod chapter_import;
pub mod chapter_laws;
pub mod chapter_merge;
pub mod command_laws;
pub mod commands;
pub mod config;
pub mod files;
pub mod folder_laws;
pub mod listing_laws;
pub mod matching;
pub mod merge_laws;
pub mod metadata;
pub mod operation_laws;
pub mod paths;
pub mod patterns;
pub mod report;
pub mod scan_laws;
pub mod scanner;
pub mod selection;
pub mod text;
pub mod text_laws;
