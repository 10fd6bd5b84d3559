//! Media library core: filename and folder-name grammars, title cleaning,
//! path handling, scan and organisation decisions, transcoding argument
//! plans, stream sessions, folder cleanup and metadata framing.

pub mod text;
pub mod pattern;
pub mod models;
pub mod parser;
pub mod config;
pub mod paths;
pub mod renamer;
pub mod mediainfo;
pub mod ffmpeg;
pub mod streaming;
pub mod titles;
pub mod scan;
pub mod shows;
pub mod nfo;
pub mod exporter;
pub mod notifications;
pub mod server;
pub mod maintenance;
pub mod hash;
pub mod cleanup;
pub mod subtitle_search;
pub mod analysis;
pub mod watchdog;
pub mod segment_files;
pub mod catalog;
pub mod webhook;
