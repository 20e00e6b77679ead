//! A terminal music library: searching, downloading, organising and playing tracks.

pub mod chapters;
pub mod config;
pub mod db;
pub mod download;
pub mod gather;
pub mod install;
pub mod json;
pub mod like;
pub mod model;
pub mod order;
pub mod paths;
pub mod pipeline;
pub mod player;
pub mod process;
pub mod report;
pub mod scan;
pub mod seconds;
pub mod selection;
pub mod source;
pub mod storage;
pub mod text;
pub mod tools;
pub mod tui;
