//! Verified core of the OpenForge patcher and client: byte-level search and
//! replacement, Electron fuse wires, ASAR archive framing, patch rules and the
//! small decision functions of the mod client.

pub mod text;
pub mod number;
pub mod chars;
pub mod search;
pub mod literal;
pub mod ascii;
pub mod integrity;
pub mod fuses;
pub mod asar;
pub mod pack;
pub mod extract;
pub mod icon;
pub mod inspect;
pub mod portable;
pub mod setup;
pub mod listing;
pub mod cli;
pub mod config;
pub mod launcher;
pub mod modpack;
pub mod installer;
pub mod error;
pub mod digest;
pub mod rules;
pub mod pattern;
pub mod patch;
pub mod json;
pub mod brand;
pub mod paths;
pub mod games;
pub mod models;
pub mod resolver;
pub mod api;
pub mod console;
