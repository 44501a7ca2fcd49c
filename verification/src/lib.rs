//! Readers for the files written by the Fire Dynamics Simulator (FDS): the `.smv`
//! overview file, device CSV files and binary slice files, with the small numeric
//! helpers they share.
pub mod geom;
pub mod common;
pub mod formats;
pub mod text;
pub mod cached;
pub mod file;
pub mod series_label;
