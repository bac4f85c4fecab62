//! An in-memory employee directory: departments hold lists of employee
//! names, and a small command grammar drives creation, deletion and
//! alphabetically sorted listings.

pub mod command;
pub mod directory;
pub mod laws;
pub mod render;
pub mod sorting;
pub mod text;
