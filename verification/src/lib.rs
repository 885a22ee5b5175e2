//! Library for an interactive cleaner of GGUF model files: a classifier that
//! recognises the file format by its leading magic bytes, and the selection
//! model that the interactive front end mutates (recording scan progress,
//! moving a cursor, toggling selections, and deleting the selected files
//! through an external removal primitive).

pub mod classify;
pub mod model;
