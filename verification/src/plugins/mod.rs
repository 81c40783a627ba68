//! Optional panels of the editor.

pub mod logs;
