//! Verified core of a terminal theme switcher.
//!
//! The library holds the logic of the tool: choosing a legible foreground
//! color for a theme's background color, extracting that background color
//! from the lines of a theme file, patching the import line of a
//! configuration file, parsing the user's menu selection, and laying out
//! the selection menu. All file and console handling stays outside.

pub mod color;
pub mod config;
pub mod extract;
pub mod select;
pub mod themes;
