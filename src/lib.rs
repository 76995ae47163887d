//! Runtime of a keybinding-driven menu that assembles and runs shell command
//! lines: the argument model, the menu model, the key dispatcher, the page
//! stack and the memo of background work, with the parsers for what helper
//! programs print.
pub mod command_line;
pub mod cp;
pub mod data;
pub mod direnv;
pub mod input;
pub mod multi_term;
pub mod pick;
pub mod resolver;
pub mod shell_context;
pub mod text;
pub mod ui;
pub mod util;
