//! An editor model for the `LS_COLORS` format: value codes, the colour table,
//! its text form, the commands that change it, and its grouped preview.

pub mod codec;
pub mod commands;
pub mod dispatch;
pub mod laws;
pub mod present;
pub mod table;
pub mod text;
pub mod types;

pub use codec::{create_ls_string, parse_values, SegmentError};
pub use commands::{add_action, remove_action, set_action, CommandError};
pub use dispatch::{parse_command, Command};
pub use present::{preview_groups, preview_lines};
pub use table::{ColorMap, LsItem};
pub use types::{Background, Color, ParseError, Style};
