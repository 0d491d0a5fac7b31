use vstd::prelude::*;

verus! {

pub const RESET: &'static str = "\x1b[0m";

pub const BOLD: &'static str = "\x1b[1m";

pub const DIM: &'static str = "\x1b[2m";

pub const ITALIC: &'static str = "\x1b[3m";

pub const STRIKETHROUGH: &'static str = "\x1b[9m";

pub const HEADING_COLOR: &'static str = "\x1b[38;5;40m";

pub const LINK_COLOR: &'static str = "\x1b[34m";

pub const CODE_COLOR: &'static str = "\x1b[38;5;111m";

pub const STRONG_COLOR: &'static str = "\x1b[33m";

pub const MARKER_COLOR: &'static str = "\x1b[35m";

pub const BULLET: &'static str = "▸";

pub const FILL: &'static str = "─";

pub const QUOTE_BAR: &'static str = "│ ";

} // verus!
