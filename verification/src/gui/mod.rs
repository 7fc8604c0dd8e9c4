//! The game as a window shows it: what the window decides, apart from how
//! it draws.

pub mod gui_board;
