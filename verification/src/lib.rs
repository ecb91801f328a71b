//! Todo-list logic: the todo file format, filtering, project lists and
//! the status texts shown by the bar module and the tray icon.

pub mod text;
pub mod todo;
pub mod state;
pub mod status;
pub mod ui;
pub mod cli;
