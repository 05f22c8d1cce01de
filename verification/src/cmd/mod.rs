//! The command surface: the options each user command carries, and the
//! decisions they make that do not touch the transport.  Argument parsing
//! and the command loops themselves live outside; selections are built by
//! chaining the listing operations with these options.

pub mod check;
pub mod clean;
pub mod list;
pub mod push;
pub mod rename;
pub mod verify;
