//! The core of a tiling window manager for X11: the focus-aware stack, the
//! layouts, the groups of windows, the screen with its docks, the key table and
//! the workspace manager that turns display events into requests to the
//! display driver.
//!
//! Nothing here talks to a display server. What the manager wants done it hands
//! out as values of [`x::Request`], in order; what the server has to be asked
//! first is handed in as plain values.

pub mod cmd;
pub mod debug;
pub mod errors;
pub mod groups;
pub mod keys;
pub mod layout;
pub mod manager;
mod names;
pub mod screen;
pub mod stack;
pub mod x;

pub use groups::GroupBuilder;
pub use keys::ModKey;
pub use manager::Lanta;
pub use screen::Viewport;
pub use stack::Stack;
