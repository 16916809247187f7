//! Core of a small modal terminal text editor: the line buffer, the viewport
//! over it, the command algebra and its key decoding, and the editor state
//! machine that turns commands into refresh intents.

pub mod buffer;
pub mod command;
pub mod diff;
pub mod editor;
pub mod highlight;
pub mod layout;
pub mod view;
