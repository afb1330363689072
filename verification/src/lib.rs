//! The verified core of the henge desktop shell: the input word, its
//! bindings and the key slots a tick reads, the word each seat puts on the
//! wire, the framebuffer's blits and bitmap text, the lobby's state machine
//! and layout, the modal screens, the bout's decisions, the command line,
//! and the few screens whose arithmetic stands apart from the assets.

pub mod args;
pub mod chars;
pub mod clock;
pub mod framebuffer;
pub mod input;
pub mod keys;
pub mod map;
pub mod modal;
pub mod online;
pub mod place;
pub mod shell;
pub mod slots;
pub mod sprite;
pub mod status;
pub mod text;
pub mod town;
pub mod world;
