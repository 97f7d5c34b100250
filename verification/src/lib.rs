//! A dismissible help overlay for a terminal user interface.
//!
//! The library renders a bordered panel that lists the available
//! slash-commands (sorted, one line each) together with a fixed block of
//! keyboard shortcuts, reports how many rows it needs, and tracks a single
//! piece of state: whether the user has dismissed the overlay.

pub mod content;
pub mod keys;
pub mod tui;
pub mod view;

pub use content::CommandEntry;
pub use keys::KeyPress;
pub use view::HelpModalView;
pub use view::ModalView;
