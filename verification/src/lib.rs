//! Typed fluent builder for UI trees destined for a foreign rendering
//! library.
//!
//! The builder performs no layout and no rendering of its own: it
//! normalizes typed arguments (style enums to their canonical string
//! tokens, select options to the array-of-records wire shape, callbacks
//! to stable registry handles) and records, in order, exactly the
//! construction calls that the foreign renderer is to receive.  The
//! resulting command trace, together with a mount selector, is handed to
//! an unverified shim that replays it across the foreign-function
//! boundary one call per command.

pub mod builder;
pub mod json;
pub mod types;

pub use builder::CmdView;
pub use builder::RenderPlan;
pub use builder::UiBuilder;
pub use builder::UiCommand;
pub use types::AlertType;
pub use types::ButtonVariant;
pub use types::InputType;
pub use types::SelectOption;
pub use types::TextLevel;
