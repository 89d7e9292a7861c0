//! State model and event dispatch of a terminal snippet manager: the snippet
//! list with its category index, the input-mode machine with its key table
//! and search buffer, and the producer's tick clock.

pub mod app;
pub mod data;
pub mod event;
pub mod keys;
pub mod search_input;

pub use app::{Action, App, AppError, AppInputMode, Commands, State};
pub use data::{Category, Snippet};
pub use event::{Event, TickClock};
pub use keys::{Key, KeyInput, KeyKind};
