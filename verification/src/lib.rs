//! Window-preview tracking engine: an event-driven state machine that keeps
//! one preview tile per tracked window, resolves initial tile placement from
//! persisted and session data, supports drag repositioning with edge snapping,
//! and cycles keyboard focus through a persisted character order.

pub mod charmap;
pub mod color;
pub mod cycle;
pub mod cycle_laws;
pub mod daemon;
pub mod engine;
pub mod icon;
pub mod profile;
pub mod resolver;
pub mod settings;
pub mod snap;
pub mod types;

pub use types::CharacterSettings;
pub use types::Position;
pub use types::TextOffset;
