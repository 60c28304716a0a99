//! Aggregates a user's activity (comments, reviews, opens, closes, merges)
//! across source-control hosts over a date range and renders a deduplicated,
//! hierarchically grouped text report.
//!
//! The verified library holds the domain logic: calendar dates and instants,
//! the event model, the range-bisecting search planner, pagination and retry
//! decisions, response-shape validation, reconciliation, and rendering.
//! Network transport is performed by the surrounding application, which feeds
//! plain values into the functions here.

pub mod auth;
pub mod dates;
pub mod events;
pub mod paginate;
pub mod queries;
pub mod reconcile;
pub mod render;
pub mod search;
pub mod shape;
pub mod sources;
pub mod text;

pub use dates::Date;
pub use dates::DateRange;
pub use dates::Instant;
pub use events::EventItem;
pub use events::EventKind;
