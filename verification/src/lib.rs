//! Reference store and session engine for a timed figure-drawing practice
//! application: a registry of user-curated image folders with content
//! indexing and an SFW filter, flattened random-access selection over all
//! folders, a navigable session history with a cursor, and a cache of
//! decoded pixel data.

pub mod app;
pub mod cache;
pub mod figure_drawing;
pub mod reference;
pub mod reference_board;
pub mod reference_pane;
