//! Assembly of a request-dispatch surface from independently authored route
//! groups.
//!
//! A route group declares a fixed set of endpoints (method and path) and can
//! build an `axum` sub-router serving exactly those endpoints.  The composer
//! checks the declared endpoint sets for conflicts, distributes one shared
//! application-state handle to every group that asks for it, and merges the
//! sub-routers into a single dispatcher.  Composition either yields a
//! dispatcher serving exactly the declared routes, or fails before any
//! sub-router is merged.

pub mod compose;
pub mod endpoint;
pub mod error;
pub mod group;
pub mod plan;
pub mod router;
pub mod state;
