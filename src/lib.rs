//! Redirects a configurable subset of a host's save files to and from an
//! external storage directory.
//!
//! The library holds the decisions: which paths take part (an allow-list of
//! path fragments matched by substring), how a host path maps onto the
//! external root, which copies to make at each point of the host's save
//! pipeline, and when the whole feature is ready. Performing the copies is
//! left to the caller.
pub mod text;
pub mod allow_list;
pub mod loader;
pub mod mirror;
pub mod init;
pub mod logging;
