//! A personal document store: documents and folders owned by users, tags,
//! a recoverable trash, and owner-scoped full-text search.
//!
//! - `store`: the repository, its model (`StoreModel`) and well-formedness.
//! - `docs`, `docs_trash`, `tags`, `search`: the operations, each with a
//!   spec function that states its outcome exactly.
//! - `laws`: properties that relate several operations, proved.
//! - `auth`: the bearer credential of a request, and the user accounts.
//! - `text`, `order`: string comparison, matching, highlighting, and the
//!   stable insertion that orders every list.
pub mod auth;
pub mod docs;
pub mod docs_trash;
pub mod errors;
pub mod laws;
pub mod models;
pub mod order;
pub mod search;
pub mod store;
pub mod tags;
pub mod text;
mod runtime;
