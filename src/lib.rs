//! Interactive note-browsing session engine: filtering and facets, markdown
//! rendering, tag autocomplete, the summary cache protocol and key dispatch.
pub mod text;
pub mod validate;
pub mod markdown;
pub mod index;
pub mod complete;
pub mod summary;
pub mod version;
pub mod session;
pub mod dispatch;
pub mod store;
