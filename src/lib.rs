//! Cursor-based (keyset) pagination over a document store.
//!
//! The library decides everything about a page: it normalizes the query
//! options, encodes and decodes opaque cursors, builds the range filter that
//! seeks past a cursor, and assembles the page from the window of documents
//! that the store returned. Talking to the store is left to the caller.

mod bindings;
pub mod codec;
pub mod error;
pub mod filter;
pub mod model;
pub mod option;
pub mod page;
pub mod sort;
pub mod traversal;

pub use bindings::{base64_url, bson_decoding, bson_encoding, doc_entries, object_id_of};
pub use codec::{get_object_id, is_base64_token, token_fields, token_of};
pub use error::CursorError;
pub use filter::{get_filter, Comparison, Condition, RangeFilter};
pub use model::{CursorDirections, DirectedCursor, Edge, FindResult, PageInfo};
pub use option::{CursorOptions, QueryOptions};
pub use page::{assemble_page, PaginatedCursor};
pub use sort::{SortKey, SortOrder, DEFAULT_LIMIT};
