use vstd::prelude::*;

verus! {

/// What can go wrong while reading a cursor or fetching a page.
#[derive(Debug)]
pub enum CursorError {
    /// The cursor token is not valid url-safe base64.
    DecodeError(base64::DecodeError),
    /// The decoded cursor bytes are not a valid document.
    BsonDeError(bson::de::Error),
    /// A cursor could not be written as a document.
    BsonSerError(bson::ser::Error),
    /// The text is not a valid object id.
    ParseError(bson::oid::Error),
    /// The store failed to count or to find documents.
    MongoDBError(mongodb::error::Error),
    /// The cursor lacks the value of the tie-breaking field.
    InvalidCursor,
}

} // verus!
