use vstd::prelude::*;

use crate::bindings::{
    base64_decode, base64_encode, base64_url, bson_decoding, bson_encoding, decode_document,
    encode_document, is_object_id_text, is_url_safe_char, names_unique, object_id_of,
    parse_object_id,
};
use crate::error::CursorError;
use crate::model::{DirectedCursor, Edge};

verus! {

/// The token of a cursor whose fields are `f`: the document's bytes, in
/// url-safe base64 without padding. `None` where the bytes cannot be written.
pub open spec fn token_of(f: Seq<(Seq<char>, bson::Bson)>) -> Option<Seq<char>> {
    match bson_encoding(f) {
        Some(bytes) => Some(base64_url(bytes)),
        None => None,
    }
}

/// `t` is the base64 text of some bytes.
pub open spec fn is_base64_token(t: Seq<char>) -> bool {
    exists|b: Seq<u8>| #[trigger] base64_url(b) == t
}

/// The fields that the token `t` holds: its bytes, read as a document.
/// `None` where `t` is not base64 text or its bytes are not a document.
pub open spec fn token_fields(t: Seq<char>) -> Option<Seq<(Seq<char>, bson::Bson)>> {
    if is_base64_token(t) {
        bson_decoding(choose|b: Seq<u8>| #[trigger] base64_url(b) == t)
    } else {
        None
    }
}

impl Edge {
    /// The opaque text form of the cursor, safe to put in a url. Reading the
    /// token back yields exactly what bson reads from the bytes that it wrote
    /// for the cursor's document.
    pub fn encode(&self) -> (r: Result<String, CursorError>)
        ensures
            r is Ok <==> token_of(self@) is Some,
            r is Ok ==> Some(r->Ok_0@) == token_of(self@),
            r is Ok ==> token_fields(r->Ok_0@) == bson_decoding(bson_encoding(self@)->0),
            r is Err ==> r->Err_0 is BsonSerError,
    {
        match encode_document(&self.fields) {
            Ok(bytes) => {
                let token = base64_encode(&bytes);
                proof {
                    assert(is_base64_token(token@));
                    let b = choose|b: Seq<u8>| #[trigger] base64_url(b) == token@;
                    assert(b == bytes@);
                }
                Ok(token)
            },
            Err(e) => Err(CursorError::BsonSerError(e)),
        }
    }

    /// Reads a cursor back from its text form: it succeeds exactly where the
    /// token is url-safe base64 text of bytes that form a document, and then
    /// holds that document's fields. Text that is not such base64 (a letter
    /// outside the url-safe alphabet, padding) is a `DecodeError`; bytes that
    /// are not a document are a `BsonDeError`.
    pub fn decode(token: &str) -> (r: Result<Edge, CursorError>)
        ensures
            r is Ok <==> token_fields(token@) is Some,
            r is Ok ==> Some(r->Ok_0@) == token_fields(token@),
            r is Ok ==> names_unique(r->Ok_0@),
            r is Err ==> (r->Err_0 is DecodeError <==> !is_base64_token(token@)),
            r is Err ==> (r->Err_0 is DecodeError || r->Err_0 is BsonDeError),
            (exists|i: int| 0 <= i < token@.len() && !is_url_safe_char(#[trigger] token@[i]))
                ==> r is Err && r->Err_0 is DecodeError,
    {
        let bytes = match base64_decode(token) {
            Ok(bytes) => bytes,
            Err(e) => {
                proof {
                    if is_base64_token(token@) {
                        let b = choose|b: Seq<u8>| #[trigger] base64_url(b) == token@;
                        assert(base64_url(b) == token@);
                    }
                }
                return Err(CursorError::DecodeError(e));
            },
        };
        proof {
            assert(base64_url(bytes@) == token@);
            assert(is_base64_token(token@));
            let b = choose|b: Seq<u8>| #[trigger] base64_url(b) == token@;
            assert(b == bytes@);
        }
        match decode_document(bytes.as_slice()) {
            Ok(fields) => Ok(Edge { fields }),
            Err(e) => Err(CursorError::BsonDeError(e)),
        }
    }
}

impl DirectedCursor {
    /// The text form of the cursor; the direction is not part of it.
    pub fn encode(&self) -> (r: Result<String, CursorError>)
        ensures
            r is Ok <==> token_of(self.edge()@) is Some,
            r is Ok ==> Some(r->Ok_0@) == token_of(self.edge()@),
    {
        self.inner().encode()
    }
}

/// Reads an object id from its twenty-four hexadecimal digits.
pub fn get_object_id(id: &str) -> (r: Result<bson::oid::ObjectId, CursorError>)
    ensures
        r is Ok <==> is_object_id_text(id@),
        r is Ok ==> r->Ok_0 == object_id_of(id@),
        r is Err ==> r->Err_0 is ParseError,
{
    match parse_object_id(id) {
        Ok(oid) => Ok(oid),
        Err(e) => Err(CursorError::ParseError(e)),
    }
}

} // verus!
