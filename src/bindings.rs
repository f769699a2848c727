//! The types of `bson`, `base64` and `mongodb` that the library carries, and
//! the few calls it makes into `bson` and `base64`, with what is relied on.

use vstd::prelude::*;

verus! {

#[verifier::external_type_specification]
#[verifier::external_body]
pub struct ExBson(bson::Bson);

#[verifier::external_type_specification]
#[verifier::external_body]
pub struct ExDocument(bson::Document);

#[verifier::external_type_specification]
#[verifier::external_body]
pub struct ExObjectId(bson::oid::ObjectId);

#[verifier::external_type_specification]
#[verifier::external_body]
pub struct ExOidError(bson::oid::Error);

#[verifier::external_type_specification]
#[verifier::external_body]
pub struct ExDeError(bson::de::Error);

#[verifier::external_type_specification]
#[verifier::external_body]
pub struct ExSerError(bson::ser::Error);

#[verifier::external_type_specification]
#[verifier::external_body]
pub struct ExDecodeError(base64::DecodeError);

#[verifier::external_type_specification]
#[verifier::external_body]
pub struct ExStoreError(mongodb::error::Error);

/// Field name to value, as a `bson::Document` holds them.
pub uninterp spec fn doc_entries(d: bson::Document) -> Map<Seq<char>, bson::Bson>;

/// The bytes that `bson::to_vec` writes for the document holding `fields` in
/// this order, or `None` where it refuses the document.
pub uninterp spec fn bson_encoding(fields: Seq<(Seq<char>, bson::Bson)>) -> Option<Seq<u8>>;

/// The fields of the document that `bson::from_slice` reads from `bytes`,
/// in order, or `None` where it refuses them.
pub uninterp spec fn bson_decoding(bytes: Seq<u8>) -> Option<Seq<(Seq<char>, bson::Bson)>>;

/// The url-safe, unpadded base64 text of `bytes`.
pub uninterp spec fn base64_url(bytes: Seq<u8>) -> Seq<char>;

/// The object id written in hexadecimal by `s`.
pub uninterp spec fn object_id_of(s: Seq<char>) -> bson::oid::ObjectId;

/// A sequence of (name, value) pairs as plain values.
pub open spec fn fields_view(v: Seq<(String, bson::Bson)>) -> Seq<(Seq<char>, bson::Bson)> {
    v.map_values(|p: (String, bson::Bson)| (p.0@, p.1))
}

/// No name occurs twice.
pub open spec fn names_unique(f: Seq<(Seq<char>, bson::Bson)>) -> bool {
    forall|i: int, j: int| 0 <= i < f.len() && 0 <= j < f.len() && i != j ==> f[i].0 != f[j].0
}

/// A letter of the url-safe base64 alphabet.
pub open spec fn is_url_safe_char(c: char) -> bool {
    ('A' <= c && c <= 'Z') || ('a' <= c && c <= 'z') || ('0' <= c && c <= '9') || c == '-' || c == '_'
}

pub open spec fn is_hex_digit(c: char) -> bool {
    ('0' <= c && c <= '9') || ('a' <= c && c <= 'f') || ('A' <= c && c <= 'F')
}

/// Twenty-four hexadecimal digits: the text form of a twelve-byte object id.
pub open spec fn is_object_id_text(s: Seq<char>) -> bool {
    s.len() == 24 && forall|i: int| 0 <= i < s.len() ==> is_hex_digit(#[trigger] s[i])
}

/// Relies on the derived `Clone` of `bson::Bson`: the copy equals the value copied.
pub assume_specification[ <bson::Bson as Clone>::clone ](v: &bson::Bson) -> (r: bson::Bson)
    ensures
        r == *v,
;

/// Relies on `bson::Document::get`: the value stored under `key`, if any.
#[verifier::external_body]
pub(crate) fn document_get(d: &bson::Document, key: &str) -> (r: Option<bson::Bson>)
    ensures
        r == (if doc_entries(*d).contains_key(key@) {
            Some(doc_entries(*d)[key@])
        } else {
            None
        }),
{
    d.get(key).cloned()
}

/// Relies on `bson::to_vec`, applied to the document that holds `fields` in
/// this order: it either writes that document's bytes or refuses it.
#[verifier::external_body]
pub(crate) fn encode_document(fields: &Vec<(String, bson::Bson)>) -> (r: Result<Vec<u8>, bson::ser::Error>)
    ensures
        r is Ok <==> bson_encoding(fields_view(fields@)) is Some,
        r is Ok ==> Some(r->Ok_0@) == bson_encoding(fields_view(fields@)),
{
    let doc: bson::Document = fields.iter().cloned().collect();
    bson::to_vec(&doc)
}

/// Relies on `bson::from_slice` into a `bson::Document`: its result depends
/// on the bytes alone, and a document's names are distinct.
#[verifier::external_body]
pub(crate) fn decode_document(bytes: &[u8]) -> (r: Result<Vec<(String, bson::Bson)>, bson::de::Error>)
    ensures
        r is Ok <==> bson_decoding(bytes@) is Some,
        r is Ok ==> Some(fields_view(r->Ok_0@)) == bson_decoding(bytes@),
        r is Ok ==> names_unique(fields_view(r->Ok_0@)),
{
    bson::from_slice::<bson::Document>(bytes).map(|d| d.into_iter().collect())
}

/// Relies on `base64`'s `URL_SAFE_NO_PAD` engine, `encode`: distinct bytes
/// get distinct text.
#[verifier::external_body]
pub(crate) fn base64_encode(bytes: &Vec<u8>) -> (r: String)
    ensures
        r@ == base64_url(bytes@),
        forall|b: Seq<u8>| #[trigger] base64_url(b) == r@ ==> b == bytes@,
{
    base64::Engine::encode(&base64::engine::general_purpose::URL_SAFE_NO_PAD, bytes)
}

/// Relies on `base64`'s `URL_SAFE_NO_PAD` engine, `decode`: the text that
/// `encode` wrote for some bytes is read back as those bytes; it accepts
/// only letters of the url-safe alphabet, no padding and no stray trailing
/// bits, so what it accepts is exactly what `encode` writes.
#[verifier::external_body]
pub(crate) fn base64_decode(text: &str) -> (r: Result<Vec<u8>, base64::DecodeError>)
    ensures
        forall|b: Seq<u8>| #[trigger] base64_url(b) == text@ ==> r is Ok && r->Ok_0@ == b,
        r is Ok ==> base64_url(r->Ok_0@) == text@,
        r is Ok ==> forall|i: int| 0 <= i < text@.len() ==> is_url_safe_char(#[trigger] text@[i]),
{
    base64::Engine::decode(&base64::engine::general_purpose::URL_SAFE_NO_PAD, text)
}

/// Relies on `bson::oid::ObjectId::parse_str`: it accepts exactly the texts
/// of twenty-four hexadecimal digits.
#[verifier::external_body]
pub(crate) fn parse_object_id(s: &str) -> (r: Result<bson::oid::ObjectId, bson::oid::Error>)
    ensures
        r is Ok <==> is_object_id_text(s@),
        r is Ok ==> r->Ok_0 == object_id_of(s@),
{
    bson::oid::ObjectId::parse_str(s)
}

} // verus!
