//! The data model: object addresses, the tagged-union object value, ordered
//! attribute dictionaries and stream objects.

use vstd::prelude::*;

verus! {

/// The (id, generation) pair that uniquely identifies one object within a
/// document's lifetime.
#[derive(Clone, Copy, PartialEq, Eq, Structural, Debug)]
pub struct ObjectAddress {
    pub id: u32,
    pub generation: u16,
}

/// One attribute of a dictionary: a name key and its typed value.
#[derive(PartialEq, Debug)]
pub struct DictEntry {
    pub key: Vec<u8>,
    pub value: PdfValue,
}

/// An ordered mapping from attribute name to typed value, with unique keys.
#[derive(PartialEq, Debug)]
pub struct Dict {
    pub entries: Vec<DictEntry>,
}

/// A stream object: an attribute dictionary paired with an opaque encoded
/// byte payload. The payload is kept exactly as declared; the engine never
/// decodes it.
#[derive(PartialEq, Debug)]
pub struct StreamObject {
    pub dict: Dict,
    pub content: Vec<u8>,
}

/// Marks a string value as written in literal or hexadecimal form.
#[derive(Clone, Copy, PartialEq, Eq, Structural, Debug)]
pub enum StringKind {
    Literal,
    Hexadecimal,
}

/// A node value of the document graph: a tagged union mirroring PDF's own
/// object model. A real number is carried as its raw bit pattern, since the
/// engine only ever moves such values verbatim.
#[derive(PartialEq, Debug)]
pub enum PdfValue {
    Null,
    Boolean(bool),
    Integer(i64),
    RealBits(u32),
    Name(Vec<u8>),
    Text(Vec<u8>, StringKind),
    Array(Vec<PdfValue>),
    Dictionary(Dict),
    Stream(StreamObject),
    Reference(ObjectAddress),
}

/// One object of a document: its address and its value.
#[derive(PartialEq, Debug)]
pub struct DocEntry {
    pub address: ObjectAddress,
    pub object: PdfValue,
}

/// A parsed document: an addressable collection of objects, in a stable
/// traversal order.
#[derive(PartialEq, Debug)]
pub struct Document {
    pub objects: Vec<DocEntry>,
}

} // verus!
