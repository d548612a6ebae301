//! Object-level extraction and reinjection engine for image streams inside a
//! parsed PDF document graph.
//!
//! The document is modelled as an addressable set of objects keyed by
//! (id, generation) pairs. Objects are a tagged union mirroring PDF's own
//! object model; stream objects pair an ordered attribute dictionary with an
//! opaque encoded payload. The engine locates image streams carrying a
//! JPEG-family encoding filter, exports their payload and declared geometry,
//! and later splices replacement payloads back into the very same objects
//! while leaving every other attribute, reference and object untouched.

pub mod names;
pub mod types;
pub mod dict;
pub mod document;
pub mod scan;
pub mod extract;
pub mod address;
pub mod reinject;
pub mod level;
pub mod laws;
