//! Classification of objects: an object is an image stream exactly when it is
//! a stream whose "Subtype" attribute is the name "Image"; it is a JPEG image
//! stream exactly when, in addition, its "Filter" attribute is the name
//! "DCTDecode" or the legacy name "DCT". Aggregate counts over a whole
//! document build on the same predicates.

use vstd::prelude::*;
use crate::types::{Dict, DictEntry, DocEntry, Document, PdfValue};
use crate::dict::dict_get;
use crate::names::{
    bytes_eq, dct_decode_name, dct_decode_name_vec, dct_name, dct_name_vec, filter_key,
    filter_key_vec, image_name, image_name_vec, subtype_key, subtype_key_vec,
};

verus! {

/// The dictionary's "Subtype" attribute is the name "Image".
pub open spec fn spec_is_image_dict(d: Seq<DictEntry>) -> bool {
    match dict_get(d, subtype_key()) {
        Some(PdfValue::Name(n)) => n@ == image_name(),
        _ => false,
    }
}

/// The dictionary's "Filter" attribute is the name "DCTDecode" or "DCT".
pub open spec fn spec_is_jpeg_dict(d: Seq<DictEntry>) -> bool {
    match dict_get(d, filter_key()) {
        Some(PdfValue::Name(n)) => n@ == dct_decode_name() || n@ == dct_name(),
        _ => false,
    }
}

/// The object is a stream classified as an image.
pub open spec fn spec_is_image_stream(o: PdfValue) -> bool {
    match o {
        PdfValue::Stream(st) => spec_is_image_dict(st.dict.entries@),
        _ => false,
    }
}

/// The object is a stream classified as a JPEG-family image.
pub open spec fn spec_is_jpeg_image_stream(o: PdfValue) -> bool {
    match o {
        PdfValue::Stream(st) => spec_is_image_dict(st.dict.entries@)
            && spec_is_jpeg_dict(st.dict.entries@),
        _ => false,
    }
}

/// The declared value of a geometry attribute: the attribute's integer value
/// truncated to 32 bits, or 0 when the attribute is absent or not an integer.
pub open spec fn spec_dimension(d: Seq<DictEntry>, key: Seq<u8>) -> u32 {
    match dict_get(d, key) {
        Some(PdfValue::Integer(i)) => i as u32,
        _ => 0,
    }
}

/// How many of the first `n` objects are image streams.
pub open spec fn spec_image_count(s: Seq<DocEntry>, n: int) -> int
    decreases n,
{
    if n <= 0 {
        0
    } else {
        spec_image_count(s, n - 1) + if spec_is_image_stream(s[n - 1].object) {
            1int
        } else {
            0int
        }
    }
}

/// How many of the first `n` objects are JPEG image streams.
pub open spec fn spec_jpeg_count(s: Seq<DocEntry>, n: int) -> int
    decreases n,
{
    if n <= 0 {
        0
    } else {
        spec_jpeg_count(s, n - 1) + if spec_is_jpeg_image_stream(s[n - 1].object) {
            1int
        } else {
            0int
        }
    }
}

/// Whether the dictionary classifies its stream as an image.
pub fn dict_is_image(d: &Dict) -> (r: bool)
    requires
        d.wf(),
    ensures
        r == spec_is_image_dict(d.entries@),
{
    let key = subtype_key_vec();
    match d.get(key.as_slice()) {
        Some(PdfValue::Name(n)) => {
            let want = image_name_vec();
            bytes_eq(n.as_slice(), want.as_slice())
        }
        _ => false,
    }
}

/// Whether the dictionary declares a JPEG-family encoding filter.
pub fn dict_is_jpeg(d: &Dict) -> (r: bool)
    requires
        d.wf(),
    ensures
        r == spec_is_jpeg_dict(d.entries@),
{
    let key = filter_key_vec();
    match d.get(key.as_slice()) {
        Some(PdfValue::Name(n)) => {
            let dct_decode = dct_decode_name_vec();
            if bytes_eq(n.as_slice(), dct_decode.as_slice()) {
                true
            } else {
                let dct = dct_name_vec();
                bytes_eq(n.as_slice(), dct.as_slice())
            }
        }
        _ => false,
    }
}

/// The declared value of a geometry attribute, defaulting to 0 when absent or
/// not an integer, and truncated to 32 bits otherwise.
pub fn dict_dimension(d: &Dict, key: &[u8]) -> (r: u32)
    requires
        d.wf(),
    ensures
        r == spec_dimension(d.entries@, key@),
{
    match d.get(key) {
        Some(PdfValue::Integer(i)) => {
            let v = *i;
            #[verifier::truncate] (v as u32)
        }
        _ => 0,
    }
}

/// Aggregate read-only statistics about one document, for display.
#[derive(Clone, Copy, PartialEq, Eq, Structural, Debug)]
pub struct PdfInfo {
    pub page_count: usize,
    pub total_size: usize,
    pub total_objects: usize,
    pub image_count: usize,
    pub jpeg_images: usize,
}

/// Builds the aggregate statistics for a document. The page count and the
/// byte size of the serialized input are facts of the document model and the
/// raw input; they are taken as given and returned unchanged. The object and
/// image counts are computed here from the classification predicates.
pub fn get_pdf_info(doc: &Document, page_count: usize, total_size: usize) -> (r: PdfInfo)
    requires
        doc.wf(),
    ensures
        r.page_count == page_count,
        r.total_size == total_size,
        r.total_objects == doc.objects@.len(),
        r.image_count == spec_image_count(doc.objects@, doc.objects@.len() as int),
        r.jpeg_images == spec_jpeg_count(doc.objects@, doc.objects@.len() as int),
{
    let n = doc.objects.len();
    let mut image_count: usize = 0;
    let mut jpeg_images: usize = 0;
    let mut i: usize = 0;
    while i < n
        invariant
            doc.wf(),
            n == doc.objects@.len(),
            0 <= i <= n,
            image_count == spec_image_count(doc.objects@, i as int),
            jpeg_images == spec_jpeg_count(doc.objects@, i as int),
            image_count <= i,
            jpeg_images <= i,
        decreases n - i,
    {
        match &doc.objects[i].object {
            PdfValue::Stream(st) => {
                if dict_is_image(&st.dict) {
                    image_count = image_count + 1;
                    if dict_is_jpeg(&st.dict) {
                        jpeg_images = jpeg_images + 1;
                    }
                }
            }
            _ => {}
        }
        i = i + 1;
    }
    PdfInfo { page_count, total_size, total_objects: n, image_count, jpeg_images }
}

} // verus!
