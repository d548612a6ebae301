//! Projection of every JPEG image stream into a transport-friendly record:
//! address, raw encoded payload, declared width and height. The payload is a
//! direct copy of the stream's encoded bytes; width and height default to 0
//! when the attribute is absent or not an integer.

use vstd::prelude::*;
use crate::types::{DocEntry, Document, ObjectAddress, PdfValue};
use crate::scan::{
    dict_dimension, dict_is_image, dict_is_jpeg, spec_dimension, spec_is_jpeg_image_stream,
};
use crate::names::{height_key, height_key_vec, width_key, width_key_vec};

verus! {

/// One extracted image: its address, its raw encoded payload, and its
/// declared geometry.
#[derive(PartialEq, Debug)]
pub struct ImageDescriptor {
    pub address: ObjectAddress,
    pub data: Vec<u8>,
    pub width: u32,
    pub height: u32,
}

/// The mathematical content of an [`ImageDescriptor`].
pub struct DescriptorModel {
    pub address: ObjectAddress,
    pub data: Seq<u8>,
    pub width: u32,
    pub height: u32,
}

impl View for ImageDescriptor {
    type V = DescriptorModel;

    open spec fn view(&self) -> DescriptorModel {
        DescriptorModel {
            address: self.address,
            data: self.data@,
            width: self.width,
            height: self.height,
        }
    }
}

/// The record that one document object yields when it is a JPEG image stream.
pub open spec fn spec_descriptor_of(e: DocEntry) -> DescriptorModel {
    match e.object {
        PdfValue::Stream(st) => DescriptorModel {
            address: e.address,
            data: st.content@,
            width: spec_dimension(st.dict.entries@, width_key()),
            height: spec_dimension(st.dict.entries@, height_key()),
        },
        _ => DescriptorModel { address: e.address, data: Seq::empty(), width: 0, height: 0 },
    }
}

/// The records that the first `n` objects of a document yield: one per JPEG
/// image stream, in traversal order.
pub open spec fn spec_extract(s: Seq<DocEntry>, n: int) -> Seq<DescriptorModel>
    decreases n,
{
    if n <= 0 {
        Seq::empty()
    } else {
        spec_extract(s, n - 1) + if spec_is_jpeg_image_stream(s[n - 1].object) {
            seq![spec_descriptor_of(s[n - 1])]
        } else {
            Seq::empty()
        }
    }
}

/// The views of a sequence of descriptors.
pub open spec fn spec_descriptor_views(s: Seq<ImageDescriptor>) -> Seq<DescriptorModel> {
    s.map_values(|d: ImageDescriptor| d@)
}

/// Extracts one descriptor per JPEG image stream of the document, in
/// traversal order. Objects that are not JPEG image streams yield nothing and
/// never fail the extraction.
pub fn extract_images(doc: &Document) -> (r: Vec<ImageDescriptor>)
    requires
        doc.wf(),
    ensures
        spec_descriptor_views(r@) == spec_extract(doc.objects@, doc.objects@.len() as int),
{
    let n = doc.objects.len();
    let mut r: Vec<ImageDescriptor> = Vec::new();
    let mut i: usize = 0;
    while i < n
        invariant
            doc.wf(),
            n == doc.objects@.len(),
            0 <= i <= n,
            spec_descriptor_views(r@) == spec_extract(doc.objects@, i as int),
        decreases n - i,
    {
        let entry = &doc.objects[i];
        match &entry.object {
            PdfValue::Stream(st) => {
                if dict_is_image(&st.dict) && dict_is_jpeg(&st.dict) {
                    let wkey = width_key_vec();
                    let hkey = height_key_vec();
                    let desc = ImageDescriptor {
                        address: entry.address,
                        data: clone_bytes(&st.content),
                        width: dict_dimension(&st.dict, wkey.as_slice()),
                        height: dict_dimension(&st.dict, hkey.as_slice()),
                    };
                    proof {
                        assert(desc@ == spec_descriptor_of(doc.objects@[i as int]));
                    }
                    r.push(desc);
                }
            }
            _ => {}
        }
        proof {
            assert(spec_descriptor_views(r@) =~= spec_extract(doc.objects@, i as int + 1));
        }
        i = i + 1;
    }
    r
}

/// Every record the extractor yields comes from a JPEG image stream among the
/// first `n` objects and carries exactly that stream's address, payload and
/// declared geometry — so reinjecting it targets the object it came from.
pub proof fn lemma_extracted_descriptor_source(s: Seq<DocEntry>, n: int, k: int)
    requires
        0 <= n <= s.len(),
        0 <= k < spec_extract(s, n).len(),
    ensures
        exists|i: int|
            0 <= i < n && spec_is_jpeg_image_stream(#[trigger] s[i].object) && spec_extract(
                s,
                n,
            )[k] == spec_descriptor_of(s[i]),
    decreases n,
{
    let prefix = spec_extract(s, n - 1);
    if spec_is_jpeg_image_stream(s[n - 1].object) && k == prefix.len() {
        assert(spec_extract(s, n)[k] == spec_descriptor_of(s[n - 1]));
    } else {
        assert(k < prefix.len());
        lemma_extracted_descriptor_source(s, n - 1, k);
        let i = choose|i: int|
            0 <= i < n - 1 && spec_is_jpeg_image_stream(#[trigger] s[i].object) && prefix[k]
                == spec_descriptor_of(s[i]);
        assert(spec_extract(s, n)[k] == prefix[k]);
        assert(0 <= i < n && spec_is_jpeg_image_stream(s[i].object) && spec_extract(s, n)[k]
            == spec_descriptor_of(s[i]));
    }
}

/// Copies a byte payload.
pub fn clone_bytes(v: &Vec<u8>) -> (r: Vec<u8>)
    ensures
        r@ == v@,
{
    let r = v.clone();
    proof {
        assert(r@ =~= v@);
    }
    r
}

} // verus!
