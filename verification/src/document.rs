//! The document as an addressable collection of objects: address lookup and
//! well-formedness. Addresses are unique, and the dictionary of every
//! top-level stream object has unique keys.

use vstd::prelude::*;
use crate::types::{DocEntry, Document, ObjectAddress, PdfValue};
use crate::dict::dict_keys_unique;

verus! {

/// The dictionary of a top-level stream object has unique keys; any other
/// object imposes nothing.
pub open spec fn obj_dict_wf(o: PdfValue) -> bool {
    match o {
        PdfValue::Stream(st) => dict_keys_unique(st.dict.entries@),
        _ => true,
    }
}

/// All addresses of the object sequence are distinct.
pub open spec fn doc_addresses_unique(s: Seq<DocEntry>) -> bool {
    forall|i: int, j: int| 0 <= i < j < s.len() ==> s[i].address != s[j].address
}

/// Some object carries the given address.
pub open spec fn doc_has_address(s: Seq<DocEntry>, addr: ObjectAddress) -> bool {
    exists|i: int| 0 <= i < s.len() && s[i].address == addr
}

/// A stream object carries the given address.
pub open spec fn doc_has_stream_at(s: Seq<DocEntry>, addr: ObjectAddress) -> bool {
    exists|i: int| 0 <= i < s.len() && s[i].address == addr && s[i].object is Stream
}

/// The index of the object carrying the given address (meaningful when the
/// address is present and addresses are unique).
pub open spec fn doc_index_of(s: Seq<DocEntry>, addr: ObjectAddress) -> int {
    choose|i: int| 0 <= i < s.len() && s[i].address == addr
}

/// Addresses are unique and every top-level stream dictionary is well formed.
pub open spec fn doc_wf(s: Seq<DocEntry>) -> bool {
    &&& doc_addresses_unique(s)
    &&& forall|i: int| 0 <= i < s.len() ==> obj_dict_wf(#[trigger] s[i].object)
}

/// When addresses are unique, any object matching the address stands at the
/// chosen index.
pub proof fn lemma_doc_index_of_unique(s: Seq<DocEntry>, addr: ObjectAddress, i: int)
    requires
        doc_addresses_unique(s),
        0 <= i < s.len(),
        s[i].address == addr,
    ensures
        doc_index_of(s, addr) == i,
        doc_has_address(s, addr),
{
    assert(doc_has_address(s, addr));
    let w = doc_index_of(s, addr);
    assert(0 <= w < s.len() && s[w].address == addr);
    if w != i {
        if w < i {
            assert(s[w].address != s[i].address);
        } else {
            assert(s[i].address != s[w].address);
        }
    }
}

impl Document {
    /// Addresses are unique and every top-level stream dictionary is well
    /// formed.
    pub open spec fn wf(&self) -> bool {
        doc_wf(self.objects@)
    }

    /// An empty document.
    pub fn new() -> (r: Document)
        ensures
            r.objects@ =~= Seq::<DocEntry>::empty(),
            r.wf(),
    {
        Document { objects: Vec::new() }
    }

    /// The number of objects.
    pub fn object_count(&self) -> (r: usize)
        ensures
            r == self.objects@.len(),
    {
        self.objects.len()
    }

    /// Adds an object under a fresh address.
    pub fn push_object(&mut self, address: ObjectAddress, object: PdfValue)
        requires
            old(self).wf(),
            !doc_has_address(old(self).objects@, address),
            obj_dict_wf(object),
        ensures
            final(self).objects@ == old(self).objects@.push(
                DocEntry { address, object },
            ),
            final(self).wf(),
    {
        self.objects.push(DocEntry { address, object });
    }

    /// The index of the object with the given address, if any.
    pub fn find_index(&self, addr: ObjectAddress) -> (r: Option<usize>)
        requires
            self.wf(),
        ensures
            match r {
                Some(i) => i < self.objects@.len() && self.objects@[i as int].address == addr
                    && doc_index_of(self.objects@, addr) == i,
                None => !doc_has_address(self.objects@, addr),
            },
    {
        let n = self.objects.len();
        let mut i: usize = 0;
        while i < n
            invariant
                self.wf(),
                n == self.objects@.len(),
                0 <= i <= n,
                forall|j: int| 0 <= j < i ==> self.objects@[j].address != addr,
            decreases n - i,
        {
            let e = &self.objects[i];
            if e.address.id == addr.id && e.address.generation == addr.generation {
                proof {
                    assert(self.objects@[i as int].address == addr);
                    lemma_doc_index_of_unique(self.objects@, addr, i as int);
                }
                return Some(i);
            }
            i = i + 1;
        }
        None
    }

    /// A reference to the object with the given address, if any.
    pub fn get_object(&self, addr: ObjectAddress) -> (r: Option<&PdfValue>)
        requires
            self.wf(),
        ensures
            match r {
                Some(o) => doc_has_address(self.objects@, addr)
                    && *o == self.objects@[doc_index_of(self.objects@, addr)].object,
                None => !doc_has_address(self.objects@, addr),
            },
    {
        match self.find_index(addr) {
            Some(i) => Some(&self.objects[i].object),
            None => None,
        }
    }
}

} // verus!
