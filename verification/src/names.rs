//! Byte sequences for the attribute names and name values the engine reads
//! and writes, with executable builders proved to match them.

use vstd::prelude::*;

verus! {

/// The attribute name "Subtype", which classifies a stream object.
pub open spec fn subtype_key() -> Seq<u8> {
    seq![83u8, 117u8, 98u8, 116u8, 121u8, 112u8, 101u8]
}

/// Builds the byte string for [`subtype_key`].
pub fn subtype_key_vec() -> (r: Vec<u8>)
    ensures
        r@ == subtype_key(),
{
    let mut r: Vec<u8> = Vec::new();
    r.push(83);
    r.push(117);
    r.push(98);
    r.push(116);
    r.push(121);
    r.push(112);
    r.push(101);
    proof {
        assert(r@ =~= subtype_key());
    }
    r
}

/// The attribute name "Filter", the declared encoding of a stream payload.
pub open spec fn filter_key() -> Seq<u8> {
    seq![70u8, 105u8, 108u8, 116u8, 101u8, 114u8]
}

/// Builds the byte string for [`filter_key`].
pub fn filter_key_vec() -> (r: Vec<u8>)
    ensures
        r@ == filter_key(),
{
    let mut r: Vec<u8> = Vec::new();
    r.push(70);
    r.push(105);
    r.push(108);
    r.push(116);
    r.push(101);
    r.push(114);
    proof {
        assert(r@ =~= filter_key());
    }
    r
}

/// The attribute name "Width", the declared image width.
pub open spec fn width_key() -> Seq<u8> {
    seq![87u8, 105u8, 100u8, 116u8, 104u8]
}

/// Builds the byte string for [`width_key`].
pub fn width_key_vec() -> (r: Vec<u8>)
    ensures
        r@ == width_key(),
{
    let mut r: Vec<u8> = Vec::new();
    r.push(87);
    r.push(105);
    r.push(100);
    r.push(116);
    r.push(104);
    proof {
        assert(r@ =~= width_key());
    }
    r
}

/// The attribute name "Height", the declared image height.
pub open spec fn height_key() -> Seq<u8> {
    seq![72u8, 101u8, 105u8, 103u8, 104u8, 116u8]
}

/// Builds the byte string for [`height_key`].
pub fn height_key_vec() -> (r: Vec<u8>)
    ensures
        r@ == height_key(),
{
    let mut r: Vec<u8> = Vec::new();
    r.push(72);
    r.push(101);
    r.push(105);
    r.push(103);
    r.push(104);
    r.push(116);
    proof {
        assert(r@ =~= height_key());
    }
    r
}

/// The attribute name "Length", the byte length of a stream payload.
pub open spec fn length_key() -> Seq<u8> {
    seq![76u8, 101u8, 110u8, 103u8, 116u8, 104u8]
}

/// Builds the byte string for [`length_key`].
pub fn length_key_vec() -> (r: Vec<u8>)
    ensures
        r@ == length_key(),
{
    let mut r: Vec<u8> = Vec::new();
    r.push(76);
    r.push(101);
    r.push(110);
    r.push(103);
    r.push(116);
    r.push(104);
    proof {
        assert(r@ =~= length_key());
    }
    r
}

/// The subtype value "Image" that marks an image stream.
pub open spec fn image_name() -> Seq<u8> {
    seq![73u8, 109u8, 97u8, 103u8, 101u8]
}

/// Builds the byte string for [`image_name`].
pub fn image_name_vec() -> (r: Vec<u8>)
    ensures
        r@ == image_name(),
{
    let mut r: Vec<u8> = Vec::new();
    r.push(73);
    r.push(109);
    r.push(97);
    r.push(103);
    r.push(101);
    proof {
        assert(r@ =~= image_name());
    }
    r
}

/// The JPEG-family encoding filter name "DCTDecode".
pub open spec fn dct_decode_name() -> Seq<u8> {
    seq![68u8, 67u8, 84u8, 68u8, 101u8, 99u8, 111u8, 100u8, 101u8]
}

/// Builds the byte string for [`dct_decode_name`].
pub fn dct_decode_name_vec() -> (r: Vec<u8>)
    ensures
        r@ == dct_decode_name(),
{
    let mut r: Vec<u8> = Vec::new();
    r.push(68);
    r.push(67);
    r.push(84);
    r.push(68);
    r.push(101);
    r.push(99);
    r.push(111);
    r.push(100);
    r.push(101);
    proof {
        assert(r@ =~= dct_decode_name());
    }
    r
}

/// The legacy JPEG-family encoding filter name "DCT".
pub open spec fn dct_name() -> Seq<u8> {
    seq![68u8, 67u8, 84u8]
}

/// Builds the byte string for [`dct_name`].
pub fn dct_name_vec() -> (r: Vec<u8>)
    ensures
        r@ == dct_name(),
{
    let mut r: Vec<u8> = Vec::new();
    r.push(68);
    r.push(67);
    r.push(84);
    proof {
        assert(r@ =~= dct_name());
    }
    r
}

/// The compression level word "light".
pub open spec fn light_word() -> Seq<u8> {
    seq![108u8, 105u8, 103u8, 104u8, 116u8]
}

/// Builds the byte string for [`light_word`].
pub fn light_word_vec() -> (r: Vec<u8>)
    ensures
        r@ == light_word(),
{
    let mut r: Vec<u8> = Vec::new();
    r.push(108);
    r.push(105);
    r.push(103);
    r.push(104);
    r.push(116);
    proof {
        assert(r@ =~= light_word());
    }
    r
}

/// The compression level word "medium".
pub open spec fn medium_word() -> Seq<u8> {
    seq![109u8, 101u8, 100u8, 105u8, 117u8, 109u8]
}

/// Builds the byte string for [`medium_word`].
pub fn medium_word_vec() -> (r: Vec<u8>)
    ensures
        r@ == medium_word(),
{
    let mut r: Vec<u8> = Vec::new();
    r.push(109);
    r.push(101);
    r.push(100);
    r.push(105);
    r.push(117);
    r.push(109);
    proof {
        assert(r@ =~= medium_word());
    }
    r
}

/// The compression level word "high".
pub open spec fn high_word() -> Seq<u8> {
    seq![104u8, 105u8, 103u8, 104u8]
}

/// Builds the byte string for [`high_word`].
pub fn high_word_vec() -> (r: Vec<u8>)
    ensures
        r@ == high_word(),
{
    let mut r: Vec<u8> = Vec::new();
    r.push(104);
    r.push(105);
    r.push(103);
    r.push(104);
    proof {
        assert(r@ =~= high_word());
    }
    r
}

/// The attribute names the engine touches are pairwise distinct, and distinct
/// from the classification key.
pub proof fn lemma_keys_distinct()
    ensures
        width_key() != height_key(),
        width_key() != length_key(),
        width_key() != filter_key(),
        width_key() != subtype_key(),
        height_key() != length_key(),
        height_key() != filter_key(),
        height_key() != subtype_key(),
        length_key() != filter_key(),
        length_key() != subtype_key(),
        filter_key() != subtype_key(),
{
    assert(width_key().len() == 5);
    assert(height_key().len() == 6);
    assert(length_key().len() == 6);
    assert(filter_key().len() == 6);
    assert(subtype_key().len() == 7);
    assert(height_key()[0] == 72u8);
    assert(length_key()[0] == 76u8);
    assert(filter_key()[0] == 70u8);
}

/// Compares two byte strings for equality of their contents.
pub fn bytes_eq(a: &[u8], b: &[u8]) -> (r: bool)
    ensures
        r == (a@ == b@),
{
    if a.len() != b.len() {
        return false;
    }
    let mut i: usize = 0;
    while i < a.len()
        invariant
            a@.len() == b@.len(),
            0 <= i <= a@.len(),
            forall|j: int| 0 <= j < i ==> a@[j] == b@[j],
        decreases a@.len() - i,
    {
        if a[i] != b[i] {
            return false;
        }
        i = i + 1;
    }
    proof {
        assert(a@ =~= b@);
    }
    true
}

} // verus!
