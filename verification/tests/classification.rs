use pdf_image_core::scan::{dict_is_image, dict_is_jpeg, get_pdf_info};
use pdf_image_core::types::{Dict, DocEntry, Document, ObjectAddress, PdfValue, StreamObject};

fn dict(pairs: Vec<(&str, PdfValue)>) -> Dict {
    let mut d = Dict::new();
    for (k, v) in pairs {
        d.set_value(k.as_bytes().to_vec(), v);
    }
    d
}

fn name(s: &str) -> PdfValue {
    PdfValue::Name(s.as_bytes().to_vec())
}

fn stream(pairs: Vec<(&str, PdfValue)>, content: &[u8]) -> PdfValue {
    PdfValue::Stream(StreamObject { dict: dict(pairs), content: content.to_vec() })
}

fn addr(id: u32, generation: u16) -> ObjectAddress {
    ObjectAddress { id, generation }
}

fn doc(objects: Vec<(ObjectAddress, PdfValue)>) -> Document {
    let mut d = Document::new();
    for (a, o) in objects {
        d.push_object(a, o);
    }
    d
}

#[test]
fn subtype_absent_is_not_image() {
    let d = dict(vec![("Filter", name("DCTDecode"))]);
    assert!(!dict_is_image(&d));
}

#[test]
fn subtype_wrong_value_is_not_image() {
    let d = dict(vec![("Subtype", name("Form"))]);
    assert!(!dict_is_image(&d));
}

#[test]
fn subtype_image_is_image() {
    let d = dict(vec![("Subtype", name("Image"))]);
    assert!(dict_is_image(&d));
}

#[test]
fn subtype_non_name_is_not_image() {
    let d = dict(vec![("Subtype", PdfValue::Integer(7))]);
    assert!(!dict_is_image(&d));
}

#[test]
fn filter_absent_is_not_jpeg() {
    let d = dict(vec![("Subtype", name("Image"))]);
    assert!(!dict_is_jpeg(&d));
}

#[test]
fn filter_other_encoding_is_not_jpeg() {
    let d = dict(vec![("Subtype", name("Image")), ("Filter", name("FlateDecode"))]);
    assert!(!dict_is_jpeg(&d));
}

#[test]
fn filter_dctdecode_is_jpeg() {
    let d = dict(vec![("Filter", name("DCTDecode"))]);
    assert!(dict_is_jpeg(&d));
}

#[test]
fn filter_legacy_dct_is_jpeg() {
    let d = dict(vec![("Filter", name("DCT"))]);
    assert!(dict_is_jpeg(&d));
}

#[test]
fn info_counts_by_classification() {
    let d = doc(vec![
        (addr(1, 0), stream(vec![("Subtype", name("Image")), ("Filter", name("DCTDecode"))], b"jpegdata")),
        (addr(2, 0), stream(vec![("Subtype", name("Image")), ("Filter", name("FlateDecode"))], b"flatedata")),
        (addr(3, 0), stream(vec![("Length", PdfValue::Integer(4))], b"text")),
        (addr(4, 0), PdfValue::Dictionary(dict(vec![("Subtype", name("Image"))]))),
        (addr(5, 0), PdfValue::Integer(12)),
    ]);
    let info = get_pdf_info(&d, 3, 12345);
    assert_eq!(info.page_count, 3);
    assert_eq!(info.total_size, 12345);
    assert_eq!(info.total_objects, 5);
    assert_eq!(info.image_count, 2);
    assert_eq!(info.jpeg_images, 1);
}

#[test]
fn info_on_empty_document() {
    let d = doc(vec![]);
    let info = get_pdf_info(&d, 0, 0);
    assert_eq!(info.total_objects, 0);
    assert_eq!(info.image_count, 0);
    assert_eq!(info.jpeg_images, 0);
}
