use pdf_image_core::extract::extract_images;
use pdf_image_core::types::{Dict, Document, ObjectAddress, PdfValue, StreamObject};

fn dict(pairs: Vec<(&str, PdfValue)>) -> Dict {
    let mut d = Dict::new();
    for (k, v) in pairs {
        d.set_value(k.as_bytes().to_vec(), v);
    }
    d
}

fn name(s: &str) -> PdfValue {
    PdfValue::Name(s.as_bytes().to_vec())
}

fn stream(pairs: Vec<(&str, PdfValue)>, content: &[u8]) -> PdfValue {
    PdfValue::Stream(StreamObject { dict: dict(pairs), content: content.to_vec() })
}

fn addr(id: u32, generation: u16) -> ObjectAddress {
    ObjectAddress { id, generation }
}

fn doc(objects: Vec<(ObjectAddress, PdfValue)>) -> Document {
    let mut d = Document::new();
    for (a, o) in objects {
        d.push_object(a, o);
    }
    d
}

#[test]
fn extracts_one_jpeg_image_with_geometry() {
    let payload = b"jpeg payload bytes.."; // 20 bytes
    assert_eq!(payload.len(), 20);
    let d = doc(vec![(
        addr(5, 0),
        stream(
            vec![
                ("Subtype", name("Image")),
                ("Filter", name("DCTDecode")),
                ("Width", PdfValue::Integer(100)),
                ("Height", PdfValue::Integer(50)),
                ("ColorSpace", name("DeviceRGB")),
            ],
            payload,
        ),
    )]);
    let images = extract_images(&d);
    assert_eq!(images.len(), 1);
    assert_eq!(images[0].address, addr(5, 0));
    assert_eq!(images[0].data, payload.to_vec());
    assert_eq!(images[0].data.len(), 20);
    assert_eq!(images[0].width, 100);
    assert_eq!(images[0].height, 50);
}

#[test]
fn absent_geometry_defaults_to_zero() {
    let d = doc(vec![(
        addr(1, 0),
        stream(vec![("Subtype", name("Image")), ("Filter", name("DCTDecode"))], b"x"),
    )]);
    let images = extract_images(&d);
    assert_eq!(images.len(), 1);
    assert_eq!(images[0].width, 0);
    assert_eq!(images[0].height, 0);
}

#[test]
fn non_integer_geometry_defaults_to_zero() {
    let d = doc(vec![(
        addr(1, 0),
        stream(
            vec![
                ("Subtype", name("Image")),
                ("Filter", name("DCTDecode")),
                ("Width", name("Wide")),
                ("Height", PdfValue::Boolean(true)),
            ],
            b"x",
        ),
    )]);
    let images = extract_images(&d);
    assert_eq!(images.len(), 1);
    assert_eq!(images[0].width, 0);
    assert_eq!(images[0].height, 0);
}

#[test]
fn geometry_is_truncated_to_32_bits() {
    let d = doc(vec![(
        addr(1, 0),
        stream(
            vec![
                ("Subtype", name("Image")),
                ("Filter", name("DCTDecode")),
                ("Width", PdfValue::Integer(-1)),
                ("Height", PdfValue::Integer(0x1_0000_0002)),
            ],
            b"x",
        ),
    )]);
    let images = extract_images(&d);
    assert_eq!(images.len(), 1);
    assert_eq!(images[0].width, u32::MAX);
    assert_eq!(images[0].height, 2);
}

#[test]
fn non_jpeg_streams_yield_nothing() {
    let d = doc(vec![
        (addr(1, 0), stream(vec![("Subtype", name("Image"))], b"no filter")),
        (addr(2, 0), stream(vec![("Subtype", name("Image")), ("Filter", name("FlateDecode"))], b"flate")),
        (addr(3, 0), stream(vec![("Filter", name("DCTDecode"))], b"no subtype")),
        (addr(4, 0), PdfValue::Null),
    ]);
    let images = extract_images(&d);
    assert_eq!(images.len(), 0);
}

#[test]
fn extraction_follows_traversal_order() {
    let d = doc(vec![
        (addr(9, 1), stream(vec![("Subtype", name("Image")), ("Filter", name("DCT"))], b"first")),
        (addr(2, 0), PdfValue::Integer(0)),
        (addr(4, 0), stream(vec![("Subtype", name("Image")), ("Filter", name("DCTDecode"))], b"second")),
    ]);
    let images = extract_images(&d);
    assert_eq!(images.len(), 2);
    assert_eq!(images[0].address, addr(9, 1));
    assert_eq!(images[0].data, b"first".to_vec());
    assert_eq!(images[1].address, addr(4, 0));
    assert_eq!(images[1].data, b"second".to_vec());
}
