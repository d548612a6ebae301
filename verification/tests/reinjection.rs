use pdf_image_core::extract::extract_images;
use pdf_image_core::reinject::{reinject_images, ReplacementRecord};
use pdf_image_core::types::{Dict, Document, ObjectAddress, PdfValue, StreamObject};

fn dict(pairs: Vec<(&str, PdfValue)>) -> Dict {
    let mut d = Dict::new();
    for (k, v) in pairs {
        d.set_value(k.as_bytes().to_vec(), v);
    }
    d
}

fn name(s: &str) -> PdfValue {
    PdfValue::Name(s.as_bytes().to_vec())
}

fn stream(pairs: Vec<(&str, PdfValue)>, content: &[u8]) -> PdfValue {
    PdfValue::Stream(StreamObject { dict: dict(pairs), content: content.to_vec() })
}

fn addr(id: u32, generation: u16) -> ObjectAddress {
    ObjectAddress { id, generation }
}

fn doc(objects: Vec<(ObjectAddress, PdfValue)>) -> Document {
    let mut d = Document::new();
    for (a, o) in objects {
        d.push_object(a, o);
    }
    d
}

fn record(object_id: &str, data: &[u8], width: u32, height: u32) -> ReplacementRecord {
    ReplacementRecord {
        object_id: object_id.as_bytes().to_vec(),
        data: data.to_vec(),
        width,
        height,
    }
}

fn jpeg_image_doc() -> Document {
    doc(vec![(
        addr(5, 0),
        stream(
            vec![
                ("Subtype", name("Image")),
                ("Filter", name("DCTDecode")),
                ("Width", PdfValue::Integer(100)),
                ("Height", PdfValue::Integer(50)),
                ("Length", PdfValue::Integer(20)),
                ("ColorSpace", name("DeviceRGB")),
            ],
            b"jpeg payload bytes..",
        ),
    )])
}

fn stream_at(d: &Document, a: ObjectAddress) -> &StreamObject {
    match d.get_object(a) {
        Some(PdfValue::Stream(st)) => st,
        Some(_) => panic!("object is not a stream"),
        None => panic!("no object at that address"),
    }
}

fn attr<'a>(st: &'a StreamObject, key: &str) -> Option<&'a PdfValue> {
    st.dict.get(key.as_bytes())
}

#[test]
fn selective_overwrite_scenario() {
    let mut d = jpeg_image_doc();
    let report = reinject_images(&mut d, &vec![record("5-0", b"new jpeg..", 80, 40)]);
    assert_eq!(report.attempted, 1);
    assert_eq!(report.succeeded, 1);
    let st = stream_at(&d, addr(5, 0));
    assert_eq!(st.content, b"new jpeg..".to_vec());
    assert_eq!(attr(st, "Width"), Some(&PdfValue::Integer(80)));
    assert_eq!(attr(st, "Height"), Some(&PdfValue::Integer(40)));
    assert_eq!(attr(st, "Length"), Some(&PdfValue::Integer(10)));
    assert_eq!(attr(st, "Filter"), Some(&name("DCTDecode")));
    assert_eq!(attr(st, "ColorSpace"), Some(&name("DeviceRGB")));
    assert_eq!(attr(st, "Subtype"), Some(&name("Image")));
}

#[test]
fn malformed_address_is_skipped() {
    let mut d = jpeg_image_doc();
    let report = reinject_images(&mut d, &vec![record("abc-0", b"new", 1, 1)]);
    assert_eq!(report.attempted, 1);
    assert_eq!(report.succeeded, 0);
    assert_eq!(d, jpeg_image_doc());
}

#[test]
fn malformed_record_does_not_disturb_the_rest() {
    let mut d = doc(vec![
        (addr(1, 0), stream(vec![("Subtype", name("Image")), ("Filter", name("DCTDecode"))], b"one")),
        (addr(2, 0), stream(vec![("Subtype", name("Image")), ("Filter", name("DCTDecode"))], b"two")),
    ]);
    let report = reinject_images(
        &mut d,
        &vec![
            record("1-0", b"ONE!", 10, 10),
            record("abc-0", b"bad", 1, 1),
            record("2-0", b"TWO!!", 20, 20),
        ],
    );
    assert_eq!(report.attempted, 3);
    assert_eq!(report.succeeded, 2);
    assert_eq!(stream_at(&d, addr(1, 0)).content, b"ONE!".to_vec());
    assert_eq!(stream_at(&d, addr(2, 0)).content, b"TWO!!".to_vec());
}

#[test]
fn unresolvable_address_is_skipped() {
    let mut d = jpeg_image_doc();
    let report = reinject_images(&mut d, &vec![record("9-0", b"new", 1, 1)]);
    assert_eq!(report.attempted, 1);
    assert_eq!(report.succeeded, 0);
    assert_eq!(d, jpeg_image_doc());
}

#[test]
fn non_stream_target_is_skipped() {
    let original = || {
        doc(vec![(addr(7, 0), PdfValue::Dictionary(dict(vec![("Subtype", name("Image"))])))])
    };
    let mut d = original();
    let report = reinject_images(&mut d, &vec![record("7-0", b"new", 1, 1)]);
    assert_eq!(report.attempted, 1);
    assert_eq!(report.succeeded, 0);
    assert_eq!(d, original());
}

#[test]
fn empty_batch_changes_nothing() {
    let mut d = jpeg_image_doc();
    let report = reinject_images(&mut d, &vec![]);
    assert_eq!(report.attempted, 0);
    assert_eq!(report.succeeded, 0);
    assert_eq!(d, jpeg_image_doc());
}

#[test]
fn absent_filter_defaults_to_dctdecode() {
    let mut d = doc(vec![(
        addr(3, 0),
        stream(vec![("Subtype", name("Image"))], b"raw"),
    )]);
    let report = reinject_images(&mut d, &vec![record("3-0", b"xy", 2, 2)]);
    assert_eq!(report.succeeded, 1);
    let st = stream_at(&d, addr(3, 0));
    assert_eq!(attr(st, "Filter"), Some(&name("DCTDecode")));
}

#[test]
fn legacy_filter_is_kept_verbatim() {
    let mut d = doc(vec![(
        addr(3, 0),
        stream(vec![("Subtype", name("Image")), ("Filter", name("DCT"))], b"raw"),
    )]);
    reinject_images(&mut d, &vec![record("3-0", b"xy", 2, 2)]);
    let st = stream_at(&d, addr(3, 0));
    assert_eq!(attr(st, "Filter"), Some(&name("DCT")));
}

#[test]
fn last_record_for_one_target_wins() {
    let mut d = jpeg_image_doc();
    let report = reinject_images(
        &mut d,
        &vec![record("5-0", b"first", 1, 1), record("5-0", b"second", 2, 3)],
    );
    assert_eq!(report.succeeded, 2);
    let st = stream_at(&d, addr(5, 0));
    assert_eq!(st.content, b"second".to_vec());
    assert_eq!(attr(st, "Width"), Some(&PdfValue::Integer(2)));
    assert_eq!(attr(st, "Height"), Some(&PdfValue::Integer(3)));
    assert_eq!(attr(st, "Length"), Some(&PdfValue::Integer(6)));
}

#[test]
fn attribute_order_is_preserved() {
    let mut d = jpeg_image_doc();
    let before: Vec<Vec<u8>> = stream_at(&d, addr(5, 0))
        .dict
        .entries
        .iter()
        .map(|e| e.key.clone())
        .collect();
    reinject_images(&mut d, &vec![record("5-0", b"zz", 8, 9)]);
    let after: Vec<Vec<u8>> = stream_at(&d, addr(5, 0))
        .dict
        .entries
        .iter()
        .map(|e| e.key.clone())
        .collect();
    assert_eq!(before, after);
}

#[test]
fn extract_then_reinject_same_payload_is_stable() {
    let mut d = jpeg_image_doc();
    let images = extract_images(&d);
    let records: Vec<ReplacementRecord> = images
        .iter()
        .map(|img| ReplacementRecord {
            object_id: format!("{}-{}", img.address.id, img.address.generation).into_bytes(),
            data: img.data.clone(),
            width: img.width,
            height: img.height,
        })
        .collect();
    let report = reinject_images(&mut d, &records);
    assert_eq!(report.succeeded, 1);
    assert_eq!(d, jpeg_image_doc());
}

#[test]
fn untargeted_objects_are_untouched() {
    let extra = || stream(vec![("Length", PdfValue::Integer(4))], b"text");
    let mut d = doc(vec![
        (addr(1, 0), stream(vec![("Subtype", name("Image")), ("Filter", name("DCTDecode"))], b"img")),
        (addr(2, 0), extra()),
        (addr(3, 0), PdfValue::Reference(addr(1, 0))),
    ]);
    reinject_images(&mut d, &vec![record("1-0", b"new", 4, 4)]);
    assert_eq!(d.objects[1].object, extra());
    assert_eq!(d.objects[2].object, PdfValue::Reference(addr(1, 0)));
    assert_eq!(d.objects[1].address, addr(2, 0));
    assert_eq!(d.objects[2].address, addr(3, 0));
}
