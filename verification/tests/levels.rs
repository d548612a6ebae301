use pdf_image_core::level::{compression_level_from_string, CompressionLevel};

#[test]
fn level_words_select_their_levels() {
    assert_eq!(compression_level_from_string("light"), Some(CompressionLevel::Light));
    assert_eq!(compression_level_from_string("medium"), Some(CompressionLevel::Medium));
    assert_eq!(compression_level_from_string("high"), Some(CompressionLevel::High));
}

#[test]
fn letter_case_does_not_matter() {
    assert_eq!(compression_level_from_string("LIGHT"), Some(CompressionLevel::Light));
    assert_eq!(compression_level_from_string("Medium"), Some(CompressionLevel::Medium));
    assert_eq!(compression_level_from_string("hIgH"), Some(CompressionLevel::High));
}

#[test]
fn other_words_select_nothing() {
    assert_eq!(compression_level_from_string("ultra"), None);
    assert_eq!(compression_level_from_string(""), None);
    assert_eq!(compression_level_from_string("light "), None);
    assert_eq!(compression_level_from_string("lighter"), None);
}
