use wsl_clip::classifier::{
    classify_content, has_null_byte, inspect, inspect_all, is_asset_extension,
    is_asset_extension_name, lowercase, to_ascii_lower, ClassifyError, ClipboardStrategy,
    SAMPLE_LEN,
};
use wsl_clip::paths::InputPath;

const PNG: [u8; 12] = [0x89, 0x50, 0x4E, 0x47, 0x0D, 0x0A, 0x1A, 0x0A, 0, 0, 0, 13];

fn plain(text: &str) -> InputPath {
    InputPath::new(text, None)
}

#[test]
fn test_asset_extension() {
    assert_eq!(
        inspect(&InputPath::new("model.dxf", Some("dxf")), None).unwrap(),
        ClipboardStrategy::File
    );
    assert_eq!(
        inspect(&InputPath::new("image.SVG", Some("SVG")), None).unwrap(),
        ClipboardStrategy::File
    );
}

#[test]
fn test_classify_text() {
    let path = InputPath::new("/tmp/.tmpA1b2C3", None);
    assert_eq!(
        inspect(&path, Some("Hello World".as_bytes())).unwrap(),
        ClipboardStrategy::Text
    );
}

#[test]
fn test_classify_binary_nulls() {
    let path = InputPath::new("/tmp/.tmpA1b2C3", None);
    assert_eq!(
        inspect(&path, Some(&[0x00, 0x01, 0x02])).unwrap(),
        ClipboardStrategy::File
    );
}

#[test]
fn asset_extension_wins_in_any_case_and_over_any_content() {
    for ext in ["dxf", "DXF", "Dxf", "dXf"] {
        let path = InputPath::new("model.x", Some(ext));
        assert!(is_asset_extension(&path));
        assert_eq!(inspect(&path, None), Ok(ClipboardStrategy::File));
        assert_eq!(inspect(&path, Some(&PNG)), Ok(ClipboardStrategy::File));
        assert_eq!(inspect(&path, Some(b"plain text")), Ok(ClipboardStrategy::File));
        assert_eq!(inspect(&path, Some(&[])), Ok(ClipboardStrategy::File));
    }
}

#[test]
fn every_asset_extension_is_known() {
    let all = [
        "dxf", "obj", "stl", "ply", "gcode", "svg", "eps", "ai", "psd", "pdf", "zip", "7z", "tar",
        "gz", "rar", "iso", "dll", "bin", "exe", "jar", "class",
    ];
    for ext in all {
        assert!(is_asset_extension_name(ext), "{}", ext);
        assert!(is_asset_extension_name(&ext.to_uppercase()), "{}", ext);
    }
    for ext in ["", "txt", "rs", "dx", "dxff", "png", "c", "clas", " zip", "zip ", "\u{212A}"] {
        assert!(!is_asset_extension_name(ext), "{:?}", ext);
    }
}

#[test]
fn missing_extension_never_matches() {
    assert!(!is_asset_extension(&plain("Makefile")));
    assert!(!is_asset_extension(&plain("zip")));
    assert!(!is_asset_extension(&InputPath::new("notes.", Some(""))));
}

#[test]
fn empty_file_is_text() {
    assert_eq!(classify_content(&[]), ClipboardStrategy::Text);
    assert_eq!(inspect(&plain("empty"), Some(&[])), Ok(ClipboardStrategy::Text));
}

#[test]
fn unreadable_content_is_an_error_unless_the_extension_decides() {
    assert_eq!(inspect(&plain("gone.txt"), None), Err(ClassifyError::Unreadable));
    assert_eq!(
        inspect(&InputPath::new("gone.txt", Some("txt")), None),
        Err(ClassifyError::Unreadable)
    );
    assert_eq!(
        inspect(&InputPath::new("gone.zip", Some("zip")), None),
        Ok(ClipboardStrategy::File)
    );
}

#[test]
fn image_signatures_make_images() {
    assert_eq!(classify_content(&PNG), ClipboardStrategy::Image);
    assert_eq!(classify_content(&[0xFF, 0xD8, 0xFF, 0xAA]), ClipboardStrategy::Image);
    assert_eq!(classify_content(b"GIF89a"), ClipboardStrategy::Image);
    assert_eq!(classify_content(b"BM\x00\x00"), ClipboardStrategy::Image);
}

#[test]
fn archive_and_application_signatures_make_file_objects() {
    assert_eq!(classify_content(b"PK\x03\x04rest"), ClipboardStrategy::File);
    assert_eq!(classify_content(&[0x1F, 0x8B, 0x08, 0x00]), ClipboardStrategy::File);
    assert_eq!(classify_content(b"%PDF-1.4"), ClipboardStrategy::File);
    assert_eq!(classify_content(b"MZ\x90"), ClipboardStrategy::File);
    let mut elf = vec![0x7F, 0x45, 0x4C, 0x46];
    elf.resize(64, 1);
    assert_eq!(classify_content(&elf), ClipboardStrategy::File);
    let ole = [0xD0, 0xCF, 0x11, 0xE0, 0xA1, 0xB1, 0x1A, 0xE1, 1, 1];
    assert_eq!(classify_content(&ole), ClipboardStrategy::File);
}

#[test]
fn null_byte_without_signature_makes_a_file_object() {
    assert_eq!(classify_content(&[b'a', 0, b'b']), ClipboardStrategy::File);
    assert_eq!(classify_content(&[b'a', b'b', 0]), ClipboardStrategy::File);
    assert_eq!(classify_content(&[0]), ClipboardStrategy::File);
    assert_eq!(classify_content(b"ab"), ClipboardStrategy::Text);
}

#[test]
fn only_the_sample_counts() {
    assert_eq!(SAMPLE_LEN, 262);
    let mut content = vec![b'a'; 300];
    content[262] = 0;
    assert_eq!(classify_content(&content), ClipboardStrategy::Text);
    content[261] = 0;
    assert_eq!(classify_content(&content), ClipboardStrategy::File);
    let mut late = vec![b'a'; 262];
    late.extend_from_slice(&PNG);
    assert_eq!(classify_content(&late), ClipboardStrategy::Text);
}

#[test]
fn null_bytes_are_found() {
    assert!(!has_null_byte(&[]));
    assert!(!has_null_byte(&[1, 2, 3]));
    assert!(has_null_byte(&[1, 2, 0]));
    assert!(has_null_byte(&[0, 2, 3]));
}

#[test]
fn lowercase_touches_ascii_capitals_only() {
    assert_eq!(lowercase("DXF"), "dxf");
    assert_eq!(lowercase("TaR.Gz"), "tar.gz");
    assert_eq!(lowercase("@[`{AZaz09"), "@[`{azaz09");
    assert_eq!(lowercase("\u{C9}\u{212A}"), "\u{C9}\u{212A}");
    assert_eq!(lowercase(""), "");
    assert_eq!(to_ascii_lower('A'), 'a');
    assert_eq!(to_ascii_lower('Z'), 'z');
    assert_eq!(to_ascii_lower('a'), 'a');
    assert_eq!(to_ascii_lower('['), '[');
}

#[test]
fn a_batch_is_classified_in_order() {
    let paths = vec![
        plain("a.txt"),
        InputPath::new("b.zip", Some("zip")),
        InputPath::new("c.png", Some("png")),
    ];
    let contents = vec![Some(b"text".to_vec()), None, Some(PNG.to_vec())];
    assert_eq!(
        inspect_all(&paths, &contents),
        Ok(vec![ClipboardStrategy::Text, ClipboardStrategy::File, ClipboardStrategy::Image])
    );
    assert_eq!(inspect_all(&Vec::new(), &Vec::new()), Ok(Vec::new()));
}

#[test]
fn a_batch_ends_on_the_first_unreadable_input() {
    let paths = vec![plain("a"), plain("b"), plain("c")];
    let contents = vec![Some(b"x".to_vec()), None, None];
    assert_eq!(inspect_all(&paths, &contents), Err(1));
    assert_eq!(inspect_all(&paths, &vec![Some(b"x".to_vec())]), Err(1));
    assert_eq!(inspect_all(&paths, &Vec::new()), Err(0));
}
