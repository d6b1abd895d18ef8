use textract::dispatch::{classify, extension_of, kind_for_extension, FileKind};
use textract::error::ExtractError;
use textract::extract;
use textract::markup::extract_markup;
use textract::plain::extract_plain;

#[test]
fn plain_text_passes_through() {
    let content = b"hello\nworld";
    let r = extract(b"notes.txt", content);
    assert!(matches!(r, Ok(Some(ref s)) if s == "hello\nworld"));
}

#[test]
fn plain_text_empty_file() {
    let r = extract(b"empty.txt", b"");
    assert!(matches!(r, Ok(Some(ref s)) if s.is_empty()));
}

#[test]
fn plain_text_repeated_extraction_is_identical() {
    let content = b"same bytes";
    let once = extract_plain(content);
    let twice = extract_plain(&once);
    assert_eq!(once, content.to_vec());
    assert_eq!(twice, content.to_vec());
    let first = extract(b"a.txt", content);
    let second = extract(b"a.txt", content);
    assert!(matches!(first, Ok(Some(ref s)) if s == "same bytes"));
    assert!(matches!(second, Ok(Some(ref s)) if s == "same bytes"));
}

#[test]
fn plain_text_invalid_encoding_fails() {
    let r = extract(b"bad.txt", &[0xff, 0xfe, 0x00]);
    assert!(matches!(r, Err(ExtractError::InvalidEncoding)));
}

#[test]
fn plain_text_decodes_multibyte_utf8() {
    let r = extract(b"accent.txt", &[0xc3, 0xa9]);
    assert!(matches!(r, Ok(Some(ref s)) if s == "\u{e9}"));
    let truncated = extract(b"accent.txt", &[0xc3]);
    assert!(matches!(truncated, Err(ExtractError::InvalidEncoding)));
}

#[test]
fn markup_concatenates_character_data() {
    let r = extract_markup(b"<a>Hello <b>World</b>!</a>");
    assert_eq!(r, Some(String::from("Hello World!")));
}

#[test]
fn markup_through_pipeline() {
    let r = extract(b"doc.xml", b"<a>Hello <b>World</b>!</a>");
    assert!(matches!(r, Ok(Some(ref s)) if s == "Hello World!"));
}

#[test]
fn markup_without_character_data_is_absent() {
    assert_eq!(extract_markup(b"<a><b/></a>"), None);
    assert_eq!(extract_markup(b"<a></a>"), None);
    let r = extract(b"doc.xml", b"<a><b/></a>");
    assert!(matches!(r, Ok(None)));
}

#[test]
fn markup_attributes_do_not_contribute() {
    let bare = extract_markup(b"<a>Hello <b>World</b>!</a>");
    let attributed = extract_markup(b"<a id=\"1\">Hello <b class=\"x\">World</b>!</a>");
    assert_eq!(bare, attributed);
}

#[test]
fn markup_comments_do_not_contribute() {
    let r = extract_markup(b"<a>Hi<!-- secret --> there</a>");
    assert_eq!(r, Some(String::from("Hi there")));
}

#[test]
fn markup_whitespace_only_regions_are_dropped() {
    let r = extract_markup(b"<a>  <b>x</b></a>");
    assert_eq!(r, Some(String::from("x")));
}

#[test]
fn markup_keeps_data_before_malformed_tail() {
    let r = extract_markup(b"<a>Hello</wrong>");
    assert_eq!(r, Some(String::from("Hello")));
}

#[test]
fn unsupported_extension_is_rejected() {
    let r = extract(b"data.csv", b"1,2,3");
    assert!(matches!(r, Err(ExtractError::UnsupportedExtension(ref v)) if v == b"csv"));
}

#[test]
fn missing_extension_is_rejected() {
    let r = extract(b"data", b"whatever");
    assert!(matches!(r, Err(ExtractError::MissingExtension)));
}

#[test]
fn dot_in_directory_does_not_count_as_extension() {
    let r = classify(b"dir.d/file");
    assert!(matches!(r, Err(ExtractError::MissingExtension)));
}

#[test]
fn classify_recognizes_all_markup_extensions() {
    assert!(matches!(classify(b"p.xml"), Ok(FileKind::Markup)));
    assert!(matches!(classify(b"p.xhtml"), Ok(FileKind::Markup)));
    assert!(matches!(classify(b"p.html"), Ok(FileKind::Markup)));
    assert!(matches!(classify(b"p.txt"), Ok(FileKind::PlainText)));
}

#[test]
fn classify_is_case_sensitive() {
    assert!(matches!(
        classify(b"p.XML"),
        Err(ExtractError::UnsupportedExtension(ref v)) if v == b"XML"
    ));
}

#[test]
fn extension_of_takes_last_dot_of_final_segment() {
    assert_eq!(extension_of(b"archive.tar.gz"), Some(b"gz".to_vec()));
    assert_eq!(extension_of(b"/home/user.name/file.txt"), Some(b"txt".to_vec()));
    assert_eq!(extension_of(b"/home/user.name/file"), None);
    assert_eq!(extension_of(b"trailing."), Some(b"".to_vec()));
    assert_eq!(extension_of(b".hidden"), Some(b"hidden".to_vec()));
    assert_eq!(extension_of(b""), None);
}

#[test]
fn kind_for_extension_rejects_unknown() {
    assert_eq!(kind_for_extension(b"csv"), None);
    assert_eq!(kind_for_extension(b""), None);
    assert_eq!(kind_for_extension(b"xm"), None);
    assert_eq!(kind_for_extension(b"xmll"), None);
}
