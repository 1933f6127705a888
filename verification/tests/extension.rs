use rush::error::RushError;
use rush::extension::{eq_ignore_ascii_case, file_has_right_extension};
use rush::table::{table_format, TableFormat, TableFormatError};

const IMAGES: [&str; 6] = ["jpg", "jpeg", "png", "bmp", "gif", "tiff"];

#[test]
fn listed_extension_is_accepted() {
    assert_eq!(file_has_right_extension(Some("png"), &IMAGES), Ok(()));
    assert_eq!(file_has_right_extension(Some("tiff"), &IMAGES), Ok(()));
    assert_eq!(file_has_right_extension(Some("wav"), &["wav"]), Ok(()));
}

#[test]
fn extension_case_does_not_matter() {
    assert_eq!(file_has_right_extension(Some("PNG"), &IMAGES), Ok(()));
    assert_eq!(file_has_right_extension(Some("JpEg"), &IMAGES), Ok(()));
    assert_eq!(file_has_right_extension(Some("wav"), &["WAV"]), Ok(()));
}

#[test]
fn unlisted_extension_is_refused() {
    assert_eq!(
        file_has_right_extension(Some("txt"), &IMAGES),
        Err(RushError::UnsupportedFormat)
    );
    assert_eq!(
        file_has_right_extension(Some("pn"), &IMAGES),
        Err(RushError::UnsupportedFormat)
    );
    assert_eq!(
        file_has_right_extension(Some("pngx"), &IMAGES),
        Err(RushError::UnsupportedFormat)
    );
    assert_eq!(
        file_has_right_extension(Some(""), &IMAGES),
        Err(RushError::UnsupportedFormat)
    );
    assert_eq!(
        file_has_right_extension(Some("png"), &[]),
        Err(RushError::UnsupportedFormat)
    );
}

#[test]
fn missing_extension_is_refused() {
    assert_eq!(
        file_has_right_extension(None, &IMAGES),
        Err(RushError::UnsupportedFormat)
    );
}

#[test]
fn only_ascii_letters_are_folded() {
    assert!(eq_ignore_ascii_case("Abc", "aBC"));
    assert!(eq_ignore_ascii_case("", ""));
    assert!(!eq_ignore_ascii_case("abc", "abd"));
    assert!(!eq_ignore_ascii_case("abc", "ab"));
    assert!(!eq_ignore_ascii_case("[", "{"));
    assert!(!eq_ignore_ascii_case("@", "`"));
    assert!(!eq_ignore_ascii_case("É", "é"));
    assert!(eq_ignore_ascii_case("éA", "éa"));
    for (a, b) in [("Z", "z"), ("A", "a"), ("0", "0"), ("a", "b"), ("Ä", "ä")] {
        assert_eq!(eq_ignore_ascii_case(a, b), a.eq_ignore_ascii_case(b));
    }
}

#[test]
fn table_format_by_extension() {
    assert_eq!(table_format(Some("csv")), Ok(TableFormat::Csv));
    assert_eq!(table_format(Some("parquet")), Ok(TableFormat::Parquet));
    assert_eq!(table_format(Some("CSV")), Ok(TableFormat::Csv));
    assert_eq!(table_format(Some("Parquet")), Ok(TableFormat::Parquet));
}

#[test]
fn table_format_errors() {
    assert_eq!(table_format(None), Err(TableFormatError::MissingExtension));
    assert_eq!(table_format(Some("txt")), Err(TableFormatError::Unsupported));
    assert_eq!(table_format(Some("")), Err(TableFormatError::Unsupported));
    assert_eq!(
        TableFormatError::MissingExtension.message(),
        "Failed to extract file extension"
    );
    assert_eq!(TableFormatError::Unsupported.message(), "Unsupported file format");
}
