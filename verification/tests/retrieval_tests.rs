use filedrop::error::Error;
use filedrop::naming::generate_filename;
use filedrop::retrieval::{strip_extension, sniff_content_type, view_content};

#[test]
fn extension_is_stripped_at_first_dot() {
    assert_eq!(strip_extension(&b"abc123.png".to_vec()), b"abc123".to_vec());
    assert_eq!(strip_extension(&b"abc123.tar.gz".to_vec()), b"abc123".to_vec());
    assert_eq!(strip_extension(&b"abc123".to_vec()), b"abc123".to_vec());
    assert_eq!(strip_extension(&b".hidden".to_vec()), Vec::<u8>::new());
    assert_eq!(strip_extension(&Vec::new()), Vec::<u8>::new());
}

#[test]
fn unknown_name_is_not_found() {
    match view_content(None) {
        Err(Error::FileNotFound) => {}
        Ok(_) => panic!("an absent file must be a not-found error"),
        Err(_) => panic!("an absent file maps to the not-found error"),
    }
}

#[test]
fn present_bytes_come_back_whole() {
    let data = b"arbitrary stored bytes".to_vec();
    match view_content(Some(data.clone())) {
        Ok((_, bytes)) => assert_eq!(bytes, data),
        Err(_) => panic!("present bytes must be answered"),
    }
}

#[test]
fn recognisable_content_is_sniffed() {
    // The PNG signature.
    let png = vec![0x89, b'P', b'N', b'G', 0x0d, 0x0a, 0x1a, 0x0a];
    assert_eq!(sniff_content_type(&png), Some("image/png".to_string()));
    match view_content(Some(png)) {
        Ok((mime, _)) => assert_eq!(mime, Some("image/png".to_string())),
        Err(_) => panic!("present bytes must be answered"),
    }
}

#[test]
fn unrecognisable_content_has_no_type() {
    assert_eq!(sniff_content_type(&b"plain text".to_vec()), None);
}

#[test]
fn generated_names_are_short_alphanumeric() {
    for _ in 0..32 {
        let name = generate_filename();
        assert_eq!(name.len(), 6);
        assert!(name.bytes().all(|b| b.is_ascii_alphanumeric()));
    }
}

#[test]
fn error_status_codes_match_their_kinds() {
    assert_eq!(Error::IoError("disk".to_string()).status_code(), 500);
    assert_eq!(Error::Multipart("empty".to_string()).status_code(), 400);
    assert_eq!(Error::FileNotFound.status_code(), 404);
    assert_eq!(Error::BadRequest("missing field".to_string()).status_code(), 400);
    assert_eq!(Error::IndexCorruption.status_code(), 500);
}
