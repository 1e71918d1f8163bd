use baras::parsely::{can_parse_parsely_response, prepare_upload, upload_form_fields};
use flate2::read::GzDecoder;
use std::io::Read;

fn fields(u: &str, p: &str, g: &str) -> Vec<(String, String)> {
    upload_form_fields(u, p, g)
}

fn pair(a: &str, b: &str) -> (String, String) {
    (a.to_string(), b.to_string())
}

#[test]
fn anonymous_uploads_send_only_public() {
    assert_eq!(fields("", "secret", "guild"), vec![pair("public", "1")]);
}

#[test]
fn credentials_are_sent_with_a_username() {
    assert_eq!(
        fields("ayla", "pw", ""),
        vec![pair("public", "1"), pair("username", "ayla"), pair("password", "pw")]
    );
    assert_eq!(
        fields("ayla", "pw", "Red"),
        vec![pair("public", "1"), pair("username", "ayla"), pair("password", "pw"), pair("guild", "Red")]
    );
}

#[test]
fn upload_is_windows_1252_then_gzip() {
    let bytes = prepare_upload("caf\u{e9} [x]").ok().unwrap();
    assert_eq!(&bytes[..2], &[0x1f, 0x8b]);
    assert_eq!(&bytes[4..8], &[0, 0, 0, 0]);
    assert_eq!(bytes[9], 255);
    let mut plain = Vec::new();
    GzDecoder::new(&bytes[..]).read_to_end(&mut plain).unwrap();
    assert_eq!(plain, vec![b'c', b'a', b'f', 0xe9, b' ', b'[', b'x', b']']);
}

#[test]
fn readable_replies() {
    assert!(can_parse_parsely_response("<file>https://parsely.io/x</file>"));
    assert!(can_parse_parsely_response("NOT OK</file><file>"));
    assert!(can_parse_parsely_response("nothing here"));
    assert!(!can_parse_parsely_response("</file><file>"));
    assert!(!can_parse_parsely_response("x</file>y<file>"));
    assert!(can_parse_parsely_response("<file></file>"));
    assert!(can_parse_parsely_response("<file</file>>"));
}
