//! End-to-end scenarios for the line pipeline: envelope framing, the event
//! grammar, classification outcomes, and the compressed-container boundary.

use linehaul::events::{Event, EventParseError};
use linehaul::syslog::SyslogMessage;
use linehaul::ua::{classify, Classification};
use linehaul::{process, process_reader, DiagKind};
use flate2::write::GzEncoder;
use flate2::Compression;
use std::io::Write;

fn lines_of(strs: &[&str]) -> Vec<Vec<u8>> {
    strs.iter().map(|s| s.as_bytes().to_vec()).collect()
}

const GOOD_LINE: &str = r#"<134>1 2023-01-01T00:00:00Z edge-1 cdn - - GET /packages/py3/f/foo/foo-1.2.3-py3-none-any.whl 200 4096 - TLSv1.3 "pip/23.0 {\"installer\":{\"name\":\"pip\",\"version\":\"23.0\"},\"python\":\"3.11.1\"}""#;

#[test]
fn well_formed_line_yields_package_event() {
    let (events, diags) = process(&lines_of(&[GOOD_LINE]));
    assert_eq!(events.len(), 1);
    assert_eq!(diags.len(), 0);
    let e = &events[0];
    assert_eq!(e.occurred_at, Some(b"2023-01-01T00:00:00Z".to_vec()));
    assert_eq!(e.method, b"GET".to_vec());
    assert_eq!(
        e.request_path,
        b"/packages/py3/f/foo/foo-1.2.3-py3-none-any.whl".to_vec()
    );
    assert_eq!(e.status_code, Some(200));
    assert_eq!(e.bytes_sent, Some(4096));
    assert_eq!(e.referrer, None);
    assert_eq!(e.tls_protocol, Some(b"TLSv1.3".to_vec()));
    let p = e.package.as_ref().expect("distribution path must resolve a package");
    assert_eq!(p.name, b"foo".to_vec());
    assert_eq!(p.version, b"1.2.3".to_vec());
    assert_eq!(p.filename, b"foo-1.2.3-py3-none-any.whl".to_vec());
    assert_eq!(e.client.installer_name, Some(b"pip".to_vec()));
    assert_eq!(e.client.installer_version, Some(b"23.0".to_vec()));
    assert_eq!(e.client.implementation_version, Some(b"3.11.1".to_vec()));
}

#[test]
fn envelope_message_is_exact_suffix() {
    let line = r#"<34>1 2023-05-06T07:08:09Z host app 77 msg7 hello world  spaced"#;
    let m = SyslogMessage::parse(line.as_bytes()).expect("well-formed envelope");
    assert_eq!(m.priority, 34);
    assert_eq!(m.version, b"1".to_vec());
    assert_eq!(m.timestamp, b"2023-05-06T07:08:09Z".to_vec());
    assert_eq!(m.hostname, b"host".to_vec());
    assert_eq!(m.app_name, b"app".to_vec());
    assert_eq!(m.process_id, b"77".to_vec());
    assert_eq!(m.message_id, b"msg7".to_vec());
    assert_eq!(m.message, b"hello world  spaced".to_vec());
    // Re-serializing the header fields plus the message reconstructs the line.
    let mut rebuilt = Vec::new();
    rebuilt.push(b'<');
    rebuilt.extend_from_slice(m.priority.to_string().as_bytes());
    rebuilt.push(b'>');
    rebuilt.extend_from_slice(&m.version);
    rebuilt.push(b' ');
    rebuilt.extend_from_slice(&m.timestamp);
    rebuilt.push(b' ');
    rebuilt.extend_from_slice(&m.hostname);
    rebuilt.push(b' ');
    rebuilt.extend_from_slice(&m.app_name);
    rebuilt.push(b' ');
    rebuilt.extend_from_slice(&m.process_id);
    rebuilt.push(b' ');
    rebuilt.extend_from_slice(&m.message_id);
    rebuilt.push(b' ');
    rebuilt.extend_from_slice(&m.message);
    assert_eq!(rebuilt, line.as_bytes().to_vec());
}

#[test]
fn envelope_without_version_token() {
    let line = "<0>- h a - m body";
    let m = SyslogMessage::parse(line.as_bytes()).expect("envelope without version");
    assert_eq!(m.priority, 0);
    assert_eq!(m.version, Vec::<u8>::new());
    assert_eq!(m.timestamp, b"-".to_vec());
    assert_eq!(m.message, b"body".to_vec());
}

#[test]
fn non_numeric_priority_is_error() {
    let (events, diags) = process(&lines_of(&["<13a>1 - h a - m body"]));
    assert_eq!(events.len(), 0);
    assert_eq!(diags.len(), 1);
    assert_eq!(diags[0].kind, DiagKind::Error);
}

#[test]
fn undelimited_priority_is_error() {
    let (events, diags) = process(&lines_of(&["134>1 - h a - m body"]));
    assert_eq!(events.len(), 0);
    assert_eq!(diags.len(), 1);
    assert_eq!(diags[0].kind, DiagKind::Error);
}

#[test]
fn ignorable_client_yields_ignored_diag() {
    let line = r#"<134>1 2023-01-01T00:00:00Z edge-1 cdn - - GET /packages/py3/f/foo/foo-1.2.3-py3-none-any.whl 200 4096 - TLSv1.3 "GoogleBot/2.1""#;
    let (events, diags) = process(&lines_of(&[line]));
    assert_eq!(events.len(), 0);
    assert_eq!(diags.len(), 1);
    assert_eq!(diags[0].kind, DiagKind::IgnoredUserAgent);
}

#[test]
fn ignorable_client_wins_over_bad_status() {
    // Ignorability takes precedence over every other field's shape.
    let line = r#"<134>1 2023-01-01T00:00:00Z edge-1 cdn - - GET /x OK 4096 - TLSv1.3 "GoogleBot/2.1""#;
    let (events, diags) = process(&lines_of(&[line]));
    assert_eq!(events.len(), 0);
    assert_eq!(diags.len(), 1);
    assert_eq!(diags[0].kind, DiagKind::IgnoredUserAgent);
}

#[test]
fn non_numeric_status_is_error() {
    let line = r#"<134>1 2023-01-01T00:00:00Z edge-1 cdn - - GET /packages/py3/f/foo/foo-1.2.3-py3-none-any.whl OK 4096 - TLSv1.3 "pip/23.0 {\"installer\":{\"name\":\"pip\",\"version\":\"23.0\"}}""#;
    let (events, diags) = process(&lines_of(&[line]));
    assert_eq!(events.len(), 0);
    assert_eq!(diags.len(), 1);
    assert_eq!(diags[0].kind, DiagKind::Error);
}

#[test]
fn non_numeric_byte_count_is_error() {
    let line = r#"<134>1 2023-01-01T00:00:00Z edge-1 cdn - - GET /x 200 40x6 - TLSv1.3 "pip/23.0""#;
    let (events, diags) = process(&lines_of(&[line]));
    assert_eq!(events.len(), 0);
    assert_eq!(diags.len(), 1);
    assert_eq!(diags[0].kind, DiagKind::Error);
}

#[test]
fn empty_client_is_invalid_not_error() {
    let line = r#"<134>1 2023-01-01T00:00:00Z edge-1 cdn - - GET /x 200 4096 - TLSv1.3 """#;
    let (events, diags) = process(&lines_of(&[line]));
    assert_eq!(events.len(), 0);
    assert_eq!(diags.len(), 1);
    assert_eq!(diags[0].kind, DiagKind::InvalidUserAgent);
}

#[test]
fn unknown_client_grammar_is_invalid_not_error() {
    let line = r#"<134>1 2023-01-01T00:00:00Z edge-1 cdn - - GET /x 200 4096 - TLSv1.3 "Mozilla/5.0 (compatible; weird)""#;
    let (events, diags) = process(&lines_of(&[line]));
    assert_eq!(events.len(), 0);
    assert_eq!(diags.len(), 1);
    assert_eq!(diags[0].kind, DiagKind::InvalidUserAgent);
}

#[test]
fn zero_length_line_yields_no_diagnostic() {
    let (events, diags) = process(&lines_of(&["", "", ""]));
    assert_eq!(events.len(), 0);
    assert_eq!(diags.len(), 0);
}

#[test]
fn invalid_utf8_line_is_dropped_with_warning() {
    let mut bad = b"<134>1 - h a - m ".to_vec();
    bad.push(0xff);
    bad.push(0xfe);
    let (events, diags) = process(&vec![bad.clone()]);
    assert_eq!(events.len(), 0);
    assert_eq!(diags.len(), 1);
    assert_eq!(diags[0].kind, DiagKind::InvalidEncoding);
    assert_eq!(diags[0].line, bad);
}

#[test]
fn legacy_compact_form_fills_positional_fields() {
    let line = r#"<134>1 2023-01-01T00:00:00Z edge-1 cdn - - GET /x 200 4096 - TLSv1.3 "pip/1.4 CPython/2.7.6 Linux/3.13.0""#;
    let (events, diags) = process(&lines_of(&[line]));
    assert_eq!(diags.len(), 0);
    assert_eq!(events.len(), 1);
    let c = &events[0].client;
    assert_eq!(c.installer_name, Some(b"pip".to_vec()));
    assert_eq!(c.installer_version, Some(b"1.4".to_vec()));
    assert_eq!(c.implementation_name, Some(b"CPython".to_vec()));
    assert_eq!(c.implementation_version, Some(b"2.7.6".to_vec()));
    assert_eq!(c.system_name, Some(b"Linux".to_vec()));
    assert_eq!(c.system_release, Some(b"3.13.0".to_vec()));
    assert!(events[0].package.is_none());
}

#[test]
fn structured_form_fills_rich_fields() {
    let ua = r#"pip/21.0 {\"installer\":{\"name\":\"pip\",\"version\":\"21.0\"},\"python\":\"3.9.1\",\"cpu\":\"x86_64\",\"ci\":true,\"openssl_version\":\"1.1.1\",\"setuptools_version\":\"51.0\",\"tls_protocol\":\"TLSv1.2\",\"system\":{\"name\":\"Linux\",\"release\":\"5.4.0\"},\"distro\":{\"name\":\"Ubuntu\",\"version\":\"20.04\"},\"unknown_key\":null}"#;
    let line = format!(
        r#"<134>1 2023-01-01T00:00:00Z edge-1 cdn - - GET /x 200 4096 - TLSv1.3 "{}""#,
        ua
    );
    let (events, diags) = process(&lines_of(&[line.as_str()]));
    assert_eq!(diags.len(), 0);
    assert_eq!(events.len(), 1);
    let c = &events[0].client;
    assert_eq!(c.installer_name, Some(b"pip".to_vec()));
    assert_eq!(c.installer_version, Some(b"21.0".to_vec()));
    assert_eq!(c.implementation_version, Some(b"3.9.1".to_vec()));
    assert_eq!(c.cpu, Some(b"x86_64".to_vec()));
    assert_eq!(c.ci, Some(true));
    assert_eq!(c.openssl_version, Some(b"1.1.1".to_vec()));
    assert_eq!(c.setuptools_version, Some(b"51.0".to_vec()));
    assert_eq!(c.tls_protocol, Some(b"TLSv1.2".to_vec()));
    assert_eq!(c.system_name, Some(b"Linux".to_vec()));
    assert_eq!(c.system_release, Some(b"5.4.0".to_vec()));
    assert_eq!(c.distro_name, Some(b"Ubuntu".to_vec()));
    assert_eq!(c.distro_version, Some(b"20.04".to_vec()));
}

#[test]
fn classifier_outcomes_direct() {
    match classify(b"ELB-HealthChecker/2.0") {
        Classification::Ignored => {}
        _ => panic!("health checker must be ignored"),
    }
    match classify(b"pip/9.0.1") {
        Classification::Client(c) => {
            assert_eq!(c.installer_name, Some(b"pip".to_vec()));
            assert_eq!(c.installer_version, Some(b"9.0.1".to_vec()));
        }
        _ => panic!("bare name/version must classify"),
    }
    match classify(b"") {
        Classification::Invalid => {}
        _ => panic!("empty client string must be invalid"),
    }
}

#[test]
fn event_parse_outcomes_direct() {
    let r = Event::parse(br#"GET /x 200 4096 - TLSv1.3 "nonsense without a slash""#);
    assert_eq!(r.err(), Some(EventParseError::InvalidUserAgent));
    let r = Event::parse(b"too few tokens");
    assert_eq!(r.err(), Some(EventParseError::Error));
}

#[test]
fn sentinel_fields_decode_to_absent() {
    let line = r#"<134>1 2023-01-01T00:00:00Z edge-1 cdn - - GET /x - - - - "pip/9.0.1""#;
    let (events, diags) = process(&lines_of(&[line]));
    assert_eq!(diags.len(), 0);
    assert_eq!(events.len(), 1);
    let e = &events[0];
    assert_eq!(e.status_code, None);
    assert_eq!(e.bytes_sent, None);
    assert_eq!(e.referrer, None);
    assert_eq!(e.tls_protocol, None);
    assert!(e.package.is_none());
}

#[test]
fn absent_envelope_timestamp_leaves_occurred_at_empty() {
    let line = r#"<134>1 - edge-1 cdn - - GET /x 200 4096 - TLSv1.3 "pip/9.0.1""#;
    let (events, diags) = process(&lines_of(&[line]));
    assert_eq!(diags.len(), 0);
    assert_eq!(events.len(), 1);
    assert_eq!(events[0].occurred_at, None);
}

#[test]
fn corrupt_container_is_single_fatal_failure() {
    let garbage = vec![0x1fu8, 0x8b, 0x00, 0x01, 0x02, 0x03, 0x04];
    assert!(process_reader(&garbage).is_err());
    let empty: Vec<u8> = Vec::new();
    assert!(process_reader(&empty).is_err());
}

#[test]
fn container_round_trip_through_decompression() {
    let text = format!("{}\n\n{}\n", GOOD_LINE, r#"134>broken line"#);
    let mut enc = GzEncoder::new(Vec::new(), Compression::default());
    enc.write_all(text.as_bytes()).unwrap();
    let compressed = enc.finish().unwrap();
    let (events, diags) = process_reader(&compressed).expect("container must decompress");
    assert_eq!(events.len(), 1);
    assert_eq!(events[0].package.as_ref().unwrap().name, b"foo".to_vec());
    assert_eq!(diags.len(), 1);
    assert_eq!(diags[0].kind, DiagKind::Error);
    assert_eq!(diags[0].line, r#"134>broken line"#.as_bytes().to_vec());
}
