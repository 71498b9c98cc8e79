use backup_util::hook::Message;
use backup_util::hook::MessageBuilder;
use backup_util::hook::PreparedSend;
use backup_util::hook::prepare_send;
use backup_util::hook::render_bodies;
use backup_util::multipart::check_boundary_candidate;
use backup_util::multipart::render_content_part;
use backup_util::text::contains_slice;

/// A reference multipart/form-data decoder, written against the format
/// itself: every part prefixed by a boundary delimiter, a closing
/// delimiter at the end, headers separated from the payload by a blank
/// line. It recovers `(disposition-name, filename, payload)` per part.
fn reference_decode(body: &[u8], content_type: &str) -> Vec<(String, Option<String>, Vec<u8>)> {
    let boundary = content_type
        .strip_prefix("multipart/form-data; boundary=")
        .expect("content type must name the boundary");
    let first = format!("--{}\r\n", boundary).into_bytes();
    let sep = format!("\r\n--{}", boundary).into_bytes();

    let mut parts: Vec<Vec<u8>> = Vec::new();
    if body.len() >= first.len() && &body[..first.len()] == first.as_slice() {
        let mut rest = &body[first.len()..];
        loop {
            let pos = find(rest, &sep).expect("every part ends at a boundary delimiter");
            parts.push(rest[..pos].to_vec());
            rest = &rest[pos + sep.len()..];
            if rest == b"--" {
                break;
            }
            assert_eq!(&rest[..2], b"\r\n", "later parts start after CRLF");
            rest = &rest[2..];
        }
    } else {
        // No parts at all: the body is just the closing delimiter.
        assert_eq!(body, format!("\r\n--{}--", boundary).into_bytes().as_slice());
    }

    let mut decoded = Vec::new();
    for part in parts {
        let split = find(&part, b"\r\n\r\n").expect("headers end with a blank line");
        let headers = String::from_utf8(part[..split].to_vec()).unwrap();
        let payload = part[split + 4..].to_vec();
        let disposition = headers
            .lines()
            .find(|l| l.starts_with("Content-Disposition:"))
            .expect("every part carries a disposition");
        let name = between(disposition, "name=\"", "\"").to_string();
        let filename = disposition.find("filename=").map(|at| {
            let quoted = &disposition[at + "filename=".len()..];
            match quoted.parse::<tinyjson::JsonValue>().unwrap() {
                tinyjson::JsonValue::String(s) => s,
                _ => panic!("filename must be a quoted string"),
            }
        });
        decoded.push((name, filename, payload));
    }
    decoded
}

fn find(hay: &[u8], needle: &[u8]) -> Option<usize> {
    if needle.len() > hay.len() {
        return None;
    }
    (0..=hay.len() - needle.len()).find(|&i| &hay[i..i + needle.len()] == needle)
}

fn between<'a>(s: &'a str, open: &str, close: &str) -> &'a str {
    let from = s.find(open).unwrap() + open.len();
    let to = from + s[from..].find(close).unwrap();
    &s[from..to]
}

fn roundtrip(content: Option<&str>, files: Vec<(&str, Vec<u8>)>) {
    let mut builder = MessageBuilder::new();
    if let Some(text) = content {
        builder = builder.content(text.to_string());
    }
    let expected_files: Vec<(String, Vec<u8>)> =
        files.iter().map(|(n, b)| (n.to_string(), b.clone())).collect();
    for (name, bytes) in files {
        builder = builder.file(name.to_string(), bytes);
    }
    let message: Message = builder.0;
    let prepared: PreparedSend = prepare_send(&message).expect("a boundary must be found");

    let decoded = reference_decode(&prepared.body, &prepared.content_type);
    let with_content = if content.is_some() { 1 } else { 0 };
    assert_eq!(decoded.len(), with_content + expected_files.len());

    if let Some(text) = content {
        let (name, filename, payload) = &decoded[0];
        assert_eq!(name, "payload_json");
        assert!(filename.is_none());
        match String::from_utf8(payload.clone()).unwrap().parse::<tinyjson::JsonValue>().unwrap() {
            tinyjson::JsonValue::Object(map) => match map.get("content") {
                Some(tinyjson::JsonValue::String(s)) => assert_eq!(s, text),
                _ => panic!("the content part must carry a string at `content`"),
            },
            _ => panic!("the content part must carry a JSON object"),
        }
    }
    for (i, (name, bytes)) in expected_files.iter().enumerate() {
        let (part_name, filename, payload) = &decoded[with_content + i];
        assert_eq!(part_name, &format!("files[{}]", i));
        assert_eq!(filename.as_deref(), Some(name.as_str()));
        assert_eq!(payload, bytes);
    }
}

#[test]
fn decodes_no_file_parts_with_content() {
    roundtrip(Some("hello there"), vec![]);
}

#[test]
fn decodes_one_file_part() {
    roundtrip(None, vec![("chunk_0.zip", vec![0, 1, 2, 255, 13, 10])]);
    roundtrip(Some("status"), vec![("chunk_0.zip", b"abc".to_vec())]);
}

#[test]
fn decodes_five_file_parts() {
    let files: Vec<(&str, Vec<u8>)> = vec![
        ("a.zip", b"".to_vec()),
        ("b.zip", vec![13, 10, 13, 10]),
        ("c d.zip", b"binary \x00\x01\x02".to_vec()),
        ("e\"quoted\".zip", b"xyz".to_vec()),
        ("f.zip", (0..=255u8).collect()),
    ];
    roundtrip(None, files.clone());
    roundtrip(Some("five files with \"quotes\" and\nnewlines"), files);
}

#[test]
fn decodes_unicode_names_and_content() {
    roundtrip(
        Some("snow ☃, accents éü, and a \"quote\""),
        vec![("árchive ☃.zip", vec![0xff, 0xfe, 0x00])],
    );
}

#[test]
fn boundary_candidate_inside_a_part_is_rejected() {
    let candidate = "AAAAAAAAAAAAAAAAAAAAAAAAAAAAAAAA";
    let clean: Vec<Vec<u8>> = vec![b"nothing to see".to_vec()];
    assert!(check_boundary_candidate(&clean, candidate));
    let polluted: Vec<Vec<u8>> = vec![
        b"nothing to see".to_vec(),
        format!("prefix {} suffix", candidate).into_bytes(),
    ];
    assert!(!check_boundary_candidate(&polluted, candidate));
}

#[test]
fn chosen_boundary_collides_with_no_part() {
    let message = MessageBuilder::new()
        .content("some status text".to_string())
        .file("chunk_0.zip".to_string(), (0..100u8).collect())
        .0;
    let prepared = prepare_send(&message).unwrap();
    assert_eq!(prepared.boundary.len(), 32);
    assert!(prepared.boundary.bytes().all(|b| b.is_ascii_alphanumeric()));
    for body in render_bodies(&message) {
        assert!(!contains_slice(&body, prepared.boundary.as_bytes()));
    }
    assert_eq!(
        prepared.content_type,
        format!("multipart/form-data; boundary={}", prepared.boundary)
    );
}

#[test]
fn content_part_escapes_json_text() {
    let rendered = render_content_part("a\"b\\c\nd\re\tf\u{1}g");
    let expected = format!(
        "Content-Disposition: form-data; name=\"payload_json\"\r\nContent-Type: application/json\r\n\r\n{{\"content\":\"a\\\"b\\\\c\\nd\\re\\tf\\u0001g\"}}"
    );
    assert_eq!(rendered, expected.into_bytes());
}
