use dkim_prover_input::canonical::{
    build_relaxed_headers, to_signed_headers, truncate_dkim_value, EmailMessage, HeaderField,
    RelaxedHeaders,
};
use dkim_prover_input::errors::PipelineError;
use dkim_prover_input::padded::{find_substring_start_index, pad_bytes};

fn b(s: &str) -> Vec<u8> {
    s.as_bytes().to_vec()
}

fn demo_email() -> EmailMessage {
    EmailMessage {
        headers: vec![
            HeaderField { name: b("Content-Type"), value: b("text/plain") },
            HeaderField { name: b("MIME-Version"), value: b("1.0") },
            HeaderField { name: b("Message-Id"), value: b("<42@example.com>") },
            HeaderField { name: b("Date"), value: b("Mon, 1 Jan 2024 00:00:00 +0000") },
            HeaderField {
                name: b("DKIM-Signature"),
                value: b("v=1; s=sel; d=example.com; b=YWJj"),
            },
        ],
        from: Some(b("\"C\" <c@d.com>")),
        to: Some(b("\"A\" <a@b.com>")),
        subject: Some(b("hello")),
    }
}

#[test]
fn relaxed_headers_from_demo_email() {
    let email = demo_email();
    let rh = build_relaxed_headers(&email).unwrap();
    assert_eq!(rh.from, b("\"C\" <c@d.com>"));
    assert_eq!(rh.to, b("\"A\" <a@b.com>"));
    assert_eq!(rh.subject, b("hello"));
    assert_eq!(rh.content_type, b("text/plain"));
    assert_eq!(rh.mime_version, b("1.0"));
    assert_eq!(rh.message_id, b("<42@example.com>"));
    assert_eq!(rh.date, b("Mon, 1 Jan 2024 00:00:00 +0000"));
    // the value is cut right after the unfolded "; b=" delimiter
    assert_eq!(rh.dkim_signature, b("v=1; s=sel; d=example.com; b="));
}

#[test]
fn relaxed_headers_missing_header_is_encoding_error() {
    let mut email = demo_email();
    email.headers.remove(0);
    assert_eq!(build_relaxed_headers(&email).unwrap_err(), PipelineError::Encoding);
    let mut email = demo_email();
    email.subject = None;
    assert_eq!(build_relaxed_headers(&email).unwrap_err(), PipelineError::Encoding);
}

#[test]
fn truncation_prefers_smaller_offset() {
    // the folded form comes first: it wins
    let v = b("v=1;\n\tb=AAA; b=BBB");
    assert_eq!(truncate_dkim_value(&v).unwrap(), b("v=1;\n\tb="));
    // the unfolded form comes first: it wins
    let v = b("v=1; b=AAA;\n\tb=BBB");
    assert_eq!(truncate_dkim_value(&v).unwrap(), b("v=1; b="));
}

#[test]
fn truncation_without_delimiter_fails() {
    let v = b("v=1; s=sel; d=example.com");
    assert_eq!(truncate_dkim_value(&v).unwrap_err(), PipelineError::Encoding);
}

#[test]
fn signed_headers_join_unfold_and_pad() {
    let rh = RelaxedHeaders {
        from: b("f@x.com"),
        content_type: b("text/plain"),
        mime_version: b("1.0"),
        subject: b("hi"),
        message_id: b("<1@x>"),
        date: b("D"),
        to: b("t@x.com"),
        dkim_signature: b("v=1;\n\ts=s; b="),
    };
    let p = to_signed_headers(&rh).unwrap();
    let expected = "to:t@x.com\r\nfrom:f@x.com\r\nsubject:hi\r\ndate:D\r\n\
                    message-id:<1@x>\r\ncontent-type:text/plain\r\n\
                    mime-version:1.0\r\ndkim-signature:v=1; s=s; b=";
    assert_eq!(p.true_length as usize, expected.len());
    assert_eq!(p.buffer.len(), 1024);
    assert_eq!(&p.buffer[..expected.len()], expected.as_bytes());
    assert!(p.buffer[expected.len()..].iter().all(|&x| x == 0));
}

#[test]
fn signed_headers_over_capacity_fail() {
    let rh = RelaxedHeaders {
        from: vec![b'x'; 2000],
        content_type: b("c"),
        mime_version: b("m"),
        subject: b("s"),
        message_id: b("i"),
        date: b("d"),
        to: b("t"),
        dkim_signature: b("k"),
    };
    assert_eq!(to_signed_headers(&rh).unwrap_err(), PipelineError::Encoding);
}

#[test]
fn pad_bytes_padding_invariant() {
    let p = pad_bytes(&b("abc"), 8).unwrap();
    assert_eq!(p.buffer, vec![97, 98, 99, 0, 0, 0, 0, 0]);
    assert_eq!(p.true_length, 3);
    let p = pad_bytes(&b("abc"), 3).unwrap();
    assert_eq!(p.buffer, vec![97, 98, 99]);
    assert_eq!(p.true_length, 3);
    assert_eq!(pad_bytes(&b("abcd"), 3).unwrap_err(), PipelineError::Encoding);
}

#[test]
fn substring_search_finds_first_occurrence() {
    let h = b("abcabc");
    assert_eq!(find_substring_start_index(&h, &b("bc")), Some(1));
    assert_eq!(find_substring_start_index(&h, &b("abc")), Some(0));
    assert_eq!(find_substring_start_index(&h, &b("zz")), None);
    assert_eq!(find_substring_start_index(&h, &b("")), Some(0));
}
