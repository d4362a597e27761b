use dkim_prover_input::errors::PipelineError;
use dkim_prover_input::fields::{
    derive_address_offset, extract_emails, get_padded_recipient, get_padded_sender,
    get_padded_subject, locate_field,
};
use dkim_prover_input::padded::PaddedField;
use dkim_prover_input::record::build_prover_toml;
use dkim_prover_input::render::{make_header_string, quote_hex};
use num_bigint_dig::BigUint;

fn b(s: &str) -> Vec<u8> {
    s.as_bytes().to_vec()
}

#[test]
fn emails_are_extracted_last_match_wins() {
    let tokens = extract_emails(&b("\"Jane Doe\" <jane@example.com>"));
    assert_eq!(tokens, vec![b("jane@example.com")]);
    let tokens = extract_emails(&b("a@b.com, c@d.org"));
    assert_eq!(tokens, vec![b("a@b.com"), b("c@d.org")]);
    assert!(extract_emails(&b("no address here")).is_empty());
    assert!(extract_emails(&b("not@valid")).is_empty());
}

#[test]
fn emails_do_not_overlap() {
    // after a token is taken the scan resumes at its end, so the shared
    // middle run yields no second token
    assert_eq!(extract_emails(&b("a@b.c@d.e")), vec![b("a@b.c")]);
    assert_eq!(
        extract_emails(&b("a@b.c @d.e f@g.h")),
        vec![b("a@b.c"), b("f@g.h")]
    );
}

#[test]
fn padded_recipient_scenario() {
    // To: "A" <a@b.com> with email capacity 32
    let p = get_padded_recipient(&b("\"A\" <a@b.com>"), 32).unwrap();
    assert_eq!(p.true_length, 7);
    assert_eq!(p.buffer.len(), 32);
    assert_eq!(&p.buffer[..7], "a@b.com".as_bytes());
    assert!(p.buffer[7..].iter().all(|&x| x == 0));
}

#[test]
fn padded_sender_scenario() {
    // From: "C" <c@d.com>
    let p = get_padded_sender(&b("\"C\" <c@d.com>"), 32).unwrap();
    assert_eq!(p.true_length, 7);
    assert_eq!(&p.buffer[..7], "c@d.com".as_bytes());
    assert!(p.buffer[7..].iter().all(|&x| x == 0));
}

#[test]
fn padded_subject_scenario() {
    let p = get_padded_subject(&b("hello")).unwrap();
    assert_eq!(p.buffer.len(), 44);
    assert_eq!(p.true_length, 5);
    assert_eq!(&p.buffer[..5], "hello".as_bytes());
    assert!(p.buffer[5..].iter().all(|&x| x == 0));
}

#[test]
fn padding_never_truncates_silently() {
    assert_eq!(
        get_padded_sender(&b("<averylongaddress@example.com>"), 8).unwrap_err(),
        PipelineError::Encoding
    );
    let long: String = std::iter::repeat('s').take(45).collect();
    assert_eq!(get_padded_subject(&b(&long)).unwrap_err(), PipelineError::Encoding);
}

#[test]
fn missing_address_is_encoding_error() {
    assert_eq!(
        get_padded_recipient(&b("nobody here"), 32).unwrap_err(),
        PipelineError::Encoding
    );
}

#[test]
fn offset_derivation_scenario() {
    // canonical header holding the rendered From line
    let header = b("to:<t@x.com>\r\nfrom:\"Jane Doe\" <jane@example.com>\r\nsubject:hi");
    let field = b("\"Jane Doe\" <jane@example.com>");
    let fo = locate_field(&header, &field, &b("from:")).unwrap();
    assert_eq!(fo.index, 14); // where "from:" starts
    assert_eq!(fo.length, field.len() + 5);
    let nested = derive_address_offset(&fo, 5, "jane@example.com".len());
    // base offset of the field value plus (full field length - address length)
    assert_eq!(nested.index, 14 + 5 + (field.len() - "jane@example.com".len()));
    assert_eq!(nested.length, "jane@example.com".len());
}

#[test]
fn offset_coincides_when_field_is_bare_address() {
    let header = b("to:t@x.com\r\nfrom:jane@example.com\r\nsubject:hi");
    let field = b("jane@example.com");
    let fo = locate_field(&header, &field, &b("from:")).unwrap();
    let nested = derive_address_offset(&fo, 5, field.len());
    assert_eq!(nested.index, fo.index + 5);
}

#[test]
fn locate_field_missing_value_is_indexing_error() {
    let header = b("to:t@x.com");
    assert_eq!(
        locate_field(&header, &b("absent"), &b("from:")).unwrap_err(),
        PipelineError::Indexing
    );
    // the raw value alone is not enough: the label must precede it
    assert_eq!(
        locate_field(&header, &b("t@x.com"), &b("from:")).unwrap_err(),
        PipelineError::Indexing
    );
}

#[test]
fn locate_field_ties_the_label_bytes() {
    // the value occurs early without its label; the labelled occurrence
    // is the one located
    let header = b("bcc:c@d.com\r\nfrom:c@d.com");
    let fo = locate_field(&header, &b("c@d.com"), &b("from:")).unwrap();
    assert_eq!(fo.index, 13);
    assert_eq!(fo.length, 12);
    assert_eq!(&header[fo.index..fo.index + fo.length], "from:c@d.com".as_bytes());
}

#[test]
fn header_string_renders_rust_array() {
    let v = vec![1u8, 2, 30];
    assert_eq!(make_header_string(&v), "let header: [u8; 3] = [1, 2, 30];");
    assert_eq!(make_header_string(&Vec::new()), "let header: [u8; 0] = [];");
}

#[test]
fn quote_hex_wraps_each_entry() {
    assert_eq!(
        quote_hex(String::from("[0x12, 0x034]")),
        "[\"0x12\", \"0x034\"]"
    );
    assert_eq!(quote_hex(String::from("[0xff]")), "[\"0xff\"]");
}

fn pad(content: &str, capacity: usize) -> PaddedField {
    dkim_prover_input::padded::pad_bytes(&b(content), capacity).unwrap()
}

fn demo_document() -> String {
    let from_field = "\"C\" <c@d.com>";
    let to_field = "\"A\" <a@b.com>";
    let header_text = format!("to:{}\r\nfrom:{}\r\nsubject:hello", to_field, from_field);
    let header = pad(&header_text, 128);
    let sender = get_padded_sender(&b(from_field), 32).unwrap();
    let recipient = get_padded_recipient(&b(to_field), 32).unwrap();
    let subject = get_padded_subject(&b("hello")).unwrap();
    let signature = vec![0x01u8, 0x02, 0x03];
    let modulus = vec![0x01u8, 0x00, 0x01];
    build_prover_toml(
        &header,
        &signature,
        &modulus,
        &sender,
        &recipient,
        &subject,
        &b(from_field),
        &b(to_field),
    )
    .unwrap()
}

#[test]
fn document_holds_expected_sections() {
    let doc = demo_document();
    let modulus = vec![0x01u8, 0x00, 0x01];
    let expected_mod_limbs =
        quote_hex(noir_bignum_paramgen::bn_limbs(BigUint::from_bytes_be(&modulus), 2048));
    let expected_redc =
        quote_hex(noir_bignum_paramgen::redc_limbs(BigUint::from_bytes_be(&modulus), 2048));
    assert!(doc.starts_with("[header]\nlen = 51\nstorage = [116, 111, 58, "));
    // the to: line and CRLF take 18 bytes, so "from:" starts at 18
    assert!(doc.contains("[from_seq]\nindex = 18\nlength = 18"));
    // "\"C\" <c@d.com>" is 13 bytes, the address 7: the start shifts by 6
    assert!(doc.contains("[member_seq]\nindex = 29\nlength = 7"));
    assert!(doc.contains("[to_seq]\nindex = 0\nlength = 16"));
    assert!(doc.contains("[relayer_seq]\nindex = 9\nlength = 7"));
    assert!(doc.contains("[member]\nlen = 7\nstorage = [99, 64, 100, 46, 99, 111, 109, 0,"));
    assert!(doc.contains("[relayer]\nlen = 7\nstorage = [97, 64, 98, 46, 99, 111, 109, 0,"));
    assert!(doc.contains("msg_hash = [104, 101, 108, 108, 111, 0,"));
    assert!(doc.contains(&format!("[pubkey]\nmodulus = {}\nredc = {}", expected_mod_limbs, expected_redc)));
    assert!(doc.contains("[signature]\nlimbs = [\"0x010203\", \"0x00\", "));
}

#[test]
fn document_is_deterministic() {
    assert_eq!(demo_document(), demo_document());
}

#[test]
fn document_with_foreign_from_field_is_indexing_error() {
    let header = pad("to:a@b.com\r\nfrom:c@d.com", 64);
    let sender = get_padded_sender(&b("c@d.com"), 32).unwrap();
    let recipient = get_padded_recipient(&b("a@b.com"), 32).unwrap();
    let subject = get_padded_subject(&b("x")).unwrap();
    let e = build_prover_toml(
        &header,
        &vec![1u8],
        &vec![3u8],
        &sender,
        &recipient,
        &subject,
        &b("not-in-header@y.com"),
        &b("a@b.com"),
    )
    .unwrap_err();
    assert_eq!(e, PipelineError::Indexing);
}

#[test]
fn document_with_wide_signature_is_encoding_error() {
    let header = pad("to:a@b.com\r\nfrom:c@d.com", 64);
    let sender = get_padded_sender(&b("c@d.com"), 32).unwrap();
    let recipient = get_padded_recipient(&b("a@b.com"), 32).unwrap();
    let subject = get_padded_subject(&b("x")).unwrap();
    let wide = vec![1u8; 257];
    let e = build_prover_toml(
        &header,
        &wide,
        &vec![3u8],
        &sender,
        &recipient,
        &subject,
        &b("c@d.com"),
        &b("a@b.com"),
    )
    .unwrap_err();
    assert_eq!(e, PipelineError::Encoding);
}
