use dkim_prover_input::errors::PipelineError;
use dkim_prover_input::keys::{
    build_dkim_query_name, concat_txt_fragments, extract_and_format_dkim_public_key,
    parse_public_key_modulus,
};
use dkim_prover_input::tags::{
    clean_dkim_signature, extract_dkim_signature, parse_dkim_header, require_dkim_tags,
};

fn b(s: &str) -> Vec<u8> {
    s.as_bytes().to_vec()
}

#[test]
fn parse_selector_and_domain() {
    let h = parse_dkim_header(&b("v=1; a=rsa-sha256; s=mail; d=example.com; bh=xx; b=YWJj"));
    assert_eq!(h.selector.unwrap(), b("mail"));
    assert_eq!(h.domain.unwrap(), b("example.com"));
}

#[test]
fn missing_domain_fails_before_any_query() {
    let h = parse_dkim_header(&b("v=1; s=mail; bh=xx; b=YWJj"));
    assert!(h.domain.is_none());
    assert_eq!(require_dkim_tags(h).unwrap_err(), PipelineError::KeyResolution);
}

#[test]
fn clean_signature_strips_whitespace() {
    assert_eq!(clean_dkim_signature(&b("YW \t\r\nJj")), b("YWJj"));
    assert_eq!(clean_dkim_signature(&b("YWJj")), b("YWJj"));
}

#[test]
fn extract_signature_decodes_base64() {
    assert_eq!(extract_dkim_signature(&b("v=1; b=YWJj; d=x")).unwrap(), b("abc"));
    assert_eq!(extract_dkim_signature(&b("v=1; b=YW \r\n\tJj")).unwrap(), b("abc"));
    assert_eq!(
        extract_dkim_signature(&b("v=1; d=x")).unwrap_err(),
        PipelineError::Encoding
    );
    assert_eq!(
        extract_dkim_signature(&b("v=1; b=!!!!")).unwrap_err(),
        PipelineError::SignatureDecode
    );
}

#[test]
fn query_name_has_domainkey_infix() {
    assert_eq!(
        build_dkim_query_name(&b("mail"), &b("example.com")),
        b("mail._domainkey.example.com")
    );
}

#[test]
fn txt_fragments_concatenate_in_order() {
    let frags = vec![b("v=DKIM1; p=AA"), b("BB"), b("CC")];
    assert_eq!(concat_txt_fragments(&frags), b("v=DKIM1; p=AABBCC"));
    assert_eq!(concat_txt_fragments(&Vec::new()), b(""));
}

#[test]
fn pem_reconstruction_wraps_64_char_lines() {
    let payload: String = std::iter::repeat('A').take(70).collect();
    let record = format!("v=DKIM1; k=rsa; p={}", payload);
    let pem = extract_and_format_dkim_public_key(&b(&record)).unwrap();
    let expected = format!(
        "-----BEGIN PUBLIC KEY-----\n{}\n{}\n-----END PUBLIC KEY-----",
        &payload[..64],
        &payload[64..]
    );
    assert_eq!(pem, expected);
}

#[test]
fn record_without_key_tag_is_key_resolution_error() {
    assert_eq!(
        extract_and_format_dkim_public_key(&b("v=DKIM1; k=rsa")).unwrap_err(),
        PipelineError::KeyResolution
    );
}

#[test]
fn reconstructed_pem_parses_back_to_the_modulus() {
    // a small but well-formed RSA public key object
    let n = num_bigint_dig::BigUint::parse_bytes(
        "57896044618658097711785492504343953926634992332820282019728792003956564819949"
            .as_bytes(),
        10,
    )
    .unwrap();
    let e = num_bigint_dig::BigUint::from(65537u32);
    let key = rsa::RsaPublicKey::new(n.clone(), e).unwrap();
    let der = rsa::pkcs8::EncodePublicKey::to_public_key_der(&key).unwrap();
    let payload = base64::Engine::encode(&base64::engine::general_purpose::STANDARD, der.as_bytes());
    let record = format!("v=DKIM1; k=rsa; p={}", payload);
    let pem = extract_and_format_dkim_public_key(&b(&record)).unwrap();
    let modulus = parse_public_key_modulus(&pem).unwrap();
    assert_eq!(modulus, n.to_bytes_be());
}

#[test]
fn garbage_pem_is_key_format_error() {
    assert_eq!(
        parse_public_key_modulus(&String::from("not a key")).unwrap_err(),
        PipelineError::KeyFormat
    );
}
