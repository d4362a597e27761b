//! Public-key retrieval support: the DNS query name, reassembly of the TXT
//! record, PEM reconstruction and modulus extraction.

use vstd::prelude::*;
use crate::bytes::push_all;
use crate::errors::PipelineError;
use crate::render::push_char;
use crate::tags::{extract_tag_loose, tag_capture_loose};

verus! {

/// The fixed infix of the DKIM query name, `._domainkey.` as bytes.
pub open spec fn domainkey_infix() -> Seq<u8> {
    seq![46u8, 95u8, 100u8, 111u8, 109u8, 97u8, 105u8, 110u8, 107u8, 101u8, 121u8, 46u8]
}

/// The DNS name whose TXT record holds the signer's public key:
/// `selector._domainkey.domain`.
pub open spec fn dkim_query_name(selector: Seq<u8>, domain: Seq<u8>) -> Seq<u8> {
    selector + domainkey_infix() + domain
}

/// Builds the DKIM TXT query name for a selector and domain.
pub fn build_dkim_query_name(selector: &Vec<u8>, domain: &Vec<u8>) -> (r: Vec<u8>)
    ensures
        r@ == dkim_query_name(selector@, domain@),
{
    let infix: Vec<u8> = vec![
        46u8, 95u8, 100u8, 111u8, 109u8, 97u8, 105u8, 110u8, 107u8, 101u8, 121u8, 46u8,
    ];
    proof {
        assert(infix@ =~= domainkey_infix());
    }
    let mut out: Vec<u8> = Vec::new();
    push_all(&mut out, selector);
    push_all(&mut out, &infix);
    push_all(&mut out, domain);
    proof {
        assert(out@ =~= dkim_query_name(selector@, domain@));
    }
    out
}

/// The concatenation of a list of byte strings, in order.
pub open spec fn concat_frags(fs: Seq<Seq<u8>>) -> Seq<u8>
    decreases fs.len(),
{
    if fs.len() == 0 {
        Seq::<u8>::empty()
    } else {
        fs[0] + concat_frags(fs.skip(1))
    }
}

proof fn lemma_concat_frags_snoc(fs: Seq<Seq<u8>>, x: Seq<u8>)
    ensures
        concat_frags(fs.push(x)) == concat_frags(fs) + x,
    decreases fs.len(),
{
    if fs.len() == 0 {
        assert(fs.push(x)[0] == x);
        assert(fs.push(x).skip(1) =~= Seq::<Seq<u8>>::empty());
        assert(concat_frags(Seq::<Seq<u8>>::empty()) == Seq::<u8>::empty());
        assert(concat_frags(fs.push(x)) =~= concat_frags(fs) + x);
    } else {
        assert(fs.push(x).skip(1) =~= fs.skip(1).push(x));
        lemma_concat_frags_snoc(fs.skip(1), x);
        assert(fs.push(x)[0] == fs[0]);
        assert(concat_frags(fs.push(x)) =~= concat_frags(fs) + x);
    }
}

/// Concatenates the text fragments of a TXT record answer, in response
/// order, into one record string.
pub fn concat_txt_fragments(fragments: &Vec<Vec<u8>>) -> (r: Vec<u8>)
    ensures
        r@ == concat_frags(fragments.deep_view()),
{
    let ghost fv = fragments.deep_view();
    let mut out: Vec<u8> = Vec::new();
    proof {
        assert(fv.take(0) =~= Seq::<Seq<u8>>::empty());
        assert(out@ =~= concat_frags(fv.take(0)));
    }
    let mut i: usize = 0;
    while i < fragments.len()
        invariant
            i <= fragments@.len(),
            fv == fragments.deep_view(),
            fv.len() == fragments@.len(),
            out@ == concat_frags(fv.take(i as int)),
        decreases fragments@.len() - i,
    {
        push_all(&mut out, &fragments[i]);
        i += 1;
        proof {
            assert(fragments@[i - 1]@ == fv[i - 1]);
            lemma_concat_frags_snoc(fv.take(i - 1), fv[i - 1]);
            assert(fv.take(i as int) =~= fv.take(i - 1).push(fv[i - 1]));
        }
    }
    proof {
        assert(fv.take(fv.len() as int) =~= fv);
    }
    out
}

/// The base64 key payload broken into 64-byte lines joined by newlines.
pub open spec fn chunked_64(s: Seq<u8>) -> Seq<u8>
    decreases s.len(),
{
    if s.len() <= 64 {
        s
    } else {
        s.take(64) + seq![10u8] + chunked_64(s.skip(64))
    }
}

/// The PEM header line, `-----BEGIN PUBLIC KEY-----` and a newline.
pub open spec fn pem_header() -> Seq<u8> {
    seq![45u8, 45u8, 45u8, 45u8, 45u8, 66u8, 69u8, 71u8, 73u8, 78u8, 32u8, 80u8, 85u8, 66u8,
        76u8, 73u8, 67u8, 32u8, 75u8, 69u8, 89u8, 45u8, 45u8, 45u8, 45u8, 45u8, 10u8]
}

/// A newline and the PEM footer line, `-----END PUBLIC KEY-----`.
pub open spec fn pem_footer() -> Seq<u8> {
    seq![10u8, 45u8, 45u8, 45u8, 45u8, 45u8, 69u8, 78u8, 68u8, 32u8, 80u8, 85u8, 66u8, 76u8,
        73u8, 67u8, 32u8, 75u8, 69u8, 89u8, 45u8, 45u8, 45u8, 45u8, 45u8]
}

/// The PEM block rebuilt around a base64 key payload.
pub open spec fn pem_of(key_b64: Seq<u8>) -> Seq<u8> {
    pem_header() + chunked_64(key_b64) + pem_footer()
}

/// The reassembled PEM block of a DKIM TXT record: the `p=` tag value in
/// 64-byte lines between the standard public-key markers, or nothing when
/// the tag is absent.
pub open spec fn record_pem(record: Seq<u8>) -> Option<Seq<u8>> {
    match tag_capture_loose(record, 112) {
        Some(key) => Some(pem_of(key)),
        None => None,
    }
}

/// Breaks a byte string into 64-byte lines joined by newlines.
fn chunk_lines(s: &Vec<u8>) -> (r: Vec<u8>)
    ensures
        r@ == chunked_64(s@),
{
    let mut out: Vec<u8> = Vec::new();
    let mut i: usize = 0;
    proof {
        assert(s@.skip(0) =~= s@);
        assert(out@ + chunked_64(s@) =~= chunked_64(s@));
    }
    while s.len() - i > 64
        invariant
            i <= s@.len(),
            chunked_64(s@) == out@ + chunked_64(s@.skip(i as int)),
        decreases s@.len() - i,
    {
        let ghost rest = s@.skip(i as int);
        let mut k: usize = 0;
        let ghost pre = out@;
        while k < 64
            invariant
                k <= 64,
                i + 64 < s@.len() <= usize::MAX,
                out@ == pre + s@.subrange(i as int, i + k as int),
            decreases 64 - k,
        {
            out.push(s[i + k]);
            k += 1;
            proof {
                assert(s@.subrange(i as int, i + k as int)
                    =~= s@.subrange(i as int, i + k - 1).push(s@[i + k - 1]));
            }
        }
        out.push(10u8);
        i += 64;
        proof {
            assert(rest.take(64) =~= s@.subrange(i - 64, i as int));
            assert(rest.skip(64) =~= s@.skip(i as int));
            assert(chunked_64(rest) == rest.take(64) + seq![10u8] + chunked_64(rest.skip(64)));
            assert(out@ =~= pre + (rest.take(64) + seq![10u8]));
            assert(pre + (rest.take(64) + seq![10u8]) + chunked_64(s@.skip(i as int))
                =~= pre + (rest.take(64) + seq![10u8] + chunked_64(rest.skip(64))));
        }
    }
    let ghost rest = s@.skip(i as int);
    let mut k: usize = i;
    let ghost pre = out@;
    while k < s.len()
        invariant
            i <= k <= s@.len(),
            out@ == pre + s@.subrange(i as int, k as int),
        decreases s@.len() - k,
    {
        out.push(s[k]);
        k += 1;
        proof {
            assert(s@.subrange(i as int, k as int)
                =~= s@.subrange(i as int, k - 1).push(s@[k - 1]));
        }
    }
    proof {
        assert(rest.len() <= 64);
        assert(chunked_64(rest) == rest);
        assert(s@.subrange(i as int, s@.len() as int) =~= rest);
        assert(out@ =~= pre + chunked_64(rest));
    }
    out
}

/// A string whose characters are the bytes of `v`, one character per byte.
pub fn byte_chars_string(v: &Vec<u8>) -> (r: String)
    ensures
        r@ == v@.map_values(|b: u8| b as char),
{
    let mut s = String::new();
    let mut i: usize = 0;
    proof {
        assert(s@ =~= v@.take(0).map_values(|b: u8| b as char));
    }
    while i < v.len()
        invariant
            i <= v@.len(),
            s@ == v@.take(i as int).map_values(|b: u8| b as char),
        decreases v@.len() - i,
    {
        let c = v[i] as char;
        push_char(&mut s, c);
        i += 1;
        proof {
            assert(v@.take(i as int).map_values(|b: u8| b as char)
                =~= v@.take(i - 1).map_values(|b: u8| b as char).push(v@[i - 1] as char));
        }
    }
    proof {
        assert(v@.take(v@.len() as int) =~= v@);
    }
    s
}

/// Extracts the `p=` tag of a DKIM TXT record and rebuilds the standard
/// PEM block around it: 64-character lines between the public-key markers.
/// A record without the tag is a key-resolution error.
pub fn extract_and_format_dkim_public_key(record: &Vec<u8>) -> (r: Result<
    String,
    PipelineError,
>)
    ensures
        match r {
            Ok(pem) => {
                &&& record_pem(record@) is Some
                &&& pem@ == record_pem(record@)->0.map_values(|b: u8| b as char)
            },
            Err(e) => {
                &&& record_pem(record@) is None
                &&& e == PipelineError::KeyResolution
            },
        },
{
    let key = match extract_tag_loose(record, 112) {
        Some(k) => k,
        None => {
            return Err(PipelineError::KeyResolution);
        },
    };
    let header: Vec<u8> = vec![
        45u8, 45u8, 45u8, 45u8, 45u8, 66u8, 69u8, 71u8, 73u8, 78u8, 32u8, 80u8, 85u8, 66u8,
        76u8, 73u8, 67u8, 32u8, 75u8, 69u8, 89u8, 45u8, 45u8, 45u8, 45u8, 45u8, 10u8,
    ];
    let footer: Vec<u8> = vec![
        10u8, 45u8, 45u8, 45u8, 45u8, 45u8, 69u8, 78u8, 68u8, 32u8, 80u8, 85u8, 66u8, 76u8,
        73u8, 67u8, 32u8, 75u8, 69u8, 89u8, 45u8, 45u8, 45u8, 45u8, 45u8,
    ];
    proof {
        assert(header@ =~= pem_header());
        assert(footer@ =~= pem_footer());
    }
    let mut pem_bytes: Vec<u8> = Vec::new();
    push_all(&mut pem_bytes, &header);
    let chunked = chunk_lines(&key);
    push_all(&mut pem_bytes, &chunked);
    push_all(&mut pem_bytes, &footer);
    proof {
        assert(pem_bytes@ =~= pem_of(key@));
    }
    Ok(byte_chars_string(&pem_bytes))
}

/// What parsing a public-key PEM block yields: the big-endian bytes of the
/// RSA modulus, or nothing when the text is not a valid key. Parsing is a
/// deterministic function of the text.
pub uninterp spec fn pem_modulus_of(pem: Seq<char>) -> Option<Seq<u8>>;

/// The error type of SubjectPublicKeyInfo decoding.
#[verifier::external_type_specification]
#[verifier::external_body]
pub struct ExSpkiError(rsa::pkcs8::spki::Error);

/// Relies on rsa's RsaPublicKey::from_public_key_pem and its
/// PublicKeyParts::n accessor: parsing the PEM text is deterministic, and
/// every key it accepts has passed the crate's public-key checks, which
/// reject an even modulus — so the modulus is odd, and its big-endian
/// bytes end in an odd byte.
#[verifier::external_body]
fn rsa_modulus_from_pem(pem: &str) -> (r: Result<Vec<u8>, rsa::pkcs8::spki::Error>)
    ensures
        match r {
            Ok(m) => {
                &&& pem_modulus_of(pem@) == Some(m@)
                &&& m@.len() > 0
                &&& m@.last() % 2 == 1
            },
            Err(_) => pem_modulus_of(pem@) is None,
        },
{
    <rsa::RsaPublicKey as rsa::pkcs8::DecodePublicKey>::from_public_key_pem(pem)
        .map(|k| rsa::traits::PublicKeyParts::n(&k).to_bytes_be())
}

/// Parses a reassembled PEM block into the big-endian bytes of the RSA
/// modulus. Text that does not parse as a public key is a key-format
/// error.
pub fn parse_public_key_modulus(pem: &String) -> (r: Result<Vec<u8>, PipelineError>)
    ensures
        match r {
            Ok(m) => {
                &&& pem_modulus_of(pem@) == Some(m@)
                &&& m@.len() > 0
                &&& m@.last() % 2 == 1
            },
            Err(e) => {
                &&& pem_modulus_of(pem@) is None
                &&& e == PipelineError::KeyFormat
            },
        },
{
    match rsa_modulus_from_pem(pem.as_str()) {
        Ok(m) => Ok(m),
        Err(_) => Err(PipelineError::KeyFormat),
    }
}

} // verus!
