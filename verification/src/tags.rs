//! Parsing of `tag=value` segments out of the raw DKIM-Signature header
//! value: selector, domain and the base64 signature.

use vstd::prelude::*;
use crate::errors::PipelineError;

verus! {

/// The byte value of `;`.
pub const SEMI: u8 = 59;

/// The byte value of `=`.
pub const EQUALS: u8 = 61;

/// The selector and domain found in a DKIM-Signature value; either may be
/// absent.
#[derive(Debug)]
pub struct DkimHeader {
    pub selector: Option<Vec<u8>>,
    pub domain: Option<Vec<u8>>,
}

/// The index of the first `;` at or after `from`, or `None`.
pub open spec fn first_semi(v: Seq<u8>, from: int) -> Option<int>
    decreases v.len() - from when 0 <= from <= v.len()
{
    if from < 0 || from >= v.len() {
        None
    } else if v[from] == SEMI {
        Some(from)
    } else {
        first_semi(v, from + 1)
    }
}

proof fn lemma_first_semi_some(v: Seq<u8>, from: int, k: int)
    requires
        0 <= from <= k < v.len(),
        v[k] == SEMI,
        forall|j: int| from <= j < k ==> v[j] != SEMI,
    ensures
        first_semi(v, from) == Some(k),
    decreases k - from,
{
    if from < k {
        lemma_first_semi_some(v, from + 1, k);
    }
}

proof fn lemma_first_semi_none(v: Seq<u8>, from: int)
    requires
        0 <= from <= v.len(),
        forall|j: int| from <= j < v.len() ==> v[j] != SEMI,
    ensures
        first_semi(v, from) is None,
    decreases v.len() - from,
{
    if from < v.len() {
        lemma_first_semi_none(v, from + 1);
    }
}

/// The first `;` at or after `from`, found by scanning.
fn find_semi(v: &Vec<u8>, from: usize) -> (r: Option<usize>)
    requires
        from <= v@.len(),
    ensures
        match r {
            Some(k) => {
                &&& from <= k < v@.len()
                &&& v@[k as int] == SEMI
                &&& first_semi(v@, from as int) == Some(k as int)
            },
            None => first_semi(v@, from as int) is None,
        },
{
    let mut k: usize = from;
    while k < v.len()
        invariant
            from <= k <= v@.len(),
            forall|j: int| from <= j < k ==> v@[j] != SEMI,
        decreases v@.len() - k,
    {
        if v[k] == SEMI {
            proof {
                lemma_first_semi_some(v@, from as int, k as int);
            }
            return Some(k);
        }
        k += 1;
    }
    proof {
        lemma_first_semi_none(v@, from as int);
    }
    None
}

/// Holds when a `t=value;` segment starts at `i`: the tag byte, an equals
/// sign, at least one byte that is not `;`, and a later `;` that closes the
/// value.
pub open spec fn tag_starts_strict(v: Seq<u8>, t: u8, i: int) -> bool {
    &&& 0 <= i
    &&& i + 2 < v.len()
    &&& v[i] == t
    &&& v[i + 1] == EQUALS
    &&& v[i + 2] != SEMI
    &&& first_semi(v, i + 2) is Some
}

/// Holds when a `t=value` segment starts at `i`, closed by a `;` or by the
/// end of the string.
pub open spec fn tag_starts_loose(v: Seq<u8>, t: u8, i: int) -> bool {
    &&& 0 <= i
    &&& i + 2 < v.len()
    &&& v[i] == t
    &&& v[i + 1] == EQUALS
    &&& v[i + 2] != SEMI
}

/// The start of the leftmost `t=value;` segment at or after `from`.
pub open spec fn find_tag_strict(v: Seq<u8>, t: u8, from: int) -> Option<int>
    decreases v.len() - from when 0 <= from <= v.len()
{
    if from < 0 || from >= v.len() {
        None
    } else if tag_starts_strict(v, t, from) {
        Some(from)
    } else {
        find_tag_strict(v, t, from + 1)
    }
}

/// The start of the leftmost `t=value` segment at or after `from`.
pub open spec fn find_tag_loose(v: Seq<u8>, t: u8, from: int) -> Option<int>
    decreases v.len() - from when 0 <= from <= v.len()
{
    if from < 0 || from >= v.len() {
        None
    } else if tag_starts_loose(v, t, from) {
        Some(from)
    } else {
        find_tag_loose(v, t, from + 1)
    }
}

/// The captured value of the leftmost `t=value;` segment: the bytes between
/// the equals sign and the closing `;`.
pub open spec fn tag_capture_strict(v: Seq<u8>, t: u8) -> Option<Seq<u8>> {
    match find_tag_strict(v, t, 0) {
        Some(i) => Some(v.subrange(i + 2, first_semi(v, i + 2)->0)),
        None => None,
    }
}

/// The captured value of the leftmost `t=value` segment: the bytes between
/// the equals sign and the closing `;`, or the end of the string when no
/// `;` follows.
pub open spec fn tag_capture_loose(v: Seq<u8>, t: u8) -> Option<Seq<u8>> {
    match find_tag_loose(v, t, 0) {
        Some(i) => match first_semi(v, i + 2) {
            Some(j) => Some(v.subrange(i + 2, j)),
            None => Some(v.subrange(i + 2, v.len() as int)),
        },
        None => None,
    }
}

proof fn lemma_find_tag_strict_some(v: Seq<u8>, t: u8, from: int, i: int)
    requires
        0 <= from <= i,
        tag_starts_strict(v, t, i),
        forall|j: int| from <= j < i ==> !tag_starts_strict(v, t, j),
    ensures
        find_tag_strict(v, t, from) == Some(i),
    decreases i - from,
{
    if from < i {
        lemma_find_tag_strict_some(v, t, from + 1, i);
    }
}

proof fn lemma_find_tag_strict_none(v: Seq<u8>, t: u8, from: int)
    requires
        0 <= from <= v.len(),
        forall|j: int| from <= j ==> !tag_starts_strict(v, t, j),
    ensures
        find_tag_strict(v, t, from) is None,
    decreases v.len() - from,
{
    if from < v.len() {
        lemma_find_tag_strict_none(v, t, from + 1);
    }
}

proof fn lemma_find_tag_loose_some(v: Seq<u8>, t: u8, from: int, i: int)
    requires
        0 <= from <= i,
        tag_starts_loose(v, t, i),
        forall|j: int| from <= j < i ==> !tag_starts_loose(v, t, j),
    ensures
        find_tag_loose(v, t, from) == Some(i),
    decreases i - from,
{
    if from < i {
        lemma_find_tag_loose_some(v, t, from + 1, i);
    }
}

proof fn lemma_find_tag_loose_none(v: Seq<u8>, t: u8, from: int)
    requires
        0 <= from <= v.len(),
        forall|j: int| from <= j ==> !tag_starts_loose(v, t, j),
    ensures
        find_tag_loose(v, t, from) is None,
    decreases v.len() - from,
{
    if from < v.len() {
        lemma_find_tag_loose_none(v, t, from + 1);
    }
}

/// Extracts the value of the leftmost `t=value;` segment, `;`-terminated.
pub fn extract_tag_strict(v: &Vec<u8>, t: u8) -> (r: Option<Vec<u8>>)
    ensures
        match r {
            Some(c) => tag_capture_strict(v@, t) == Some(c@),
            None => tag_capture_strict(v@, t) is None,
        },
{
    let mut i: usize = 0;
    while i < v.len()
        invariant
            i <= v@.len(),
            forall|j: int| 0 <= j < i ==> !tag_starts_strict(v@, t, j),
        decreases v@.len() - i,
    {
        if v[i] == t && v.len() - i > 2 && v[i + 1] == EQUALS && v[i + 2] != SEMI {
            match find_semi(v, i + 2) {
                Some(j) => {
                    proof {
                        assert(tag_starts_strict(v@, t, i as int));
                        lemma_find_tag_strict_some(v@, t, 0, i as int);
                    }
                    let mut cap: Vec<u8> = Vec::new();
                    let mut k: usize = i + 2;
                    while k < j
                        invariant
                            i + 2 <= k <= j <= v@.len(),
                            cap@ == v@.subrange(i + 2, k as int),
                        decreases j - k,
                    {
                        cap.push(v[k]);
                        k += 1;
                        proof {
                            assert(v@.subrange(i + 2, k as int)
                                =~= v@.subrange(i + 2, k - 1).push(v@[k - 1]));
                        }
                    }
                    return Some(cap);
                },
                None => {
                    proof {
                        assert(!tag_starts_strict(v@, t, i as int));
                    }
                },
            }
        }
        i += 1;
    }
    proof {
        assert forall|j: int| 0 <= j implies !tag_starts_strict(v@, t, j) by {
            if tag_starts_strict(v@, t, j) {
                assert(j + 2 < v@.len());
            }
        }
        lemma_find_tag_strict_none(v@, t, 0);
    }
    None
}

/// Extracts the value of the leftmost `t=value` segment, closed by `;` or
/// by the end of the string.
pub fn extract_tag_loose(v: &Vec<u8>, t: u8) -> (r: Option<Vec<u8>>)
    ensures
        match r {
            Some(c) => tag_capture_loose(v@, t) == Some(c@),
            None => tag_capture_loose(v@, t) is None,
        },
{
    let mut i: usize = 0;
    while i < v.len()
        invariant
            i <= v@.len(),
            forall|j: int| 0 <= j < i ==> !tag_starts_loose(v@, t, j),
        decreases v@.len() - i,
    {
        if v[i] == t && v.len() - i > 2 && v[i + 1] == EQUALS && v[i + 2] != SEMI {
            proof {
                assert(tag_starts_loose(v@, t, i as int));
                lemma_find_tag_loose_some(v@, t, 0, i as int);
            }
            let end: usize = match find_semi(v, i + 2) {
                Some(j) => j,
                None => v.len(),
            };
            let mut cap: Vec<u8> = Vec::new();
            let mut k: usize = i + 2;
            while k < end
                invariant
                    i + 2 <= k <= end <= v@.len(),
                    cap@ == v@.subrange(i + 2, k as int),
                decreases end - k,
            {
                cap.push(v[k]);
                k += 1;
                proof {
                    assert(v@.subrange(i + 2, k as int)
                        =~= v@.subrange(i + 2, k - 1).push(v@[k - 1]));
                }
            }
            return Some(cap);
        }
        i += 1;
    }
    proof {
        assert forall|j: int| 0 <= j implies !tag_starts_loose(v@, t, j) by {
            if tag_starts_loose(v@, t, j) {
                assert(j + 2 < v@.len());
            }
        }
        lemma_find_tag_loose_none(v@, t, 0);
    }
    None
}

/// Parses the selector (`s=`) and domain (`d=`) tags out of the raw
/// DKIM-Signature value; either may be absent.
pub fn parse_dkim_header(value: &Vec<u8>) -> (r: DkimHeader)
    ensures
        match r.selector {
            Some(s) => tag_capture_strict(value@, 115) == Some(s@),
            None => tag_capture_strict(value@, 115) is None,
        },
        match r.domain {
            Some(d) => tag_capture_strict(value@, 100) == Some(d@),
            None => tag_capture_strict(value@, 100) is None,
        },
{
    let selector = extract_tag_strict(value, 115);
    let domain = extract_tag_strict(value, 100);
    DkimHeader { selector, domain }
}

/// Checks that both the selector and the domain were found. A missing tag
/// is a key-resolution error, raised before any DNS query is made.
pub fn require_dkim_tags(h: DkimHeader) -> (r: Result<(Vec<u8>, Vec<u8>), PipelineError>)
    ensures
        match r {
            Ok(sd) => {
                &&& h.selector is Some
                &&& h.domain is Some
                &&& sd.0@ == h.selector->0@
                &&& sd.1@ == h.domain->0@
            },
            Err(e) => {
                &&& (h.selector is None || h.domain is None)
                &&& e == PipelineError::KeyResolution
            },
        },
{
    match (h.selector, h.domain) {
        (Some(s), Some(d)) => Ok((s, d)),
        _ => Err(PipelineError::KeyResolution),
    }
}

/// Holds of the whitespace bytes that are stripped out of the signature
/// value before decoding: tab, carriage return, newline and space.
pub open spec fn is_sig_ws(b: u8) -> bool {
    b == 9 || b == 13 || b == 10 || b == 32
}

/// `s` with every whitespace byte removed.
pub open spec fn strip_sig_ws(s: Seq<u8>) -> Seq<u8>
    decreases s.len(),
{
    if s.len() == 0 {
        s
    } else if is_sig_ws(s[0]) {
        strip_sig_ws(s.skip(1))
    } else {
        seq![s[0]] + strip_sig_ws(s.skip(1))
    }
}

/// Removes every tab, carriage return, newline and space byte.
pub fn clean_dkim_signature(sig: &Vec<u8>) -> (r: Vec<u8>)
    ensures
        r@ == strip_sig_ws(sig@),
{
    let mut out: Vec<u8> = Vec::new();
    let mut i: usize = 0;
    proof {
        assert(sig@.skip(0) =~= sig@);
        assert(out@ + strip_sig_ws(sig@) =~= strip_sig_ws(sig@));
    }
    while i < sig.len()
        invariant
            i <= sig@.len(),
            strip_sig_ws(sig@) == out@ + strip_sig_ws(sig@.skip(i as int)),
        decreases sig@.len() - i,
    {
        let ghost rest = sig@.skip(i as int);
        let b = sig[i];
        if b == 9 || b == 13 || b == 10 || b == 32 {
            i += 1;
            proof {
                assert(rest[0] == b);
                assert(rest.skip(1) =~= sig@.skip(i as int));
            }
        } else {
            out.push(b);
            i += 1;
            proof {
                assert(rest[0] == b);
                assert(rest.skip(1) =~= sig@.skip(i as int));
                assert(out@ + strip_sig_ws(sig@.skip(i as int))
                    =~= out@.drop_last() + (seq![rest[0]] + strip_sig_ws(rest.skip(1))));
            }
        }
    }
    proof {
        assert(sig@.skip(sig@.len() as int) =~= Seq::<u8>::empty());
        assert(out@ + strip_sig_ws(sig@.skip(sig@.len() as int)) =~= out@);
    }
    out
}

/// What standard base64 decoding returns for the given bytes: the decoded
/// bytes, or nothing when the input is not well-formed base64.
pub uninterp spec fn b64_decode_of(s: Seq<u8>) -> Option<Seq<u8>>;

/// Relies on base64's STANDARD engine decode: deterministic base64
/// decoding of the input bytes, failing exactly on malformed input.
#[verifier::external_body]
fn b64_decode(v: &Vec<u8>) -> (r: Result<Vec<u8>, base64::DecodeError>)
    ensures
        match r {
            Ok(d) => b64_decode_of(v@) == Some(d@),
            Err(_) => b64_decode_of(v@) is None,
        },
{
    base64::Engine::decode(&base64::engine::general_purpose::STANDARD, v.as_slice())
}

/// The error type of base64 decoding.
#[verifier::external_type_specification]
#[verifier::external_body]
pub struct ExDecodeError(base64::DecodeError);

/// The decoded signature bytes of `value`: its `b=` tag value, with
/// whitespace stripped, decoded as base64.
pub open spec fn dkim_signature_bytes(value: Seq<u8>) -> Option<Seq<u8>> {
    match tag_capture_loose(value, 98) {
        Some(cap) => b64_decode_of(strip_sig_ws(cap)),
        None => None,
    }
}

/// Extracts and decodes the signature bytes of the `b=` tag. A missing tag
/// is an encoding error; a value that does not decode as base64 is a
/// signature-decode error.
pub fn extract_dkim_signature(value: &Vec<u8>) -> (r: Result<Vec<u8>, PipelineError>)
    ensures
        match r {
            Ok(sig) => dkim_signature_bytes(value@) == Some(sig@),
            Err(e) => {
                &&& dkim_signature_bytes(value@) is None
                &&& (e == PipelineError::Encoding || e == PipelineError::SignatureDecode)
                &&& (e == PipelineError::Encoding <==> tag_capture_loose(value@, 98) is None)
            },
        },
{
    let cap = match extract_tag_loose(value, 98) {
        Some(c) => c,
        None => {
            return Err(PipelineError::Encoding);
        },
    };
    let cleaned = clean_dkim_signature(&cap);
    match b64_decode(&cleaned) {
        Ok(d) => Ok(d),
        Err(_) => Err(PipelineError::SignatureDecode),
    }
}

} // verus!
