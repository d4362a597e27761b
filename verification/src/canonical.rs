//! Relaxed DKIM header canonicalization: selecting the signed headers,
//! truncating the DKIM-Signature value before its signature tag, joining the
//! lines, unfolding whitespace and zero-padding the result.

use vstd::prelude::*;
use crate::bytes::{bytes_eq, clone_bytes, push_all, take_bytes};
use crate::errors::PipelineError;
use crate::padded::{find_substring_start_index, match_at, PaddedField, pad_bytes};

verus! {

/// Capacity of the canonical header buffer, in bytes.
pub const MAX_HEADER_LENGTH: usize = 1024;

/// One raw header of the parsed email: a name and its unmodified value.
#[derive(Debug)]
pub struct HeaderField {
    pub name: Vec<u8>,
    pub value: Vec<u8>,
}

/// The parts of a parsed email that the pipeline reads: the raw header list
/// and the typed accessors for sender, recipient and subject.
#[derive(Debug)]
pub struct EmailMessage {
    pub headers: Vec<HeaderField>,
    pub from: Option<Vec<u8>>,
    pub to: Option<Vec<u8>>,
    pub subject: Option<Vec<u8>>,
}

/// The eight header values that enter the canonical block, with the
/// DKIM-Signature value already truncated before its signature tag.
#[derive(Debug)]
pub struct RelaxedHeaders {
    pub from: Vec<u8>,
    pub content_type: Vec<u8>,
    pub mime_version: Vec<u8>,
    pub subject: Vec<u8>,
    pub message_id: Vec<u8>,
    pub date: Vec<u8>,
    pub to: Vec<u8>,
    pub dkim_signature: Vec<u8>,
}

/// Holds when `headers[i]` is the first header named `name`.
pub open spec fn first_header_at(headers: Seq<HeaderField>, name: Seq<u8>, i: int) -> bool {
    &&& 0 <= i < headers.len()
    &&& headers[i].name@ == name
    &&& forall|j: int| 0 <= j < i ==> headers[j].name@ != name
}

/// Holds when some header in the list is named `name`.
pub open spec fn has_header(headers: Seq<HeaderField>, name: Seq<u8>) -> bool {
    exists|i: int| 0 <= i < headers.len() && headers[i].name@ == name
}

/// The value of the first header named `name`, or `None`.
pub fn find_header<'a>(headers: &'a Vec<HeaderField>, name: &Vec<u8>) -> (r: Option<&'a Vec<u8>>)
    ensures
        match r {
            Some(v) => exists|i: int|
                first_header_at(headers@, name@, i) && v@ == headers@[i].value@,
            None => !has_header(headers@, name@),
        },
{
    let mut i: usize = 0;
    while i < headers.len()
        invariant
            i <= headers@.len(),
            forall|j: int| 0 <= j < i ==> headers@[j].name@ != name@,
        decreases headers@.len() - i,
    {
        if bytes_eq(&headers[i].name, name) {
            proof {
                assert(first_header_at(headers@, name@, i as int));
            }
            return Some(&headers[i].value);
        }
        i += 1;
    }
    None
}

/// The unfolded delimiter `"; b="` that opens the signature tag.
pub open spec fn unfolded_delim() -> Seq<u8> {
    seq![59u8, 32u8, 98u8, 61u8]
}

/// The folded delimiter `";\n\tb="` that opens the signature tag after a
/// folded line break.
pub open spec fn folded_delim() -> Seq<u8> {
    seq![59u8, 10u8, 9u8, 98u8, 61u8]
}

/// The index of the first occurrence of `needle` in `haystack` at or after
/// `from`, or `None`.
pub open spec fn find_first(haystack: Seq<u8>, needle: Seq<u8>, from: int) -> Option<int>
    decreases haystack.len() - from when 0 <= from <= haystack.len()
{
    if from < 0 || from + needle.len() > haystack.len() {
        None
    } else if match_at(haystack, needle, from) {
        Some(from)
    } else if needle.len() > 0 {
        find_first(haystack, needle, from + 1)
    } else {
        // an empty needle always matches, so this branch is never reached
        None
    }
}

/// `find_first` from the start of the string returns exactly the first
/// matching index.
proof fn lemma_find_first_characterization(haystack: Seq<u8>, needle: Seq<u8>, from: int, i: int)
    requires
        0 <= from <= i,
        match_at(haystack, needle, i),
        forall|j: int| from <= j < i ==> !match_at(haystack, needle, j),
    ensures
        find_first(haystack, needle, from) == Some(i),
    decreases i - from,
{
    if from == i {
    } else if needle.len() == 0 {
        assert(match_at(haystack, needle, from)) by {
            assert(haystack.subrange(from, from) =~= needle);
        }
    } else {
        lemma_find_first_characterization(haystack, needle, from + 1, i);
    }
}

/// When nothing matches, `find_first` returns `None`.
proof fn lemma_find_first_none(haystack: Seq<u8>, needle: Seq<u8>, from: int)
    requires
        0 <= from <= haystack.len(),
        forall|j: int| !match_at(haystack, needle, j),
    ensures
        find_first(haystack, needle, from) is None,
    decreases haystack.len() - from,
{
    if needle.len() == 0 {
        assert(match_at(haystack, needle, from)) by {
            assert(haystack.subrange(from, from) =~= needle);
        }
    } else if from + needle.len() <= haystack.len() {
        lemma_find_first_none(haystack, needle, from + 1);
    }
}

/// The truncated DKIM-Signature value: everything up to and including the
/// earlier of the unfolded and the folded signature delimiter, or `None`
/// when neither occurs. On a tie in byte offset the unfolded delimiter wins.
pub open spec fn truncated_dkim(v: Seq<u8>) -> Option<Seq<u8>> {
    let u = find_first(v, unfolded_delim(), 0);
    let f = find_first(v, folded_delim(), 0);
    match (u, f) {
        (Some(iu), Some(ifo)) => if iu <= ifo {
            Some(v.take(iu + unfolded_delim().len()))
        } else {
            Some(v.take(ifo + folded_delim().len()))
        },
        (Some(iu), None) => Some(v.take(iu + unfolded_delim().len())),
        (None, Some(ifo)) => Some(v.take(ifo + folded_delim().len())),
        (None, None) => None,
    }
}

/// Truncates the raw DKIM-Signature value immediately after its signature
/// delimiter, searching for both the unfolded and the folded form and
/// keeping whichever starts at the smaller byte offset.
pub fn truncate_dkim_value(v: &Vec<u8>) -> (r: Result<Vec<u8>, PipelineError>)
    ensures
        match r {
            Ok(t) => truncated_dkim(v@) == Some(t@),
            Err(e) => truncated_dkim(v@) is None && e == PipelineError::Encoding,
        },
{
    let unfolded: Vec<u8> = vec![59u8, 32u8, 98u8, 61u8];
    let folded: Vec<u8> = vec![59u8, 10u8, 9u8, 98u8, 61u8];
    proof {
        assert(unfolded@ =~= unfolded_delim());
        assert(folded@ =~= folded_delim());
    }
    let n = v.len();
    let u = find_substring_start_index(v.as_slice(), unfolded.as_slice());
    let f = find_substring_start_index(v.as_slice(), folded.as_slice());
    proof {
        assert(v@.len() == n);
        match u {
            Some(iu) => lemma_find_first_characterization(v@, unfolded_delim(), 0, iu as int),
            None => lemma_find_first_none(v@, unfolded_delim(), 0),
        }
        match f {
            Some(ifo) => lemma_find_first_characterization(v@, folded_delim(), 0, ifo as int),
            None => lemma_find_first_none(v@, folded_delim(), 0),
        }
    }
    match (u, f) {
        (Some(iu), Some(ifo)) => {
            if iu <= ifo {
                Ok(take_bytes(v, iu + 4))
            } else {
                Ok(take_bytes(v, ifo + 5))
            }
        },
        (Some(iu), None) => Ok(take_bytes(v, iu + 4)),
        (None, Some(ifo)) => Ok(take_bytes(v, ifo + 5)),
        (None, None) => Err(PipelineError::Encoding),
    }
}

/// Every delimiter occurrence at a smaller byte offset wins the truncation,
/// whichever of the two forms it has; on an equal offset the unfolded form
/// wins.
pub proof fn lemma_truncation_tie_break(v: Seq<u8>, iu: int, ifo: int)
    requires
        match_at(v, unfolded_delim(), iu),
        forall|j: int| 0 <= j < iu ==> !match_at(v, unfolded_delim(), j),
        match_at(v, folded_delim(), ifo),
        forall|j: int| 0 <= j < ifo ==> !match_at(v, folded_delim(), j),
    ensures
        truncated_dkim(v) == if iu <= ifo {
            Some(v.take(iu + unfolded_delim().len()))
        } else {
            Some(v.take(ifo + folded_delim().len()))
        },
{
    lemma_find_first_characterization(v, unfolded_delim(), 0, iu);
    lemma_find_first_characterization(v, folded_delim(), 0, ifo);
}

/// Names of the headers that are looked up in the raw header list.
pub open spec fn content_type_name() -> Seq<u8> {
    seq![67u8, 111u8, 110u8, 116u8, 101u8, 110u8, 116u8, 45u8, 84u8, 121u8, 112u8, 101u8]
}

pub open spec fn mime_version_name() -> Seq<u8> {
    seq![77u8, 73u8, 77u8, 69u8, 45u8, 86u8, 101u8, 114u8, 115u8, 105u8, 111u8, 110u8]
}

pub open spec fn message_id_name() -> Seq<u8> {
    seq![77u8, 101u8, 115u8, 115u8, 97u8, 103u8, 101u8, 45u8, 73u8, 100u8]
}

pub open spec fn date_name() -> Seq<u8> {
    seq![68u8, 97u8, 116u8, 101u8]
}

pub open spec fn dkim_signature_name() -> Seq<u8> {
    seq![68u8, 75u8, 73u8, 77u8, 45u8, 83u8, 105u8, 103u8, 110u8, 97u8, 116u8, 117u8, 114u8, 101u8]
}

/// The raw `Content-Type` header name, as bytes.
pub fn content_type_header_name() -> (r: Vec<u8>)
    ensures
        r@ == content_type_name(),
{
    let v: Vec<u8> = vec![67u8, 111u8, 110u8, 116u8, 101u8, 110u8, 116u8, 45u8, 84u8, 121u8, 112u8, 101u8];
    proof {
        assert(v@ =~= content_type_name());
    }
    v
}

/// The raw `MIME-Version` header name, as bytes.
pub fn mime_version_header_name() -> (r: Vec<u8>)
    ensures
        r@ == mime_version_name(),
{
    let v: Vec<u8> = vec![77u8, 73u8, 77u8, 69u8, 45u8, 86u8, 101u8, 114u8, 115u8, 105u8, 111u8, 110u8];
    proof {
        assert(v@ =~= mime_version_name());
    }
    v
}

/// The raw `Message-Id` header name, as bytes.
pub fn message_id_header_name() -> (r: Vec<u8>)
    ensures
        r@ == message_id_name(),
{
    let v: Vec<u8> = vec![77u8, 101u8, 115u8, 115u8, 97u8, 103u8, 101u8, 45u8, 73u8, 100u8];
    proof {
        assert(v@ =~= message_id_name());
    }
    v
}

/// The raw `Date` header name, as bytes.
pub fn date_header_name() -> (r: Vec<u8>)
    ensures
        r@ == date_name(),
{
    let v: Vec<u8> = vec![68u8, 97u8, 116u8, 101u8];
    proof {
        assert(v@ =~= date_name());
    }
    v
}

/// The raw `DKIM-Signature` header name, as bytes.
pub fn dkim_signature_header_name() -> (r: Vec<u8>)
    ensures
        r@ == dkim_signature_name(),
{
    let v: Vec<u8> = vec![68u8, 75u8, 73u8, 77u8, 45u8, 83u8, 105u8, 103u8, 110u8, 97u8, 116u8, 117u8, 114u8, 101u8];
    proof {
        assert(v@ =~= dkim_signature_name());
    }
    v
}

/// Holds when the email carries everything `build_relaxed_headers` needs:
/// the three typed accessors and the five named raw headers, and a
/// signature delimiter inside the DKIM-Signature value.
pub open spec fn relaxed_headers_buildable(email: EmailMessage) -> bool {
    &&& email.from is Some
    &&& email.to is Some
    &&& email.subject is Some
    &&& has_header(email.headers@, content_type_name())
    &&& has_header(email.headers@, mime_version_name())
    &&& has_header(email.headers@, message_id_name())
    &&& has_header(email.headers@, date_name())
    &&& has_header(email.headers@, dkim_signature_name())
    &&& {
        let i = choose|i: int| first_header_at(email.headers@, dkim_signature_name(), i);
        truncated_dkim(email.headers@[i].value@) is Some
    }
}

/// Selects the eight signed headers out of the parsed email and truncates
/// the DKIM-Signature value before its signature tag. Fails with an
/// encoding error when a required header is absent or no signature
/// delimiter occurs.
pub fn build_relaxed_headers(email: &EmailMessage) -> (r: Result<RelaxedHeaders, PipelineError>)
    ensures
        match r {
            Ok(rh) => {
                &&& relaxed_headers_buildable(*email)
                &&& rh.from@ == email.from->0@
                &&& rh.to@ == email.to->0@
                &&& rh.subject@ == email.subject->0@
                &&& exists|i: int|
                    first_header_at(email.headers@, content_type_name(), i)
                        && rh.content_type@ == email.headers@[i].value@
                &&& exists|i: int|
                    first_header_at(email.headers@, mime_version_name(), i)
                        && rh.mime_version@ == email.headers@[i].value@
                &&& exists|i: int|
                    first_header_at(email.headers@, message_id_name(), i)
                        && rh.message_id@ == email.headers@[i].value@
                &&& exists|i: int|
                    first_header_at(email.headers@, date_name(), i)
                        && rh.date@ == email.headers@[i].value@
                &&& exists|i: int|
                    first_header_at(email.headers@, dkim_signature_name(), i)
                        && truncated_dkim(email.headers@[i].value@) == Some(rh.dkim_signature@)
            },
            Err(e) => !relaxed_headers_buildable(*email) && e == PipelineError::Encoding,
        },
{
    let from = match &email.from {
        Some(v) => clone_bytes(v),
        None => {
            return Err(PipelineError::Encoding);
        },
    };
    let to = match &email.to {
        Some(v) => clone_bytes(v),
        None => {
            return Err(PipelineError::Encoding);
        },
    };
    let subject = match &email.subject {
        Some(v) => clone_bytes(v),
        None => {
            return Err(PipelineError::Encoding);
        },
    };
    let content_type = match find_header(&email.headers, &content_type_header_name()) {
        Some(v) => clone_bytes(v),
        None => {
            return Err(PipelineError::Encoding);
        },
    };
    let mime_version = match find_header(&email.headers, &mime_version_header_name()) {
        Some(v) => clone_bytes(v),
        None => {
            return Err(PipelineError::Encoding);
        },
    };
    let message_id = match find_header(&email.headers, &message_id_header_name()) {
        Some(v) => clone_bytes(v),
        None => {
            return Err(PipelineError::Encoding);
        },
    };
    let date = match find_header(&email.headers, &date_header_name()) {
        Some(v) => clone_bytes(v),
        None => {
            return Err(PipelineError::Encoding);
        },
    };
    let dkim_raw = match find_header(&email.headers, &dkim_signature_header_name()) {
        Some(v) => v,
        None => {
            return Err(PipelineError::Encoding);
        },
    };
    let ghost dkim_index = choose|i: int|
        first_header_at(email.headers@, dkim_signature_name(), i)
            && dkim_raw@ == email.headers@[i].value@;
    proof {
        let j = choose|j: int| first_header_at(email.headers@, dkim_signature_name(), j);
        assert(j == dkim_index);
    }
    let dkim_signature = match truncate_dkim_value(dkim_raw) {
        Ok(t) => t,
        Err(e) => {
            return Err(e);
        },
    };
    Ok(RelaxedHeaders {
        from,
        content_type,
        mime_version,
        subject,
        message_id,
        date,
        to,
        dkim_signature,
    })
}

/// The CRLF line separator of the canonical header block.
pub open spec fn crlf() -> Seq<u8> {
    seq![13u8, 10u8]
}

/// Lower-cased label of each canonical line, colon included.
pub open spec fn to_label() -> Seq<u8> {
    seq![116u8, 111u8, 58u8]
}

pub open spec fn from_label() -> Seq<u8> {
    seq![102u8, 114u8, 111u8, 109u8, 58u8]
}

pub open spec fn subject_label() -> Seq<u8> {
    seq![115u8, 117u8, 98u8, 106u8, 101u8, 99u8, 116u8, 58u8]
}

pub open spec fn date_label() -> Seq<u8> {
    seq![100u8, 97u8, 116u8, 101u8, 58u8]
}

pub open spec fn message_id_label() -> Seq<u8> {
    seq![109u8, 101u8, 115u8, 115u8, 97u8, 103u8, 101u8, 45u8, 105u8, 100u8, 58u8]
}

pub open spec fn content_type_label() -> Seq<u8> {
    seq![99u8, 111u8, 110u8, 116u8, 101u8, 110u8, 116u8, 45u8, 116u8, 121u8, 112u8, 101u8, 58u8]
}

pub open spec fn mime_version_label() -> Seq<u8> {
    seq![109u8, 105u8, 109u8, 101u8, 45u8, 118u8, 101u8, 114u8, 115u8, 105u8, 111u8, 110u8, 58u8]
}

pub open spec fn dkim_signature_label() -> Seq<u8> {
    seq![
        100u8, 107u8, 105u8, 109u8, 45u8, 115u8, 105u8, 103u8, 110u8, 97u8, 116u8, 117u8,
        114u8, 101u8, 58u8,
    ]
}

/// The canonical header block before whitespace unfolding: the eight
/// `label:value` lines in their fixed order, joined by CRLF.
pub open spec fn rendered_headers(rh: RelaxedHeaders) -> Seq<u8> {
    to_label() + rh.to@ + crlf() + from_label() + rh.from@ + crlf() + subject_label()
        + rh.subject@ + crlf() + date_label() + rh.date@ + crlf() + message_id_label()
        + rh.message_id@ + crlf() + content_type_label() + rh.content_type@ + crlf()
        + mime_version_label() + rh.mime_version@ + crlf() + dkim_signature_label()
        + rh.dkim_signature@
}

/// Relaxed unfolding: every newline-tab pair becomes a single space,
/// scanning left to right without overlap.
pub open spec fn unfold_ws(s: Seq<u8>) -> Seq<u8>
    decreases s.len(),
{
    if s.len() < 2 {
        s
    } else if s[0] == 10 && s[1] == 9 {
        seq![32u8] + unfold_ws(s.skip(2))
    } else {
        seq![s[0]] + unfold_ws(s.skip(1))
    }
}

/// Replaces every newline-tab pair in `src` with a single space.
pub fn unfold_whitespace(src: &Vec<u8>) -> (r: Vec<u8>)
    ensures
        r@ == unfold_ws(src@),
{
    let mut out: Vec<u8> = Vec::new();
    let mut i: usize = 0;
    proof {
        assert(src@.skip(0) =~= src@);
        assert(out@ + unfold_ws(src@) =~= unfold_ws(src@));
    }
    while i < src.len()
        invariant
            i <= src@.len(),
            unfold_ws(src@) == out@ + unfold_ws(src@.skip(i as int)),
        decreases src@.len() - i,
    {
        let ghost rest = src@.skip(i as int);
        if src[i] == 10 && i + 1 < src.len() && src[i + 1] == 9 {
            out.push(32u8);
            i += 2;
            proof {
                assert(rest[0] == 10 && rest[1] == 9);
                assert(rest.skip(2) =~= src@.skip(i as int));
                assert(out@ + unfold_ws(src@.skip(i as int))
                    =~= out@.drop_last() + (seq![32u8] + unfold_ws(rest.skip(2))));
            }
        } else {
            out.push(src[i]);
            i += 1;
            proof {
                assert(rest[0] == src@[i - 1]);
                if rest.len() >= 2 {
                    assert(!(rest[0] == 10 && rest[1] == 9));
                    assert(rest.skip(1) =~= src@.skip(i as int));
                    assert(out@ + unfold_ws(src@.skip(i as int))
                        =~= out@.drop_last() + (seq![rest[0]] + unfold_ws(rest.skip(1))));
                } else {
                    assert(rest =~= seq![rest[0]]);
                    assert(unfold_ws(rest) == rest);
                    assert(src@.skip(i as int) =~= Seq::<u8>::empty());
                    assert(out@ + unfold_ws(src@.skip(i as int))
                        =~= out@.drop_last() + rest);
                }
            }
        }
    }
    proof {
        assert(src@.skip(src@.len() as int) =~= Seq::<u8>::empty());
        assert(out@ + unfold_ws(src@.skip(src@.len() as int)) =~= out@);
    }
    out
}

/// The canonical header text: the joined lines with folded whitespace
/// replaced by single spaces.
pub open spec fn canonical_header_text(rh: RelaxedHeaders) -> Seq<u8> {
    unfold_ws(rendered_headers(rh))
}

/// Renders the eight canonical lines, unfolds whitespace, and zero-pads the
/// result to the fixed header capacity, recording the true length. A
/// canonical text longer than the capacity is an encoding error.
pub fn to_signed_headers(rh: &RelaxedHeaders) -> (r: Result<PaddedField, PipelineError>)
    ensures
        match r {
            Ok(p) => {
                &&& canonical_header_text(*rh).len() <= MAX_HEADER_LENGTH
                &&& p.wf()
                &&& p.buffer@.len() == MAX_HEADER_LENGTH
                &&& p.content() == canonical_header_text(*rh)
                &&& p.true_length == canonical_header_text(*rh).len()
            },
            Err(e) => {
                &&& canonical_header_text(*rh).len() > MAX_HEADER_LENGTH
                &&& e == PipelineError::Encoding
            },
        },
{
    let sep: Vec<u8> = vec![13u8, 10u8];
    let l_to: Vec<u8> = vec![116u8, 111u8, 58u8];
    let l_from: Vec<u8> = vec![102u8, 114u8, 111u8, 109u8, 58u8];
    let l_subject: Vec<u8> = vec![115u8, 117u8, 98u8, 106u8, 101u8, 99u8, 116u8, 58u8];
    let l_date: Vec<u8> = vec![100u8, 97u8, 116u8, 101u8, 58u8];
    let l_message_id: Vec<u8> = vec![
        109u8, 101u8, 115u8, 115u8, 97u8, 103u8, 101u8, 45u8, 105u8, 100u8, 58u8,
    ];
    let l_content_type: Vec<u8> = vec![
        99u8, 111u8, 110u8, 116u8, 101u8, 110u8, 116u8, 45u8, 116u8, 121u8, 112u8, 101u8, 58u8,
    ];
    let l_mime_version: Vec<u8> = vec![
        109u8, 105u8, 109u8, 101u8, 45u8, 118u8, 101u8, 114u8, 115u8, 105u8, 111u8, 110u8, 58u8,
    ];
    let l_dkim: Vec<u8> = vec![
        100u8, 107u8, 105u8, 109u8, 45u8, 115u8, 105u8, 103u8, 110u8, 97u8, 116u8, 117u8,
        114u8, 101u8, 58u8,
    ];
    proof {
        assert(sep@ =~= crlf());
        assert(l_to@ =~= to_label());
        assert(l_from@ =~= from_label());
        assert(l_subject@ =~= subject_label());
        assert(l_date@ =~= date_label());
        assert(l_message_id@ =~= message_id_label());
        assert(l_content_type@ =~= content_type_label());
        assert(l_mime_version@ =~= mime_version_label());
        assert(l_dkim@ =~= dkim_signature_label());
    }
    let mut joined: Vec<u8> = Vec::new();
    push_all(&mut joined, &l_to);
    push_all(&mut joined, &rh.to);
    push_all(&mut joined, &sep);
    push_all(&mut joined, &l_from);
    push_all(&mut joined, &rh.from);
    push_all(&mut joined, &sep);
    push_all(&mut joined, &l_subject);
    push_all(&mut joined, &rh.subject);
    push_all(&mut joined, &sep);
    push_all(&mut joined, &l_date);
    push_all(&mut joined, &rh.date);
    push_all(&mut joined, &sep);
    push_all(&mut joined, &l_message_id);
    push_all(&mut joined, &rh.message_id);
    push_all(&mut joined, &sep);
    push_all(&mut joined, &l_content_type);
    push_all(&mut joined, &rh.content_type);
    push_all(&mut joined, &sep);
    push_all(&mut joined, &l_mime_version);
    push_all(&mut joined, &rh.mime_version);
    push_all(&mut joined, &sep);
    push_all(&mut joined, &l_dkim);
    push_all(&mut joined, &rh.dkim_signature);
    proof {
        assert(joined@ =~= rendered_headers(*rh));
    }
    let unfolded = unfold_whitespace(&joined);
    if unfolded.len() > MAX_HEADER_LENGTH {
        return Err(PipelineError::Encoding);
    }
    match pad_bytes(&unfolded, MAX_HEADER_LENGTH) {
        Ok(p) => Ok(p),
        Err(e) => {
            // unreachable: the length was just checked against the capacity
            Err(e)
        },
    }
}

} // verus!
