//! Locating and padding the sender, recipient and subject fields:
//! address-token extraction from raw header values, fixed-capacity
//! padding, and byte offsets inside the canonical header.

use vstd::prelude::*;
use crate::bytes::{clone_bytes, push_all};
use crate::errors::PipelineError;
use crate::padded::{find_substring_start_index, match_at, PaddedField, pad_bytes};

verus! {

/// Capacity of the padded subject buffer, sized for a base64-encoded
/// digest.
pub const MSG_HASH_LENGTH: usize = 44;

/// A byte range inside the canonical header buffer: where a field's
/// rendered text starts and how long it is.
#[derive(Debug)]
pub struct FieldOffset {
    pub index: usize,
    pub length: usize,
}

/// Holds of a letter or digit byte.
pub open spec fn is_alnum(b: u8) -> bool {
    (48 <= b <= 57) || (65 <= b <= 90) || (97 <= b <= 122)
}

/// Holds of the bytes an address token may contain besides the `@`:
/// letters, digits, dot, underscore, percent, plus and hyphen.
pub open spec fn is_addr_char(b: u8) -> bool {
    is_alnum(b) || b == 46 || b == 95 || b == 37 || b == 43 || b == 45
}

/// The end of the maximal run of address bytes starting at `i`.
pub open spec fn run_fwd(s: Seq<u8>, i: int) -> int
    decreases s.len() - i when 0 <= i <= s.len()
{
    if i < s.len() && is_addr_char(s[i]) {
        run_fwd(s, i + 1)
    } else {
        i
    }
}

/// The end of the domain run with trailing non-alphanumeric bytes dropped,
/// never moving before `start`.
pub open spec fn trim_end(s: Seq<u8>, e: int, start: int) -> int
    decreases e when 0 <= start <= e <= s.len()
{
    if e > start && !is_alnum(s[e - 1]) {
        trim_end(s, e - 1, start)
    } else {
        e
    }
}

/// Holds when an address token starts exactly at `p`: a nonempty run of
/// address bytes up to an `@`, then a domain that holds an interior dot
/// and ends in a letter or digit.
pub open spec fn token_at(s: Seq<u8>, p: int) -> bool {
    &&& 0 <= p < s.len()
    &&& is_addr_char(s[p])
    &&& {
        let a = run_fwd(s, p);
        &&& a < s.len()
        &&& s[a] == 64
        &&& {
            let de = trim_end(s, run_fwd(s, a + 1), a + 1);
            &&& de > a + 1
            &&& exists|k: int| a + 2 <= k <= de - 2 && s[k] == 46
        }
    }
}

/// Where the token starting at `p` ends: the trimmed end of the domain
/// run after its `@`.
pub open spec fn token_end(s: Seq<u8>, p: int) -> int {
    let a = run_fwd(s, p);
    trim_end(s, run_fwd(s, a + 1), a + 1)
}

/// The token starting at `p`: the local run, the `@`, and the trimmed
/// domain run.
pub open spec fn token_text(s: Seq<u8>, p: int) -> Seq<u8> {
    s.subrange(p, token_end(s, p))
}

/// Every address token of `s` from `from` on, in occurrence order and
/// without overlap: after a token is taken the scan resumes at its end,
/// as successive pattern matches do.
pub open spec fn addr_tokens_from(s: Seq<u8>, from: int) -> Seq<Seq<u8>>
    decreases s.len() - from when 0 <= from <= s.len()
{
    if from >= s.len() {
        Seq::<Seq<u8>>::empty()
    } else if token_at(s, from) {
        if from < token_end(s, from) <= s.len() {
            seq![token_text(s, from)] + addr_tokens_from(s, token_end(s, from))
        } else {
            // a token always ends past its start and inside the string,
            // so this branch is never reached
            seq![token_text(s, from)]
        }
    } else {
        addr_tokens_from(s, from + 1)
    }
}

/// Every email-address-shaped token of `s`, leftmost first, without
/// overlap.
pub open spec fn addr_tokens(s: Seq<u8>) -> Seq<Seq<u8>> {
    addr_tokens_from(s, 0)
}

/// Tests the address-byte class in executable code.
fn is_addr_byte(b: u8) -> (r: bool)
    ensures
        r == is_addr_char(b),
{
    (48 <= b && b <= 57) || (65 <= b && b <= 90) || (97 <= b && b <= 122) || b == 46
        || b == 95 || b == 37 || b == 43 || b == 45
}

/// Tests the letter-or-digit class in executable code.
fn is_alnum_byte(b: u8) -> (r: bool)
    ensures
        r == is_alnum(b),
{
    (48 <= b && b <= 57) || (65 <= b && b <= 90) || (97 <= b && b <= 122)
}

/// The end of the maximal address-byte run starting at `i`.
fn scan_fwd(s: &Vec<u8>, i: usize) -> (r: usize)
    requires
        i <= s@.len(),
    ensures
        r == run_fwd(s@, i as int),
        i <= r <= s@.len(),
{
    let mut e: usize = i;
    while e < s.len() && is_addr_byte(s[e])
        invariant
            i <= e <= s@.len(),
            run_fwd(s@, i as int) == run_fwd(s@, e as int),
        decreases s@.len() - e,
    {
        e += 1;
    }
    e
}

/// The domain end with trailing non-alphanumeric bytes dropped.
fn scan_trim(s: &Vec<u8>, e: usize, start: usize) -> (r: usize)
    requires
        start <= e <= s@.len(),
    ensures
        r == trim_end(s@, e as int, start as int),
        start <= r <= e,
{
    let mut t: usize = e;
    while t > start && !is_alnum_byte(s[t - 1])
        invariant
            start <= t <= e <= s@.len(),
            trim_end(s@, e as int, start as int) == trim_end(s@, t as int, start as int),
        decreases t,
    {
        t -= 1;
    }
    t
}

/// Extracts every email-address-shaped token of `text`, leftmost first: a
/// nonempty run of address bytes, an `@`, and a domain run that holds an
/// interior dot and ends in a letter or digit. Tokens do not overlap: the
/// scan resumes at each token's end.
pub fn extract_emails(text: &Vec<u8>) -> (r: Vec<Vec<u8>>)
    ensures
        r.deep_view() == addr_tokens(text@),
{
    let mut out: Vec<Vec<u8>> = Vec::new();
    let mut p: usize = 0;
    proof {
        assert(out.deep_view() =~= Seq::<Seq<u8>>::empty());
        assert(out.deep_view() + addr_tokens_from(text@, 0) =~= addr_tokens_from(text@, 0));
    }
    while p < text.len()
        invariant
            p <= text@.len(),
            addr_tokens(text@) == out.deep_view() + addr_tokens_from(text@, p as int),
        decreases text@.len() - p,
    {
        let ghost pre = out.deep_view();
        let mut took_token = false;
        if is_addr_byte(text[p]) {
            let a = scan_fwd(text, p);
            if a < text.len() && text[a] == 64 {
                let de0 = scan_fwd(text, a + 1);
                let de = scan_trim(text, de0, a + 1);
                let mut has_dot = false;
                if de - (a + 1) >= 3 {
                    let mut k: usize = a + 2;
                    while k <= de - 2
                        invariant
                            a + 2 <= k <= de - 1,
                            de <= text@.len(),
                            has_dot <==> exists|j: int| a + 2 <= j < k && text@[j] == 46,
                        decreases de - k,
                    {
                        if text[k] == 46 {
                            has_dot = true;
                        }
                        k += 1;
                    }
                }
                proof {
                    if !has_dot {
                        assert(!(exists|k: int| a + 2 <= k <= de - 2 && text@[k] == 46));
                    }
                }
                if de > a + 1 && has_dot {
                    proof {
                        assert(token_at(text@, p as int));
                        assert(token_end(text@, p as int) == de);
                    }
                    let mut tok: Vec<u8> = Vec::new();
                    let mut m: usize = p;
                    while m < de
                        invariant
                            p <= m <= de <= text@.len(),
                            tok@ == text@.subrange(p as int, m as int),
                        decreases de - m,
                    {
                        tok.push(text[m]);
                        m += 1;
                        proof {
                            assert(text@.subrange(p as int, m as int)
                                =~= text@.subrange(p as int, m - 1).push(text@[m - 1]));
                        }
                    }
                    out.push(tok);
                    proof {
                        assert(tok@ == token_text(text@, p as int));
                        assert(out.deep_view() =~~= pre.push(tok@));
                        assert(addr_tokens_from(text@, p as int)
                            == seq![token_text(text@, p as int)] + addr_tokens_from(
                            text@, de as int));
                        assert(pre.push(tok@) + addr_tokens_from(text@, de as int)
                            =~= pre + (seq![token_text(text@, p as int)]
                                + addr_tokens_from(text@, de as int)));
                    }
                    p = de;
                    took_token = true;
                } else {
                    proof {
                        assert(!token_at(text@, p as int));
                    }
                }
            } else {
                proof {
                    assert(!token_at(text@, p as int));
                }
            }
        } else {
            proof {
                assert(!token_at(text@, p as int));
            }
        }
        if !took_token {
            p += 1;
        }
    }
    proof {
        assert(addr_tokens_from(text@, text@.len() as int) =~= Seq::<Seq<u8>>::empty());
        assert(out.deep_view() + addr_tokens_from(text@, text@.len() as int)
            =~= out.deep_view());
    }
    out
}

/// The padded form of the last address token of a raw header value: the
/// token's bytes zero-extended to `capacity`, with the token's byte length
/// recorded. Missing tokens and tokens over the capacity are encoding
/// errors.
pub open spec fn padded_address_ok(value: Seq<u8>, capacity: int, p: PaddedField) -> bool {
    &&& addr_tokens(value).len() > 0
    &&& addr_tokens(value).last().len() <= capacity
    &&& p.wf()
    &&& p.buffer@.len() == capacity
    &&& p.true_length == addr_tokens(value).last().len()
    &&& p.content() == addr_tokens(value).last()
}

/// Selects the last address token of the raw `From` value and zero-pads it
/// to `capacity` bytes, recording its true length.
pub fn get_padded_sender(from_value: &Vec<u8>, capacity: usize) -> (r: Result<
    PaddedField,
    PipelineError,
>)
    requires
        capacity <= u32::MAX,
    ensures
        match r {
            Ok(p) => padded_address_ok(from_value@, capacity as int, p),
            Err(e) => {
                &&& e == PipelineError::Encoding
                &&& (addr_tokens(from_value@).len() == 0 || addr_tokens(
                    from_value@).last().len() > capacity)
            },
        },
{
    let emails = extract_emails(from_value);
    if emails.len() == 0 {
        return Err(PipelineError::Encoding);
    }
    let last = &emails[emails.len() - 1];
    proof {
        assert(last@ == addr_tokens(from_value@).last());
    }
    pad_bytes(last, capacity)
}

/// Selects the last address token of the raw `To` value and zero-pads it
/// to `capacity` bytes, recording its true length.
pub fn get_padded_recipient(to_value: &Vec<u8>, capacity: usize) -> (r: Result<
    PaddedField,
    PipelineError,
>)
    requires
        capacity <= u32::MAX,
    ensures
        match r {
            Ok(p) => padded_address_ok(to_value@, capacity as int, p),
            Err(e) => {
                &&& e == PipelineError::Encoding
                &&& (addr_tokens(to_value@).len() == 0 || addr_tokens(
                    to_value@).last().len() > capacity)
            },
        },
{
    let emails = extract_emails(to_value);
    if emails.len() == 0 {
        return Err(PipelineError::Encoding);
    }
    let last = &emails[emails.len() - 1];
    proof {
        assert(last@ == addr_tokens(to_value@).last());
    }
    pad_bytes(last, capacity)
}

/// Zero-pads the raw subject to the fixed digest capacity. A longer
/// subject is an encoding error, never a silent truncation.
pub fn get_padded_subject(subject: &Vec<u8>) -> (r: Result<PaddedField, PipelineError>)
    ensures
        match r {
            Ok(p) => {
                &&& subject@.len() <= MSG_HASH_LENGTH
                &&& p.wf()
                &&& p.buffer@.len() == MSG_HASH_LENGTH
                &&& p.true_length == subject@.len()
                &&& p.content() == subject@
            },
            Err(e) => subject@.len() > MSG_HASH_LENGTH && e == PipelineError::Encoding,
        },
{
    pad_bytes(subject, MSG_HASH_LENGTH)
}

/// Locates the rendered text of a field inside the canonical header: the
/// first occurrence of the label followed by the raw value. The located
/// bytes are exactly that rendered text; a text that occurs nowhere is an
/// indexing error.
pub fn locate_field(header: &Vec<u8>, value: &Vec<u8>, label: &Vec<u8>) -> (r: Result<
    FieldOffset,
    PipelineError,
>)
    ensures
        match r {
            Ok(fo) => {
                &&& exists|i: int|
                    {
                        &&& match_at(header@, label@ + value@, i)
                        &&& (forall|j: int|
                            0 <= j < i ==> !match_at(header@, label@ + value@, j))
                        &&& fo.index == i
                    }
                &&& fo.length == label@.len() + value@.len()
                &&& fo.index + fo.length <= header@.len()
                &&& header@.subrange(fo.index as int, fo.index + fo.length as int)
                    == label@ + value@
            },
            Err(e) => {
                &&& e == PipelineError::Indexing
                &&& forall|i: int| !match_at(header@, label@ + value@, i)
            },
        },
{
    let hn = header.len();
    let mut needle = clone_bytes(label);
    push_all(&mut needle, value);
    match find_substring_start_index(header.as_slice(), needle.as_slice()) {
        Some(i) => {
            proof {
                assert(header@.len() == hn);
                assert(i + needle@.len() <= hn);
            }
            Ok(FieldOffset { index: i, length: needle.len() })
        },
        None => Err(PipelineError::Indexing),
    }
}

/// The nested offset of the selected address inside a located field: when
/// the raw field is longer than the address, the address's start is
/// shifted forward by the exact length difference; otherwise it coincides
/// with the start of the field's value.
pub fn derive_address_offset(field: &FieldOffset, label_len: usize, addr_len: usize) -> (r:
    FieldOffset)
    requires
        label_len <= field.length,
        field.index + field.length <= usize::MAX,
    ensures
        ({
            let full = field.length - label_len;
            &&& r.length == addr_len
            &&& r.index == if full > addr_len {
                field.index + label_len + (full - addr_len)
            } else {
                field.index + label_len
            }
        }),
{
    let full = field.length - label_len;
    let mut index = field.index + label_len;
    if full > addr_len {
        index = index + (full - addr_len);
    }
    FieldOffset { index, length: addr_len }
}

} // verus!
