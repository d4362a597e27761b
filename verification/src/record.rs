//! The record serializer: assembles every computed quantity into one flat
//! structured text document for the prover.

use vstd::prelude::*;
use vstd::arithmetic::power2::pow2;
use crate::canonical::{from_label, to_label};
use crate::errors::PipelineError;
use crate::fields::{derive_address_offset, locate_field};
use crate::limbs::{be_value, bn_limb_string, bn_limbs_chars, barrett_redc_limb_string,
    redc_limbs_of};
use crate::padded::{match_at, PaddedField};
use crate::render::{byte_array_chars, dec_chars, push_byte_array, push_dec, quote_hex,
    quote_hex_chars};

verus! {

/// Length of the rendered `from:` label.
pub const FROM_LABEL_LEN: usize = 5;

/// Length of the rendered `to:` label.
pub const TO_LABEL_LEN: usize = 3;

/// Holds when the rendered field text, the label followed by the raw
/// value, occurs somewhere in `header`.
pub open spec fn locate_ok(header: Seq<u8>, label: Seq<u8>, value: Seq<u8>) -> bool {
    exists|i: int| match_at(header, label + value, i)
}

/// The start of the selected address inside a field whose value starts at
/// `value_start`: shifted forward by the exact length difference when the
/// raw field is longer than the address.
pub open spec fn nested_index(value_start: int, full: int, addr: int) -> int {
    if full > addr {
        value_start + (full - addr)
    } else {
        value_start
    }
}

/// The prover document: every computed quantity as a labelled entry, in a
/// fixed order, with numeric lengths in decimal, byte buffers as
/// bracketed numeric arrays and limb arrays as bracketed quoted hex
/// strings.
pub open spec fn prover_document(
    header: Seq<u8>,
    header_len: nat,
    from_index: nat,
    from_length: nat,
    member_index: nat,
    member_length: nat,
    to_index: nat,
    to_length: nat,
    relayer_index: nat,
    relayer_length: nat,
    member_buf: Seq<u8>,
    relayer_buf: Seq<u8>,
    msg_hash: Seq<u8>,
    modulus: Seq<u8>,
    signature: Seq<u8>,
) -> Seq<char> {
    "[header]\nlen = "@ + dec_chars(header_len) + "\nstorage = "@ + byte_array_chars(header)
        + "\n\n[from_seq]\nindex = "@ + dec_chars(from_index) + "\nlength = "@ + dec_chars(
        from_length) + "\n\n[member_seq]\nindex = "@ + dec_chars(member_index)
        + "\nlength = "@ + dec_chars(member_length) + "\n\n[member]\nlen = "@ + dec_chars(
        member_length) + "\nstorage = "@ + byte_array_chars(member_buf)
        + "\n\n[to_seq]\nindex = "@ + dec_chars(to_index) + "\nlength = "@ + dec_chars(
        to_length) + "\n\n[relayer_seq]\nindex = "@ + dec_chars(relayer_index)
        + "\nlength = "@ + dec_chars(relayer_length) + "\n\n[relayer]\nlen = "@ + dec_chars(
        relayer_length) + "\nstorage = "@ + byte_array_chars(relayer_buf)
        + "\n\nmsg_hash = "@ + byte_array_chars(msg_hash) + "\n\n[pubkey]\nmodulus = "@
        + quote_hex_chars(bn_limbs_chars(modulus)) + "\nredc = "@ + quote_hex_chars(
        redc_limbs_of(modulus)) + "\n\n[signature]\nlimbs = "@ + quote_hex_chars(
        bn_limbs_chars(signature))
}

/// The document is a function of its inputs alone: for one email and one
/// DNS answer, two runs render byte-identical documents.
pub proof fn lemma_document_deterministic(
    r1: Seq<char>,
    r2: Seq<char>,
    header: Seq<u8>,
    header_len: nat,
    from_index: nat,
    from_length: nat,
    member_index: nat,
    member_length: nat,
    to_index: nat,
    to_length: nat,
    relayer_index: nat,
    relayer_length: nat,
    member_buf: Seq<u8>,
    relayer_buf: Seq<u8>,
    msg_hash: Seq<u8>,
    modulus: Seq<u8>,
    signature: Seq<u8>,
)
    requires
        r1 == prover_document(header, header_len, from_index, from_length, member_index,
            member_length, to_index, to_length, relayer_index, relayer_length, member_buf,
            relayer_buf, msg_hash, modulus, signature),
        r2 == prover_document(header, header_len, from_index, from_length, member_index,
            member_length, to_index, to_length, relayer_index, relayer_length, member_buf,
            relayer_buf, msg_hash, modulus, signature),
    ensures
        r1 == r2,
{
}

/// Renders the prover document from every stage's output. The From and To
/// values are located inside the canonical header to derive the field and
/// address offsets; a value that does not occur there is an indexing
/// error, and a modulus or signature wider than the circuit's bit width
/// is an encoding error. The modulus must not be zero.
pub fn build_prover_toml(
    header: &PaddedField,
    signature: &Vec<u8>,
    modulus_be: &Vec<u8>,
    padded_sender: &PaddedField,
    padded_recipient: &PaddedField,
    padded_subject: &PaddedField,
    from_field: &Vec<u8>,
    to_field: &Vec<u8>,
) -> (r: Result<String, PipelineError>)
    requires
        exists|i: int| 0 <= i < modulus_be@.len() && modulus_be@[i] != 0,
    ensures
        match r {
            Ok(doc) => {
                &&& locate_ok(header.buffer@, from_label(), from_field@)
                &&& locate_ok(header.buffer@, to_label(), to_field@)
                &&& be_value(modulus_be@) < pow2(2048)
                &&& be_value(signature@) < pow2(2048)
                &&& exists|fi: int, ti: int|
                    {
                        &&& match_at(header.buffer@, from_label() + from_field@, fi)
                        &&& (forall|j: int|
                            0 <= j < fi ==> !match_at(
                                header.buffer@, from_label() + from_field@, j))
                        &&& match_at(header.buffer@, to_label() + to_field@, ti)
                        &&& (forall|j: int|
                            0 <= j < ti ==> !match_at(
                                header.buffer@, to_label() + to_field@, j))
                        &&& doc@ == prover_document(
                            header.buffer@,
                            header.true_length as nat,
                            fi as nat,
                            (from_field@.len() + FROM_LABEL_LEN) as nat,
                            nested_index(fi + FROM_LABEL_LEN, from_field@.len() as int,
                                padded_sender.true_length as int) as nat,
                            padded_sender.true_length as nat,
                            ti as nat,
                            (to_field@.len() + TO_LABEL_LEN) as nat,
                            nested_index(ti + TO_LABEL_LEN, to_field@.len() as int,
                                padded_recipient.true_length as int) as nat,
                            padded_recipient.true_length as nat,
                            padded_sender.buffer@,
                            padded_recipient.buffer@,
                            padded_subject.buffer@,
                            modulus_be@,
                            signature@,
                        )
                    }
            },
            Err(e) => {
                ||| {
                    &&& e == PipelineError::Indexing
                    &&& (!locate_ok(header.buffer@, from_label(), from_field@)
                        || !locate_ok(header.buffer@, to_label(), to_field@))
                }
                ||| {
                    &&& e == PipelineError::Encoding
                    &&& locate_ok(header.buffer@, from_label(), from_field@)
                    &&& locate_ok(header.buffer@, to_label(), to_field@)
                    &&& (be_value(modulus_be@) >= pow2(2048) || be_value(signature@)
                        >= pow2(2048))
                }
            },
        },
{
    let from_label_bytes: Vec<u8> = vec![102u8, 114u8, 111u8, 109u8, 58u8];
    let to_label_bytes: Vec<u8> = vec![116u8, 111u8, 58u8];
    proof {
        assert(from_label_bytes@ =~= from_label());
        assert(to_label_bytes@ =~= to_label());
    }
    let fo_from = match locate_field(&header.buffer, from_field, &from_label_bytes) {
        Ok(fo) => fo,
        Err(e) => {
            return Err(e);
        },
    };
    let fo_to = match locate_field(&header.buffer, to_field, &to_label_bytes) {
        Ok(fo) => fo,
        Err(e) => {
            return Err(e);
        },
    };
    let ghost fi = choose|i: int|
        {
            &&& match_at(header.buffer@, from_label() + from_field@, i)
            &&& (forall|j: int|
                0 <= j < i ==> !match_at(header.buffer@, from_label() + from_field@, j))
            &&& fo_from.index == i
        };
    let ghost ti = choose|i: int|
        {
            &&& match_at(header.buffer@, to_label() + to_field@, i)
            &&& (forall|j: int|
                0 <= j < i ==> !match_at(header.buffer@, to_label() + to_field@, j))
            &&& fo_to.index == i
        };
    let hn = header.buffer.len();
    proof {
        assert(header.buffer@.len() == hn);
    }
    let mo = derive_address_offset(&fo_from, FROM_LABEL_LEN, padded_sender.true_length as usize);
    let ro = derive_address_offset(&fo_to, TO_LABEL_LEN, padded_recipient.true_length as usize);
    proof {
        assert(mo.index == nested_index(fi + FROM_LABEL_LEN, from_field@.len() as int,
            padded_sender.true_length as int));
        assert(ro.index == nested_index(ti + TO_LABEL_LEN, to_field@.len() as int,
            padded_recipient.true_length as int));
    }
    let mod_limbs = match bn_limb_string(modulus_be) {
        Ok(s) => s,
        Err(e) => {
            return Err(e);
        },
    };
    let sig_limbs = match bn_limb_string(signature) {
        Ok(s) => s,
        Err(e) => {
            return Err(e);
        },
    };
    let redc = barrett_redc_limb_string(modulus_be);
    let q_mod = quote_hex(mod_limbs);
    let q_redc = quote_hex(redc);
    let q_sig = quote_hex(sig_limbs);
    let mut s = String::new();
    s.append("[header]\nlen = ");
    push_dec(&mut s, header.true_length as u64);
    s.append("\nstorage = ");
    push_byte_array(&mut s, &header.buffer);
    s.append("\n\n[from_seq]\nindex = ");
    push_dec(&mut s, fo_from.index as u64);
    s.append("\nlength = ");
    push_dec(&mut s, fo_from.length as u64);
    s.append("\n\n[member_seq]\nindex = ");
    push_dec(&mut s, mo.index as u64);
    s.append("\nlength = ");
    push_dec(&mut s, mo.length as u64);
    s.append("\n\n[member]\nlen = ");
    push_dec(&mut s, padded_sender.true_length as u64);
    s.append("\nstorage = ");
    push_byte_array(&mut s, &padded_sender.buffer);
    s.append("\n\n[to_seq]\nindex = ");
    push_dec(&mut s, fo_to.index as u64);
    s.append("\nlength = ");
    push_dec(&mut s, fo_to.length as u64);
    s.append("\n\n[relayer_seq]\nindex = ");
    push_dec(&mut s, ro.index as u64);
    s.append("\nlength = ");
    push_dec(&mut s, ro.length as u64);
    s.append("\n\n[relayer]\nlen = ");
    push_dec(&mut s, padded_recipient.true_length as u64);
    s.append("\nstorage = ");
    push_byte_array(&mut s, &padded_recipient.buffer);
    s.append("\n\nmsg_hash = ");
    push_byte_array(&mut s, &padded_subject.buffer);
    s.append("\n\n[pubkey]\nmodulus = ");
    s.append(q_mod.as_str());
    s.append("\nredc = ");
    s.append(q_redc.as_str());
    s.append("\n\n[signature]\nlimbs = ");
    s.append(q_sig.as_str());
    proof {
        assert(s@ =~= prover_document(
            header.buffer@,
            header.true_length as nat,
            fi as nat,
            (from_field@.len() + FROM_LABEL_LEN) as nat,
            nested_index(fi + FROM_LABEL_LEN, from_field@.len() as int,
                padded_sender.true_length as int) as nat,
            padded_sender.true_length as nat,
            ti as nat,
            (to_field@.len() + TO_LABEL_LEN) as nat,
            nested_index(ti + TO_LABEL_LEN, to_field@.len() as int,
                padded_recipient.true_length as int) as nat,
            padded_recipient.true_length as nat,
            padded_sender.buffer@,
            padded_recipient.buffer@,
            padded_subject.buffer@,
            modulus_be@,
            signature@,
        ));
    }
    Ok(s)
}

} // verus!
