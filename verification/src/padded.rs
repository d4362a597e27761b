//! Fixed-capacity zero-padded buffers and byte search inside them.

use vstd::prelude::*;
use crate::errors::PipelineError;

verus! {

/// A byte buffer of fixed capacity whose prefix holds the source bytes and
/// whose tail is zero.
#[derive(Debug)]
pub struct PaddedField {
    pub buffer: Vec<u8>,
    pub true_length: u32,
}

impl PaddedField {
    /// The padding invariant: the true length fits the capacity and every
    /// byte past it is zero.
    pub open spec fn wf(self) -> bool {
        &&& self.true_length <= self.buffer@.len()
        &&& forall|i: int|
            self.true_length <= i < self.buffer@.len() ==> self.buffer@[i] == 0
    }

    /// The bytes that were padded: the prefix of the buffer up to the true
    /// length.
    pub open spec fn content(self) -> Seq<u8> {
        self.buffer@.take(self.true_length as int)
    }
}

/// Zero-pads `src` to exactly `capacity` bytes, recording the true length.
/// A source longer than the capacity is an encoding error, never a silent
/// truncation.
pub fn pad_bytes(src: &Vec<u8>, capacity: usize) -> (r: Result<PaddedField, PipelineError>)
    requires
        capacity <= u32::MAX,
    ensures
        match r {
            Ok(p) => {
                &&& src@.len() <= capacity
                &&& p.wf()
                &&& p.buffer@.len() == capacity
                &&& p.true_length == src@.len()
                &&& p.content() == src@
            },
            Err(e) => src@.len() > capacity && e == PipelineError::Encoding,
        },
{
    if src.len() > capacity {
        return Err(PipelineError::Encoding);
    }
    let mut buffer: Vec<u8> = Vec::new();
    let mut i: usize = 0;
    while i < src.len()
        invariant
            i <= src@.len() <= capacity <= u32::MAX,
            buffer@.len() == i,
            buffer@ == src@.take(i as int),
        decreases src@.len() - i,
    {
        buffer.push(src[i]);
        i += 1;
        proof {
            assert(buffer@ =~= src@.take(i as int));
        }
    }
    proof {
        assert(buffer@ =~= src@);
    }
    while buffer.len() < capacity
        invariant
            src@.len() <= buffer@.len() <= capacity,
            buffer@.take(src@.len() as int) == src@,
            forall|j: int| src@.len() <= j < buffer@.len() ==> buffer@[j] == 0,
        decreases capacity - buffer@.len(),
    {
        buffer.push(0u8);
        proof {
            assert(buffer@.take(src@.len() as int) =~= src@);
        }
    }
    Ok(PaddedField { buffer, true_length: src.len() as u32 })
}

/// Holds when `needle` occurs in `haystack` starting at byte `i`.
pub open spec fn match_at(haystack: Seq<u8>, needle: Seq<u8>, i: int) -> bool {
    &&& 0 <= i
    &&& i + needle.len() <= haystack.len()
    &&& haystack.subrange(i, i + needle.len() as int) == needle
}

/// Byte search: the index of the first occurrence of `sub_vec` in
/// `main_vec`, or `None` when it occurs nowhere.
pub fn find_substring_start_index(main_vec: &[u8], sub_vec: &[u8]) -> (r: Option<usize>)
    ensures
        match r {
            Some(i) => {
                &&& match_at(main_vec@, sub_vec@, i as int)
                &&& forall|j: int| 0 <= j < i ==> !match_at(main_vec@, sub_vec@, j)
            },
            None => forall|j: int| !match_at(main_vec@, sub_vec@, j),
        },
{
    if sub_vec.len() > main_vec.len() {
        return None;
    }
    if sub_vec.len() == 0 {
        proof {
            assert(match_at(main_vec@, sub_vec@, 0)) by {
                assert(main_vec@.subrange(0, 0) =~= sub_vec@);
            }
        }
        return Some(0);
    }
    let limit: usize = main_vec.len() - sub_vec.len();
    let mut i: usize = 0;
    while i <= limit
        invariant
            0 < sub_vec@.len() <= main_vec@.len() <= usize::MAX,
            limit == main_vec@.len() - sub_vec@.len(),
            i <= limit + 1,
            forall|j: int| 0 <= j < i ==> !match_at(main_vec@, sub_vec@, j),
        decreases limit + 1 - i,
    {
        let mut k: usize = 0;
        let mut matched: bool = true;
        while k < sub_vec.len()
            invariant
                i + sub_vec@.len() <= main_vec@.len() <= usize::MAX,
                k <= sub_vec@.len(),
                matched <==> forall|m: int|
                    0 <= m < k ==> main_vec@[i + m] == sub_vec@[m],
            decreases sub_vec@.len() - k,
        {
            if main_vec[i + k] != sub_vec[k] {
                matched = false;
            }
            k += 1;
        }
        if matched {
            proof {
                assert(main_vec@.subrange(i as int, i + sub_vec@.len() as int) =~= sub_vec@);
            }
            return Some(i);
        }
        proof {
            if match_at(main_vec@, sub_vec@, i as int) {
                let bad = choose|m: int|
                    0 <= m < sub_vec@.len() && main_vec@[i + m] != sub_vec@[m];
                assert(main_vec@.subrange(i as int, i + sub_vec@.len() as int)[bad]
                    == sub_vec@[bad]);
            }
        }
        i += 1;
    }
    proof {
        assert forall|j: int| !match_at(main_vec@, sub_vec@, j) by {
            if match_at(main_vec@, sub_vec@, j) {
                assert(0 <= j < i);
            }
        }
    }
    None
}

} // verus!
