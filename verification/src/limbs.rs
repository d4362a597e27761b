//! Fixed-width limb decomposition of big unsigned integers, given as
//! big-endian byte strings: 120-bit limbs, least significant limb first,
//! sized for the 2048-bit circuit width.

use vstd::prelude::*;
use vstd::arithmetic::power2::{lemma_pow2_adds, lemma_pow2_strictly_increases, pow2};
use crate::errors::PipelineError;
use crate::render::push_char;

verus! {

/// The circuit's integer bit width.
pub const BIT_WIDTH: usize = 2048;

/// Bytes per 120-bit limb.
pub const LIMB_BYTES: usize = 15;

/// Limbs needed to cover the bit width: the least whole number of 120-bit
/// limbs that hold 2048 bits.
pub const NUM_LIMBS: usize = 18;

/// Bytes of the zero-extended working buffer: all limbs together.
pub const PADDED_LEN: usize = 270;

/// The unsigned value of a big-endian byte string.
pub open spec fn be_value(s: Seq<u8>) -> nat
    decreases s.len(),
{
    if s.len() == 0 {
        0
    } else {
        (be_value(s.drop_last()) * 256 + s.last()) as nat
    }
}

/// Concatenation splits the value: the prefix is shifted past the suffix.
pub proof fn lemma_be_value_append(a: Seq<u8>, b: Seq<u8>)
    ensures
        be_value(a + b) == be_value(a) * pow2(8 * b.len()) + be_value(b),
    decreases b.len(),
{
    if b.len() == 0 {
        assert(a + b =~= a);
        vstd::arithmetic::power2::lemma2_to64();
        assert(be_value(b) == 0);
        assert(8 * b.len() == 0);
        assert(pow2(0) == 1);
        assert(be_value(a) * pow2(8 * b.len()) + be_value(b) == be_value(a))
            by (nonlinear_arith)
            requires
                pow2(8 * b.len()) == 1,
                be_value(b) == 0,
        ;
    } else {
        let bd = b.drop_last();
        lemma_be_value_append(a, bd);
        assert((a + b).drop_last() =~= a + bd);
        assert((a + b).last() == b.last());
        lemma_pow2_adds(8 * bd.len(), 8);
        vstd::arithmetic::power2::lemma2_to64();
        assert(8 * b.len() == 8 * bd.len() + 8);
        assert(pow2(8 * b.len()) == pow2(8 * bd.len()) * 256);
        assert(be_value(a + b) == be_value(a + bd) * 256 + b.last());
        assert(be_value(a + b) == be_value(a) * pow2(8 * b.len()) + be_value(b))
            by (nonlinear_arith)
            requires
                be_value(a + b) == be_value(a + bd) * 256 + b.last(),
                be_value(a + bd) == be_value(a) * pow2(8 * bd.len()) + be_value(bd),
                pow2(8 * b.len()) == pow2(8 * bd.len()) * 256,
                be_value(b) == be_value(bd) * 256 + b.last(),
        ;
    }
}

/// A string of zero bytes has value zero.
pub proof fn lemma_be_value_zeros(s: Seq<u8>)
    requires
        forall|i: int| 0 <= i < s.len() ==> s[i] == 0,
    ensures
        be_value(s) == 0,
    decreases s.len(),
{
    if s.len() > 0 {
        lemma_be_value_zeros(s.drop_last());
    }
}

/// The value is below the power of two given by the string's bit size.
pub proof fn lemma_be_value_upper(s: Seq<u8>)
    ensures
        be_value(s) < pow2(8 * s.len()),
    decreases s.len(),
{
    if s.len() == 0 {
        vstd::arithmetic::power2::lemma2_to64();
    } else {
        lemma_be_value_upper(s.drop_last());
        lemma_pow2_adds(8 * (s.len() - 1) as nat, 8);
        vstd::arithmetic::power2::lemma2_to64();
        assert(be_value(s.drop_last()) * 256 + s.last()
            < pow2(8 * (s.len() - 1) as nat) * 256) by (nonlinear_arith)
            requires
                be_value(s.drop_last()) < pow2(8 * (s.len() - 1) as nat),
                s.last() < 256,
        ;
    }
}

/// A string with a nonzero leading byte reaches the bit size of its tail.
pub proof fn lemma_be_value_lower(s: Seq<u8>)
    requires
        s.len() > 0,
        s[0] != 0,
    ensures
        be_value(s) >= pow2(8 * (s.len() - 1) as nat),
    decreases s.len(),
{
    if s.len() == 1 {
        vstd::arithmetic::power2::lemma2_to64();
        assert(be_value(s) == be_value(s.drop_last()) * 256 + s.last());
        assert(be_value(s.drop_last()) == 0);
        assert(s.last() == s[0]);
    } else {
        assert(s.drop_last()[0] == s[0]);
        lemma_be_value_lower(s.drop_last());
        lemma_pow2_adds(8 * (s.len() - 2) as nat, 8);
        vstd::arithmetic::power2::lemma2_to64();
        assert(be_value(s.drop_last()) * 256 >= pow2(8 * (s.len() - 2) as nat) * 256)
            by (nonlinear_arith)
            requires
                be_value(s.drop_last()) >= pow2(8 * (s.len() - 2) as nat),
        ;
    }
}

/// `s` with its leading zero bytes removed.
pub open spec fn stripped(s: Seq<u8>) -> Seq<u8>
    decreases s.len(),
{
    if s.len() > 0 && s[0] == 0 {
        stripped(s.skip(1))
    } else {
        s
    }
}

/// Removing leading zeros keeps the value.
pub proof fn lemma_stripped_value(s: Seq<u8>)
    ensures
        be_value(stripped(s)) == be_value(s),
        stripped(s).len() == 0 || stripped(s)[0] != 0,
        stripped(s).len() <= s.len(),
    decreases s.len(),
{
    if s.len() > 0 && s[0] == 0 {
        lemma_stripped_value(s.skip(1));
        assert(seq![s[0]] + s.skip(1) =~= s);
        lemma_be_value_append(seq![s[0]], s.skip(1));
        assert(be_value(seq![s[0]]) == 0) by {
            lemma_be_value_zeros(seq![s[0]]);
        }
    }
}

/// When the first `z` bytes are zero and byte `z` is not, stripping removes
/// exactly those `z` bytes.
pub proof fn lemma_stripped_skip(s: Seq<u8>, z: int)
    requires
        0 <= z <= s.len(),
        forall|j: int| 0 <= j < z ==> s[j] == 0,
        z == s.len() || s[z] != 0,
    ensures
        stripped(s) == s.skip(z),
    decreases z,
{
    if z == 0 {
        assert(s.skip(0) =~= s);
    } else {
        assert(s[0] == 0);
        lemma_stripped_skip(s.skip(1), z - 1);
        assert(s.skip(1).skip(z - 1) =~= s.skip(z));
    }
}

/// `s` zero-extended on the left to `n` bytes.
pub open spec fn zext(s: Seq<u8>, n: int) -> Seq<u8> {
    Seq::new((n - s.len()) as nat, |i: int| 0u8) + s
}

/// Zero-extension keeps the value.
pub proof fn lemma_zext_value(s: Seq<u8>, n: int)
    requires
        s.len() <= n,
    ensures
        zext(s, n).len() == n,
        be_value(zext(s, n)) == be_value(s),
{
    let zeros = Seq::new((n - s.len()) as nat, |i: int| 0u8);
    lemma_be_value_zeros(zeros);
    lemma_be_value_append(zeros, s);
}

/// The limbs of a zero-extended working buffer, least significant first:
/// each limb is the next 15-byte chunk from the right.
pub open spec fn chunk_limbs(p: Seq<u8>) -> Seq<Seq<u8>>
    decreases p.len(),
{
    if p.len() < 15 {
        Seq::<Seq<u8>>::empty()
    } else {
        seq![p.subrange(p.len() - 15, p.len() as int)] + chunk_limbs(p.take(p.len() - 15))
    }
}

/// The value of a limb sequence, least significant limb first, at 120 bits
/// per limb.
pub open spec fn limbs_value(limbs: Seq<Seq<u8>>) -> nat
    decreases limbs.len(),
{
    if limbs.len() == 0 {
        0
    } else {
        be_value(limbs[0]) + limbs_value(limbs.skip(1)) * pow2(120)
    }
}

/// Chunking a buffer of whole limbs keeps the value: concatenating the
/// limbs under the 120-bit radix reconstructs the buffer's integer.
pub proof fn lemma_chunk_limbs_value(p: Seq<u8>)
    requires
        p.len() % 15 == 0,
    ensures
        limbs_value(chunk_limbs(p)) == be_value(p),
    decreases p.len(),
{
    if p.len() == 0 {
    } else {
        let front = p.take(p.len() - 15);
        let last = p.subrange(p.len() - 15, p.len() as int);
        assert(front.len() % 15 == 0);
        lemma_chunk_limbs_value(front);
        assert(front + last =~= p);
        lemma_be_value_append(front, last);
        assert(8 * last.len() == 120);
        let cl = chunk_limbs(p);
        assert(cl[0] == last);
        assert(cl.skip(1) =~= chunk_limbs(front));
        assert(limbs_value(cl) == be_value(last) + limbs_value(chunk_limbs(front)) * pow2(120));
    }
}

/// Each chunk is the matching 15-byte slice of the buffer.
pub proof fn lemma_chunk_limbs_index(p: Seq<u8>, i: int)
    requires
        p.len() % 15 == 0,
        0 <= i < p.len() / 15,
    ensures
        chunk_limbs(p).len() == p.len() / 15,
        chunk_limbs(p)[i] == p.subrange(p.len() - 15 * (i + 1), p.len() - 15 * i),
    decreases p.len(),
{
    let front = p.take(p.len() - 15);
    assert(front.len() % 15 == 0);
    if i == 0 {
        lemma_chunk_limbs_len(front);
    } else {
        lemma_chunk_limbs_index(front, i - 1);
        assert(front.subrange(front.len() - 15 * i, front.len() - 15 * (i - 1))
            =~= p.subrange(p.len() - 15 * (i + 1), p.len() - 15 * i));
    }
}

/// The number of chunks of a whole-limb buffer.
pub proof fn lemma_chunk_limbs_len(p: Seq<u8>)
    requires
        p.len() % 15 == 0,
    ensures
        chunk_limbs(p).len() == p.len() / 15,
    decreases p.len(),
{
    if p.len() >= 15 {
        let front = p.take(p.len() - 15);
        assert(front.len() % 15 == 0);
        lemma_chunk_limbs_len(front);
    }
}

/// The limb decomposition of a big-endian value: its significant bytes,
/// zero-extended to the working width, cut into 15-byte limbs from the
/// least significant end.
pub open spec fn limbs_of(v: Seq<u8>) -> Seq<Seq<u8>> {
    chunk_limbs(zext(stripped(v), 270))
}

/// The limb round trip: for every value below the bit width, recombining
/// the decomposed limbs under the 120-bit radix and limb order yields
/// exactly the original value.
pub proof fn lemma_limb_round_trip(v: Seq<u8>)
    requires
        be_value(v) < pow2(2048),
    ensures
        limbs_value(limbs_of(v)) == be_value(v),
{
    lemma_stripped_value(v);
    let s = stripped(v);
    if s.len() > 270 {
        assert(s[0] != 0);
        lemma_be_value_lower(s);
        lemma_pow2_strictly_increases(2048, 8 * (s.len() - 1) as nat);
        assert(false);
    }
    lemma_zext_value(s, 270);
    lemma_chunk_limbs_value(zext(s, 270));
}

/// The number of significant bytes fits the bit width exactly when the
/// value does.
proof fn lemma_fits_bit_width(v: Seq<u8>)
    ensures
        stripped(v).len() <= 256 <==> be_value(v) < pow2(2048),
{
    lemma_stripped_value(v);
    let s = stripped(v);
    if s.len() <= 256 {
        lemma_be_value_upper(s);
        if 8 * s.len() < 2048 {
            lemma_pow2_strictly_increases(8 * s.len(), 2048);
        }
    }
    if s.len() > 256 {
        assert(s[0] != 0);
        lemma_be_value_lower(s);
        if 2048 < 8 * (s.len() - 1) as nat {
            lemma_pow2_strictly_increases(2048, 8 * (s.len() - 1) as nat);
        }
    }
}

/// Decomposes a big-endian unsigned value into the eighteen 120-bit limbs
/// of the 2048-bit width, least significant limb first. A value wider than
/// the bit width is an encoding error, never a silent truncation.
pub fn decompose_limbs(value_be: &Vec<u8>) -> (r: Result<Vec<Vec<u8>>, PipelineError>)
    ensures
        match r {
            Ok(limbs) => {
                &&& be_value(value_be@) < pow2(2048)
                &&& limbs.deep_view() == limbs_of(value_be@)
                &&& limbs@.len() == NUM_LIMBS
                &&& forall|i: int| 0 <= i < limbs@.len() ==> (#[trigger] limbs@[i])@.len()
                    == LIMB_BYTES
                &&& limbs_value(limbs.deep_view()) == be_value(value_be@)
            },
            Err(e) => {
                &&& be_value(value_be@) >= pow2(2048)
                &&& e == PipelineError::Encoding
            },
        },
{
    // skip the leading zero bytes
    let mut z: usize = 0;
    while z < value_be.len() && value_be[z] == 0
        invariant
            z <= value_be@.len(),
            forall|j: int| 0 <= j < z ==> value_be@[j] == 0,
        decreases value_be@.len() - z,
    {
        z += 1;
    }
    proof {
        lemma_stripped_skip(value_be@, z as int);
        lemma_fits_bit_width(value_be@);
    }
    let sig_len = value_be.len() - z;
    if sig_len > 256 {
        return Err(PipelineError::Encoding);
    }
    // zero-extend on the left to the working width
    let mut padded: Vec<u8> = Vec::new();
    let mut i: usize = 0;
    while i < PADDED_LEN - sig_len
        invariant
            i <= PADDED_LEN - sig_len,
            sig_len <= 256,
            padded@.len() == i,
            forall|j: int| 0 <= j < i ==> padded@[j] == 0,
        decreases PADDED_LEN - sig_len - i,
    {
        padded.push(0u8);
        i += 1;
    }
    let mut k: usize = z;
    while k < value_be.len()
        invariant
            z <= k <= value_be@.len(),
            sig_len == value_be@.len() - z,
            sig_len <= 256,
            padded@.len() == PADDED_LEN - sig_len + k - z,
            forall|j: int| 0 <= j < PADDED_LEN - sig_len ==> padded@[j] == 0,
            forall|j: int|
                PADDED_LEN - sig_len <= j < padded@.len()
                    ==> padded@[j] == value_be@[j - (PADDED_LEN as int - sig_len) + z],
        decreases value_be@.len() - k,
    {
        let ghost pre = padded@;
        padded.push(value_be[k]);
        k += 1;
        proof {
            assert(padded@ == pre.push(value_be@[k - 1]));
            assert forall|j: int| PADDED_LEN - sig_len <= j < padded@.len() implies
                padded@[j] == value_be@[j - (PADDED_LEN as int - sig_len) + z] by {
                if j < pre.len() {
                    assert(padded@[j] == pre[j]);
                } else {
                    assert(j == pre.len());
                    assert(j - (PADDED_LEN as int - sig_len) + z == k - 1);
                }
            }
        }
    }
    proof {
        assert(padded@ =~= zext(stripped(value_be@), 270));
    }
    // cut the buffer into limbs from the least significant end
    let mut limbs: Vec<Vec<u8>> = Vec::new();
    let mut li: usize = 0;
    while li < NUM_LIMBS
        invariant
            li <= NUM_LIMBS,
            padded@.len() == PADDED_LEN,
            limbs@.len() == li,
            forall|j: int| 0 <= j < li ==> (#[trigger] limbs@[j])@
                == padded@.subrange(270 - 15 * (j + 1), 270 - 15 * j),
        decreases NUM_LIMBS - li,
    {
        let start = PADDED_LEN - LIMB_BYTES * (li + 1);
        let mut limb: Vec<u8> = Vec::new();
        let mut b: usize = 0;
        while b < LIMB_BYTES
            invariant
                b <= LIMB_BYTES,
                start == PADDED_LEN - LIMB_BYTES * (li + 1),
                li < NUM_LIMBS,
                padded@.len() == PADDED_LEN,
                limb@ == padded@.subrange(start as int, start + b as int),
            decreases LIMB_BYTES - b,
        {
            limb.push(padded[start + b]);
            b += 1;
            proof {
                assert(padded@.subrange(start as int, start + b as int)
                    =~= padded@.subrange(start as int, start + b - 1).push(
                    padded@[start + b - 1]));
            }
        }
        limbs.push(limb);
        li += 1;
    }
    proof {
        assert(limbs.deep_view().len() == NUM_LIMBS);
        assert forall|j: int| 0 <= j < NUM_LIMBS implies limbs.deep_view()[j]
            == limbs_of(value_be@)[j] by {
            lemma_chunk_limbs_index(padded@, j);
            assert(limbs.deep_view()[j] == limbs@[j]@);
        }
        lemma_chunk_limbs_len(padded@);
        assert(limbs.deep_view() =~= limbs_of(value_be@));
        lemma_limb_round_trip(value_be@);
        assert forall|i2: int| 0 <= i2 < limbs@.len() implies (#[trigger] limbs@[i2])@.len()
            == LIMB_BYTES by {
            assert(limbs@[i2]@ == padded@.subrange(270 - 15 * (i2 + 1), 270 - 15 * i2));
        }
    }
    Ok(limbs)
}

/// The lowercase hex digit character for `d`.
pub open spec fn hex_digit_char(d: int) -> char {
    if d < 10 {
        ((48 + d) as u8) as char
    } else {
        ((87 + d) as u8) as char
    }
}

/// The two hex digits of one byte.
pub open spec fn hex_byte_chars(b: u8) -> Seq<char> {
    seq![hex_digit_char(b as int / 16), hex_digit_char(b as int % 16)]
}

/// The hex rendering of a byte string, two digits per byte.
pub open spec fn hex_chars(s: Seq<u8>) -> Seq<char>
    decreases s.len(),
{
    if s.len() == 0 {
        Seq::<char>::empty()
    } else {
        hex_byte_chars(s[0]) + hex_chars(s.skip(1))
    }
}

/// The minimal big-endian byte string of a value: leading zeros dropped,
/// except that zero keeps one zero byte.
pub open spec fn min_be_bytes(s: Seq<u8>) -> Seq<u8> {
    if stripped(s).len() == 0 {
        seq![0u8]
    } else {
        stripped(s)
    }
}

/// One limb as a hex literal: `0x` and the digits of its minimal bytes.
pub open spec fn limb_hex_chars(s: Seq<u8>) -> Seq<char> {
    seq!['0', 'x'] + hex_chars(min_be_bytes(s))
}

/// The limbs joined by comma and space, least significant first.
pub open spec fn limb_join_chars(ls: Seq<Seq<u8>>) -> Seq<char>
    decreases ls.len(),
{
    if ls.len() == 0 {
        Seq::<char>::empty()
    } else if ls.len() == 1 {
        limb_hex_chars(ls[0])
    } else {
        limb_hex_chars(ls[0]) + seq![',', ' '] + limb_join_chars(ls.skip(1))
    }
}

/// The bracketed hex-literal array of a limb sequence.
pub open spec fn limb_array_chars(ls: Seq<Seq<u8>>) -> Seq<char> {
    seq!['['] + limb_join_chars(ls) + seq![']']
}

/// The rendered limb array of a big-endian value at the 2048-bit width.
pub open spec fn bn_limbs_chars(v: Seq<u8>) -> Seq<char> {
    limb_array_chars(limbs_of(v))
}

proof fn lemma_limb_join_snoc(ls: Seq<Seq<u8>>, x: Seq<u8>)
    ensures
        limb_join_chars(ls.push(x)) == if ls.len() == 0 {
            limb_hex_chars(x)
        } else {
            limb_join_chars(ls) + seq![',', ' '] + limb_hex_chars(x)
        },
    decreases ls.len(),
{
    if ls.len() == 0 {
        assert(ls.push(x).len() == 1);
        assert(ls.push(x)[0] == x);
    } else {
        assert(ls.push(x).skip(1) =~= ls.skip(1).push(x));
        lemma_limb_join_snoc(ls.skip(1), x);
        if ls.len() == 1 {
            assert(limb_join_chars(ls.push(x))
                =~= limb_join_chars(ls) + seq![',', ' '] + limb_hex_chars(x));
        } else {
            assert(limb_join_chars(ls.push(x))
                =~= limb_join_chars(ls) + seq![',', ' '] + limb_hex_chars(x));
        }
    }
}

/// The lowercase hex digit for `d`.
fn hex_digit(d: u8) -> (c: char)
    requires
        d < 16,
    ensures
        c == hex_digit_char(d as int),
{
    if d < 10 {
        (48 + d) as char
    } else {
        (87 + d) as char
    }
}

/// Appends the hex digits of `m[from..]`.
fn push_hex_bytes(s: &mut String, m: &Vec<u8>, from: usize)
    requires
        from <= m@.len(),
    ensures
        final(s)@ == old(s)@ + hex_chars(m@.skip(from as int)),
{
    let mut i: usize = from;
    proof {
        assert(old(s)@ + hex_chars(m@.skip(from as int))
            =~= old(s)@ + hex_chars(m@.skip(from as int)));
    }
    while i < m.len()
        invariant
            from <= i <= m@.len(),
            old(s)@ + hex_chars(m@.skip(from as int)) == s@ + hex_chars(m@.skip(i as int)),
        decreases m@.len() - i,
    {
        let ghost rest = m@.skip(i as int);
        let b = m[i];
        let hi = hex_digit(b / 16);
        let lo = hex_digit(b % 16);
        let ghost pre = s@;
        push_char(s, hi);
        push_char(s, lo);
        i += 1;
        proof {
            assert(rest[0] == b);
            assert(rest.skip(1) =~= m@.skip(i as int));
            assert(hex_chars(rest) == hex_byte_chars(b) + hex_chars(m@.skip(i as int)));
            assert(s@ =~= pre + hex_byte_chars(b));
            assert(pre + (hex_byte_chars(b) + hex_chars(m@.skip(i as int)))
                =~= (pre + hex_byte_chars(b)) + hex_chars(m@.skip(i as int)));
        }
    }
    proof {
        assert(m@.skip(m@.len() as int) =~= Seq::<u8>::empty());
        assert(s@ + hex_chars(m@.skip(m@.len() as int)) =~= s@);
    }
}

/// Appends one limb as a hex literal: `0x` and the digits of its minimal
/// big-endian bytes.
fn push_limb_hex(s: &mut String, limb: &Vec<u8>)
    ensures
        final(s)@ == old(s)@ + limb_hex_chars(limb@),
{
    push_char(s, '0');
    push_char(s, 'x');
    let mut z: usize = 0;
    while z < limb.len() && limb[z] == 0
        invariant
            z <= limb@.len(),
            forall|j: int| 0 <= j < z ==> limb@[j] == 0,
        decreases limb@.len() - z,
    {
        z += 1;
    }
    proof {
        lemma_stripped_skip(limb@, z as int);
    }
    if z == limb.len() {
        let ghost pre = s@;
        push_char(s, '0');
        push_char(s, '0');
        proof {
            assert(stripped(limb@).len() == 0);
            assert(min_be_bytes(limb@) == seq![0u8]);
            assert(seq![0u8].skip(1) =~= Seq::<u8>::empty());
            assert(hex_chars(seq![0u8].skip(1)) == Seq::<char>::empty());
            assert(hex_chars(seq![0u8]) =~= hex_byte_chars(0u8) + Seq::<char>::empty());
            assert(hex_chars(seq![0u8]) =~= hex_byte_chars(0u8));
            assert(hex_byte_chars(0u8) =~= seq!['0', '0']) by {
                assert(hex_digit_char(0) == '0');
            }
            assert(s@ =~= old(s)@ + limb_hex_chars(limb@));
        }
    } else {
        push_hex_bytes(s, limb, z);
        proof {
            assert(stripped(limb@) == limb@.skip(z as int));
            assert(stripped(limb@).len() > 0);
            assert(min_be_bytes(limb@) == limb@.skip(z as int));
            assert(s@ =~= old(s)@ + limb_hex_chars(limb@));
        }
    }
}

/// Renders a big-endian unsigned value as the bracketed hex-literal array
/// of its eighteen 120-bit limbs, least significant limb first. A value
/// wider than the bit width is an encoding error.
pub fn bn_limb_string(value_be: &Vec<u8>) -> (r: Result<String, PipelineError>)
    ensures
        match r {
            Ok(s) => {
                &&& be_value(value_be@) < pow2(2048)
                &&& s@ == bn_limbs_chars(value_be@)
            },
            Err(e) => {
                &&& be_value(value_be@) >= pow2(2048)
                &&& e == PipelineError::Encoding
            },
        },
{
    let limbs = match decompose_limbs(value_be) {
        Ok(l) => l,
        Err(e) => {
            return Err(e);
        },
    };
    let ghost lv = limbs.deep_view();
    let mut s = String::new();
    push_char(&mut s, '[');
    proof {
        assert(lv.take(0) =~= Seq::<Seq<u8>>::empty());
        assert(s@ =~= seq!['['] + limb_join_chars(lv.take(0)));
    }
    let mut i: usize = 0;
    while i < limbs.len()
        invariant
            i <= limbs@.len(),
            lv == limbs.deep_view(),
            lv.len() == limbs@.len(),
            s@ == seq!['['] + limb_join_chars(lv.take(i as int)),
        decreases limbs@.len() - i,
    {
        let ghost pre = s@;
        if i > 0 {
            push_char(&mut s, ',');
            push_char(&mut s, ' ');
            proof {
                assert(s@ =~= pre + seq![',', ' ']);
            }
        }
        push_limb_hex(&mut s, &limbs[i]);
        i += 1;
        proof {
            assert(limbs@[i - 1]@ == lv[i - 1]);
            lemma_limb_join_snoc(lv.take(i - 1), lv[i - 1]);
            assert(lv.take(i as int) =~= lv.take(i - 1).push(lv[i - 1]));
            if i - 1 == 0 {
                assert(s@ =~= seq!['['] + limb_join_chars(lv.take(i as int)));
            } else {
                assert(s@ =~= seq!['['] + (limb_join_chars(lv.take(i - 1)) + seq![',', ' ']
                    + limb_hex_chars(lv[i - 1])));
                assert(s@ =~= seq!['['] + limb_join_chars(lv.take(i as int)));
            }
        }
    }
    push_char(&mut s, ']');
    proof {
        assert(lv.take(lv.len() as int) =~= lv);
        assert(s@ =~= limb_array_chars(lv));
    }
    Ok(s)
}

/// What noir_bignum_paramgen's `redc_limbs` renders for the Barrett
/// reduction parameter of the given modulus bytes at the 2048-bit width: a
/// deterministic function of the modulus alone.
pub uninterp spec fn redc_limbs_of(m: Seq<u8>) -> Seq<char>;

/// Relies on noir_bignum_paramgen::redc_limbs: it computes the Barrett
/// reduction parameter of the modulus and renders its 120-bit limbs as a
/// bracketed array of hex literals, a deterministic function of the
/// modulus bytes alone. The modulus must not be zero, since the parameter
/// is a quotient by the modulus.
#[verifier::external_body]
pub(crate) fn barrett_redc_limb_string(modulus_be: &Vec<u8>) -> (r: String)
    requires
        exists|i: int| 0 <= i < modulus_be@.len() && modulus_be@[i] != 0,
    ensures
        r@ == redc_limbs_of(modulus_be@),
{
    let n = num_bigint_dig::BigUint::from_bytes_be(modulus_be.as_slice());
    noir_bignum_paramgen::redc_limbs(n, 2048)
}

} // verus!
