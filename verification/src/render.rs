//! Text rendering of numbers and byte arrays, shared by the record
//! serializer.

use vstd::prelude::*;

verus! {

/// Relies on String::push: appends the given character to the string.
#[verifier::external_body]
pub(crate) fn push_char(s: &mut String, c: char)
    ensures
        final(s)@ == old(s)@.push(c),
{
    s.push(c);
}

/// The decimal digit character for `d`.
pub open spec fn digit_char(d: int) -> char {
    ((48 + d) as u8) as char
}

/// The decimal rendering of `n`, most significant digit first, with no
/// leading zeros (zero itself renders as one digit).
pub open spec fn dec_chars(n: nat) -> Seq<char>
    decreases n,
{
    if n < 10 {
        seq![digit_char(n as int)]
    } else {
        dec_chars(n / 10).push(digit_char((n % 10) as int))
    }
}

/// Appends the decimal rendering of `n`.
pub fn push_dec(s: &mut String, n: u64)
    ensures
        final(s)@ == old(s)@ + dec_chars(n as nat),
    decreases n,
{
    if n < 10 {
        let c = ((48 + n as u8) as char);
        push_char(s, c);
        proof {
            assert(old(s)@.push(c) =~= old(s)@ + seq![digit_char(n as int)]);
        }
    } else {
        push_dec(s, n / 10);
        let d = (n % 10) as u8;
        let c = ((48 + d) as char);
        push_char(s, c);
        proof {
            assert((old(s)@ + dec_chars((n / 10) as nat)).push(c)
                =~= old(s)@ + dec_chars((n / 10) as nat).push(digit_char((n % 10) as int)));
        }
    }
}

/// The comma-space separated decimal renderings of the bytes of `v`.
pub open spec fn array_inner_chars(v: Seq<u8>) -> Seq<char>
    decreases v.len(),
{
    if v.len() == 0 {
        Seq::<char>::empty()
    } else if v.len() == 1 {
        dec_chars(v[0] as nat)
    } else {
        dec_chars(v[0] as nat) + seq![',', ' '] + array_inner_chars(v.skip(1))
    }
}

/// Appending one more byte extends the inner rendering by a separator and
/// that byte's digits.
proof fn lemma_array_inner_snoc(v: Seq<u8>, x: u8)
    ensures
        array_inner_chars(v.push(x)) == if v.len() == 0 {
            dec_chars(x as nat)
        } else {
            array_inner_chars(v) + seq![',', ' '] + dec_chars(x as nat)
        },
    decreases v.len(),
{
    if v.len() == 0 {
        assert(v.push(x).len() == 1);
        assert(v.push(x)[0] == x);
    } else {
        assert(v.push(x).skip(1) =~= v.skip(1).push(x));
        lemma_array_inner_snoc(v.skip(1), x);
        if v.len() == 1 {
            assert(v.skip(1).len() == 0);
            assert(array_inner_chars(v.push(x))
                =~= array_inner_chars(v) + seq![',', ' '] + dec_chars(x as nat));
        } else {
            assert(array_inner_chars(v.push(x))
                =~= array_inner_chars(v) + seq![',', ' '] + dec_chars(x as nat));
        }
    }
}

/// The debug-style rendering of a byte vector: decimal values in square
/// brackets, separated by comma and space.
pub open spec fn byte_array_chars(v: Seq<u8>) -> Seq<char> {
    seq!['['] + array_inner_chars(v) + seq![']']
}

/// Appends the bracketed decimal rendering of `v`.
pub fn push_byte_array(s: &mut String, v: &Vec<u8>)
    ensures
        final(s)@ == old(s)@ + byte_array_chars(v@),
{
    push_char(s, '[');
    proof {
        assert(v@.take(0) =~= Seq::<u8>::empty());
        assert(old(s)@.push('[') =~= old(s)@ + seq!['['] + array_inner_chars(v@.take(0)));
    }
    let mut i: usize = 0;
    while i < v.len()
        invariant
            i <= v@.len(),
            s@ == old(s)@ + seq!['['] + array_inner_chars(v@.take(i as int)),
        decreases v@.len() - i,
    {
        let ghost pre = s@;
        if i > 0 {
            push_char(s, ',');
            push_char(s, ' ');
            proof {
                assert(pre.push(',').push(' ') =~= pre + seq![',', ' ']);
            }
        }
        push_dec(s, v[i] as u64);
        i += 1;
        proof {
            lemma_array_inner_snoc(v@.take(i - 1), v@[i - 1]);
            assert(v@.take(i as int) =~= v@.take(i - 1).push(v@[i - 1]));
            if i - 1 == 0 {
                assert(s@ =~= old(s)@ + seq!['['] + array_inner_chars(v@.take(i as int)));
            } else {
                assert(s@ =~= old(s)@ + seq!['[']
                    + (array_inner_chars(v@.take(i - 1)) + seq![',', ' ']
                        + dec_chars(v@[i - 1] as nat)));
                assert(s@ =~= old(s)@ + seq!['['] + array_inner_chars(v@.take(i as int)));
            }
        }
    }
    push_char(s, ']');
    proof {
        assert(v@.take(v@.len() as int) =~= v@);
        assert(old(s)@ + seq!['['] + array_inner_chars(v@) + seq![']']
            =~= (old(s)@ + seq!['['] + array_inner_chars(v@)).push(']'));
    }
}

/// The fixed-array declaration text for a header buffer: its length and its
/// bytes, in Rust array syntax.
pub open spec fn header_decl_chars(v: Seq<u8>) -> Seq<char> {
    "let header: [u8; "@ + dec_chars(v.len()) + "] = "@ + byte_array_chars(v) + ";"@
}

/// Renders a header buffer as a Rust fixed-array declaration.
pub fn make_header_string(header: &Vec<u8>) -> (r: String)
    ensures
        r@ == header_decl_chars(header@),
{
    let mut s = String::new();
    s.append("let header: [u8; ");
    push_dec(&mut s, header.len() as u64);
    s.append("] = ");
    push_byte_array(&mut s, header);
    s.append(";");
    proof {
        assert(s@ =~= header_decl_chars(header@));
    }
    s
}

/// Holds of the bracket characters trimmed off a limb-array rendering.
pub open spec fn is_bracket(c: char) -> bool {
    c == '[' || c == ']'
}

/// `s` with leading brackets dropped.
pub open spec fn trim_lead(s: Seq<char>) -> Seq<char>
    decreases s.len(),
{
    if s.len() > 0 && is_bracket(s[0]) {
        trim_lead(s.skip(1))
    } else {
        s
    }
}

/// `s` with trailing brackets dropped.
pub open spec fn trim_trail(s: Seq<char>) -> Seq<char>
    decreases s.len(),
{
    if s.len() > 0 && is_bracket(s.last()) {
        trim_trail(s.drop_last())
    } else {
        s
    }
}

/// `s` with brackets dropped from both ends.
pub open spec fn trimmed_brackets(s: Seq<char>) -> Seq<char> {
    trim_trail(trim_lead(s))
}

/// The pieces of `s` split on comma-space separators, scanning from `i`
/// with the open piece starting at `start`.
pub open spec fn split_acc(s: Seq<char>, start: int, i: int) -> Seq<Seq<char>>
    decreases s.len() - i when 0 <= start <= i <= s.len()
{
    if i + 2 > s.len() {
        seq![s.subrange(start, s.len() as int)]
    } else if s[i] == ',' && s[i + 1] == ' ' {
        seq![s.subrange(start, i)] + split_acc(s, i + 2, i + 2)
    } else {
        split_acc(s, start, i + 1)
    }
}

/// The pieces of `s` split on comma-space separators.
pub open spec fn split_comma_space(s: Seq<char>) -> Seq<Seq<char>> {
    split_acc(s, 0, 0)
}

/// A piece wrapped in double quotes.
pub open spec fn quoted(p: Seq<char>) -> Seq<char> {
    seq!['"'] + p + seq!['"']
}

/// The quoted pieces joined by comma and space.
pub open spec fn join_quoted(ps: Seq<Seq<char>>) -> Seq<char>
    decreases ps.len(),
{
    if ps.len() == 0 {
        Seq::<char>::empty()
    } else if ps.len() == 1 {
        quoted(ps[0])
    } else {
        quoted(ps[0]) + seq![',', ' '] + join_quoted(ps.skip(1))
    }
}

/// The quoted form of a rendered limb array: brackets trimmed, each
/// comma-space separated entry wrapped in double quotes, re-bracketed.
pub open spec fn quote_hex_chars(s: Seq<char>) -> Seq<char> {
    seq!['['] + join_quoted(split_comma_space(trimmed_brackets(s))) + seq![']']
}

/// A split always yields at least one piece.
proof fn lemma_split_acc_nonempty(s: Seq<char>, start: int, i: int)
    requires
        0 <= start <= i <= s.len(),
    ensures
        split_acc(s, start, i).len() >= 1,
    decreases s.len() - i,
{
    if i + 2 > s.len() {
    } else if s[i] == ',' && s[i + 1] == ' ' {
        lemma_split_acc_nonempty(s, i + 2, i + 2);
    } else {
        lemma_split_acc_nonempty(s, start, i + 1);
    }
}

/// Tests the bracket class in executable code.
fn is_bracket_char(c: char) -> (r: bool)
    ensures
        r == is_bracket(c),
{
    c == '[' || c == ']'
}

/// Appends the characters `s[from..to]`.
fn push_chars_range(out: &mut String, s: &str, from: usize, to: usize)
    requires
        from <= to <= s@.len(),
    ensures
        final(out)@ == old(out)@ + s@.subrange(from as int, to as int),
{
    let mut m: usize = from;
    proof {
        assert(old(out)@ + s@.subrange(from as int, from as int) =~= old(out)@);
    }
    while m < to
        invariant
            from <= m <= to <= s@.len(),
            out@ == old(out)@ + s@.subrange(from as int, m as int),
        decreases to - m,
    {
        let c = s.get_char(m);
        push_char(out, c);
        m += 1;
        proof {
            assert(old(out)@ + s@.subrange(from as int, m as int)
                =~= (old(out)@ + s@.subrange(from as int, m - 1)).push(s@[m - 1]));
        }
    }
}

/// Rewrites a rendered limb array into its quoted form: the brackets are
/// trimmed off both ends, each comma-space separated entry is wrapped in
/// double quotes, and the whole is re-bracketed.
pub fn quote_hex(input: String) -> (r: String)
    ensures
        r@ == quote_hex_chars(input@),
{
    let s = input.as_str();
    let n = s.unicode_len();
    // trim brackets off the left
    let mut lo: usize = 0;
    proof {
        assert(s@.skip(0) =~= s@);
    }
    while lo < n && is_bracket_char(s.get_char(lo))
        invariant
            lo <= n,
            n == s@.len(),
            trim_lead(s@) == trim_lead(s@.skip(lo as int)),
        decreases n - lo,
    {
        lo += 1;
        proof {
            assert(s@.skip(lo - 1).skip(1) =~= s@.skip(lo as int));
        }
    }
    proof {
        if lo < n {
            assert(trim_lead(s@.skip(lo as int)) == s@.skip(lo as int));
        } else {
            assert(s@.skip(lo as int) =~= Seq::<char>::empty());
        }
        assert(trim_lead(s@) == s@.skip(lo as int));
    }
    // trim brackets off the right
    let mut hi: usize = n;
    proof {
        assert(s@.skip(lo as int) =~= s@.subrange(lo as int, n as int));
    }
    while hi > lo && is_bracket_char(s.get_char(hi - 1))
        invariant
            lo <= hi <= n,
            n == s@.len(),
            trim_trail(s@.skip(lo as int)) == trim_trail(s@.subrange(lo as int, hi as int)),
        decreases hi,
    {
        hi -= 1;
        proof {
            assert(s@.subrange(lo as int, hi + 1).last() == s@[hi as int]);
            assert(s@.subrange(lo as int, hi + 1).drop_last()
                =~= s@.subrange(lo as int, hi as int));
        }
    }
    let ghost tr = s@.subrange(lo as int, hi as int);
    proof {
        assert(s@.skip(lo as int) =~= s@.subrange(lo as int, n as int));
        if hi > lo {
            assert(tr.last() == s@[hi - 1]);
            assert(trim_trail(tr) == tr);
        } else {
            assert(tr =~= Seq::<char>::empty());
        }
        assert(trimmed_brackets(s@) == tr);
    }
    let mut out = String::new();
    push_char(&mut out, '[');
    let mut p: usize = lo;
    let mut i: usize = lo;
    proof {
        assert(out@ =~= seq!['[']);
    }
    while hi - i > 1
        invariant
            lo <= p <= i <= hi <= n,
            n == s@.len(),
            tr == s@.subrange(lo as int, hi as int),
            quote_hex_chars(input@) == out@ + join_quoted(
                split_acc(tr, p - lo, i - lo)) + seq![']'],
            input@ == s@,
        decreases hi - i,
    {
        let c0 = s.get_char(i);
        let c1 = s.get_char(i + 1);
        if c0 == ',' && c1 == ' ' {
            let ghost pre = out@;
            push_char(&mut out, '"');
            push_chars_range(&mut out, s, p, i);
            push_char(&mut out, '"');
            push_char(&mut out, ',');
            push_char(&mut out, ' ');
            proof {
                assert(tr[i - lo] == s@[i as int]);
                assert(tr[i - lo + 1] == s@[i + 1]);
                assert(s@.subrange(p as int, i as int) =~= tr.subrange(p - lo, i - lo));
                assert(out@ =~= pre + (quoted(tr.subrange(p - lo, i - lo)) + seq![',', ' ']));
                let rest = split_acc(tr, i - lo + 2, i - lo + 2);
                lemma_split_acc_nonempty(tr, i - lo + 2, i - lo + 2);
                assert(split_acc(tr, p - lo, i - lo)
                    == seq![tr.subrange(p - lo, i - lo)] + rest);
                assert((seq![tr.subrange(p - lo, i - lo)] + rest)[0]
                    == tr.subrange(p - lo, i - lo));
                assert((seq![tr.subrange(p - lo, i - lo)] + rest).skip(1) =~= rest);
                if rest.len() == 0 {
                    assert(false);
                }
                assert(join_quoted(split_acc(tr, p - lo, i - lo))
                    == quoted(tr.subrange(p - lo, i - lo)) + seq![',', ' '] + join_quoted(
                    rest));
                assert(pre + (quoted(tr.subrange(p - lo, i - lo)) + seq![',', ' '])
                    + join_quoted(rest) + seq![']']
                    =~= pre + (quoted(tr.subrange(p - lo, i - lo)) + seq![',', ' ']
                        + join_quoted(rest)) + seq![']']);
            }
            i += 2;
            p = i;
        } else {
            proof {
                assert(tr[i - lo] == s@[i as int]);
                assert(tr[i - lo + 1] == s@[i + 1]);
                assert(split_acc(tr, p - lo, i - lo) == split_acc(tr, p - lo, i - lo + 1));
            }
            i += 1;
        }
    }
    let ghost pre = out@;
    push_char(&mut out, '"');
    push_chars_range(&mut out, s, p, hi);
    push_char(&mut out, '"');
    push_char(&mut out, ']');
    proof {
        assert(s@.subrange(p as int, hi as int) =~= tr.subrange(p - lo, tr.len() as int));
        assert((i - lo) + 2 > tr.len());
        assert(split_acc(tr, p - lo, i - lo) == seq![tr.subrange(p - lo, tr.len() as int)]);
        assert(join_quoted(split_acc(tr, p - lo, i - lo))
            == quoted(tr.subrange(p - lo, tr.len() as int)));
        assert(out@ =~= pre + (quoted(tr.subrange(p - lo, tr.len() as int)) + seq![']']));
        assert(pre + join_quoted(split_acc(tr, p - lo, i - lo)) + seq![']']
            =~= pre + (quoted(tr.subrange(p - lo, tr.len() as int)) + seq![']']));
    }
    out
}

} // verus!
