//! Byte-level building blocks: ASCII literals, decimal rendering of
//! integers, zero padding, hex digits, and a byte-by-byte expansion
//! combinator used by the escaping routines.
use vstd::prelude::*;

verus! {

/// The bytes of an ASCII string, one byte per character.
pub open spec fn ascii_bytes(s: Seq<char>) -> Seq<u8> {
    s.map_values(|c: char| c as u8)
}

/// Shorthand: the bytes of an ASCII string literal.
pub open spec fn sb(s: &str) -> Seq<u8> {
    ascii_bytes(s@)
}

/// Append the bytes of the ASCII string `s` to `out`.
pub fn push_ascii(out: &mut Vec<u8>, s: &str)
    requires
        s.is_ascii(),
    ensures
        final(out)@ == old(out)@ + sb(s),
{
    broadcast use vstd::string::is_ascii_spec_bytes;

    let bytes: &[u8] = s.as_bytes();
    let mut i: usize = 0;
    while i < bytes.len()
        invariant
            i <= bytes.len(),
            bytes@ == sb(s),
            out@ == old(out)@ + sb(s).take(i as int),
        decreases bytes.len() - i,
    {
        proof {
            assert(sb(s).take(i as int + 1) =~= sb(s).take(i as int).push(sb(s)[i as int]));
        }
        out.push(bytes[i]);
        i += 1;
    }
    proof {
        assert(sb(s).take(sb(s).len() as int) =~= sb(s));
    }
}

/// Append a copy of the bytes of `src` to `out`.
pub fn push_bytes(out: &mut Vec<u8>, src: &Vec<u8>)
    ensures
        final(out)@ == old(out)@ + src@,
{
    let mut i: usize = 0;
    while i < src.len()
        invariant
            i <= src.len(),
            out@ == old(out)@ + src@.take(i as int),
        decreases src.len() - i,
    {
        proof {
            assert(src@.take(i as int + 1) =~= src@.take(i as int).push(src@[i as int]));
        }
        out.push(src[i]);
        i += 1;
    }
    proof {
        assert(src@.take(src.len() as int) =~= src@);
    }
}

/// The ASCII digit for `d` (`d` must be below ten).
pub open spec fn dec_digit(d: nat) -> u8 {
    (0x30 + d) as u8
}

/// The decimal digits of the natural number `n`, most significant first.
pub open spec fn dec_u(n: nat) -> Seq<u8>
    decreases n,
{
    if n < 10 {
        seq![dec_digit(n)]
    } else {
        dec_u(n / 10).push(dec_digit(n % 10))
    }
}

/// The decimal rendering of the integer `n`, with a leading minus sign
/// when `n` is negative.
pub open spec fn dec_i(n: int) -> Seq<u8> {
    if n < 0 {
        seq!['-' as u8] + dec_u((-n) as nat)
    } else {
        dec_u(n as nat)
    }
}

/// Every byte of `dec_u(n)` is an ASCII digit, and there is at least one.
pub proof fn lemma_dec_u_digits(n: nat)
    ensures
        dec_u(n).len() >= 1,
        forall|i: int| 0 <= i < dec_u(n).len() ==> 0x30 <= #[trigger] dec_u(n)[i] <= 0x39,
    decreases n,
{
    if n >= 10 {
        lemma_dec_u_digits(n / 10);
    }
}

/// Append the decimal digits of `n` to `out`.
pub fn push_dec_u(out: &mut Vec<u8>, n: u64)
    ensures
        final(out)@ == old(out)@ + dec_u(n as nat),
    decreases n,
{
    if n >= 10 {
        push_dec_u(out, n / 10);
    }
    out.push((n % 10) as u8 + 0x30);
    proof {
        if n < 10 {
            assert(old(out)@ + dec_u(n as nat) =~= old(out)@.push(dec_digit(n as nat)));
        } else {
            assert(old(out)@ + dec_u(n as nat) =~= (old(out)@ + dec_u((n / 10) as nat)).push(
                dec_digit((n % 10) as nat),
            ));
        }
    }
}

/// Append the decimal rendering of the signed integer `n` to `out`.
pub fn push_dec_i(out: &mut Vec<u8>, n: i64)
    ensures
        final(out)@ == old(out)@ + dec_i(n as int),
{
    if n >= 0 {
        push_dec_u(out, n as u64);
    } else {
        out.push('-' as u8);
        if n == i64::MIN {
            push_dec_u(out, 9223372036854775808u64);
            proof {
                assert(old(out)@ + dec_i(n as int) =~= old(out)@.push('-' as u8) + dec_u(
                    9223372036854775808,
                ));
            }
        } else {
            push_dec_u(out, (-n) as u64);
            proof {
                assert(old(out)@ + dec_i(n as int) =~= old(out)@.push('-' as u8) + dec_u(
                    (-n) as nat,
                ));
            }
        }
    }
}

/// `k` ASCII zero bytes.
pub open spec fn zeroes(k: nat) -> Seq<u8> {
    Seq::new(k, |i: int| '0' as u8)
}

/// `s` left-padded with ASCII zeroes to width `w`.
pub open spec fn zero_pad(s: Seq<u8>, w: nat) -> Seq<u8> {
    if s.len() >= w {
        s
    } else {
        zeroes((w - s.len()) as nat) + s
    }
}

/// Append the decimal digits of `n`, left-padded with zeroes to `width`.
pub fn push_dec_padded(out: &mut Vec<u8>, n: u64, width: usize)
    ensures
        final(out)@ == old(out)@ + zero_pad(dec_u(n as nat), width as nat),
{
    let mut digits: Vec<u8> = Vec::new();
    push_dec_u(&mut digits, n);
    let mut k: usize = digits.len();
    while k < width
        invariant
            digits@ == dec_u(n as nat),
            digits@.len() <= k <= width || (k == digits@.len() && k >= width),
            out@ == old(out)@ + zeroes((k - digits@.len()) as nat),
        decreases width - k,
    {
        proof {
            assert(zeroes((k + 1 - digits@.len()) as nat) =~= zeroes(
                (k - digits@.len()) as nat,
            ).push('0' as u8));
        }
        out.push('0' as u8);
        k += 1;
    }
    push_bytes(out, &digits);
    proof {
        if digits@.len() >= width {
            assert(zeroes(0) =~= Seq::<u8>::empty());
            assert(old(out)@ + zeroes(0) =~= old(out)@);
        }
        assert(out@ == old(out)@ + zero_pad(dec_u(n as nat), width as nat));
    }
}

/// The uppercase hex digit for `d` (`d` must be below sixteen).
pub open spec fn hex_upper(d: nat) -> u8 {
    if d < 10 {
        (0x30 + d) as u8
    } else {
        (0x41 + d - 10) as u8
    }
}

/// The lowercase hex digit for `d` (`d` must be below sixteen).
pub open spec fn hex_lower(d: nat) -> u8 {
    if d < 10 {
        (0x30 + d) as u8
    } else {
        (0x61 + d - 10) as u8
    }
}

/// The uppercase hex digit for `d`, executable form.
pub fn hex_upper_digit(d: u8) -> (r: u8)
    requires
        d < 16,
    ensures
        r == hex_upper(d as nat),
{
    if d < 10 {
        0x30 + d
    } else {
        0x41 + d - 10
    }
}

/// The lowercase hex digit for `d`, executable form.
pub fn hex_lower_digit(d: u8) -> (r: u8)
    requires
        d < 16,
    ensures
        r == hex_lower(d as nat),
{
    if d < 10 {
        0x30 + d
    } else {
        0x61 + d - 10
    }
}

/// Replace every byte of `s` by the expansion `f` gives it, in order.
pub open spec fn expand(s: Seq<u8>, f: spec_fn(u8) -> Seq<u8>) -> Seq<u8>
    decreases s.len(),
{
    if s.len() == 0 {
        Seq::empty()
    } else {
        f(s[0]) + expand(s.drop_first(), f)
    }
}

/// Expansion distributes over concatenation.
pub proof fn lemma_expand_concat(a: Seq<u8>, b: Seq<u8>, f: spec_fn(u8) -> Seq<u8>)
    ensures
        expand(a + b, f) == expand(a, f) + expand(b, f),
    decreases a.len(),
{
    if a.len() == 0 {
        assert(a + b =~= b);
        assert(expand(a, f) + expand(b, f) =~= expand(b, f));
    } else {
        assert((a + b).drop_first() =~= a.drop_first() + b);
        lemma_expand_concat(a.drop_first(), b, f);
        assert(expand(a + b, f) =~= expand(a, f) + expand(b, f));
    }
}

/// Expanding one more byte of a prefix appends that byte's expansion.
pub proof fn lemma_expand_take_step(s: Seq<u8>, f: spec_fn(u8) -> Seq<u8>, i: int)
    requires
        0 <= i < s.len(),
    ensures
        expand(s.take(i + 1), f) == expand(s.take(i), f) + f(s[i]),
{
    assert(s.take(i + 1) =~= s.take(i) + seq![s[i]]);
    lemma_expand_concat(s.take(i), seq![s[i]], f);
    assert(seq![s[i]].drop_first() =~= Seq::<u8>::empty());
    assert(expand(seq![s[i]].drop_first(), f) == Seq::<u8>::empty());
    assert(f(s[i]) + Seq::<u8>::empty() =~= f(s[i]));
    assert(expand(seq![s[i]], f) =~= f(s[i]));
}

/// Expanding the whole sequence is expanding its full prefix.
pub proof fn lemma_expand_take_all(s: Seq<u8>, f: spec_fn(u8) -> Seq<u8>)
    ensures
        expand(s.take(s.len() as int), f) == expand(s, f),
{
    assert(s.take(s.len() as int) =~= s);
}

} // verus!
