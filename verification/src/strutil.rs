//! Verified string building blocks: decimal rendering of integers and
//! lowercase hex encoding of byte strings.

use vstd::prelude::*;

verus! {

/// The decimal digit characters in value order.
pub open spec fn dec_digits() -> Seq<char> {
    seq!['0', '1', '2', '3', '4', '5', '6', '7', '8', '9']
}

/// The character for one decimal digit value.
pub open spec fn dec_digit(d: int) -> char {
    dec_digits()[d]
}

/// The usual decimal rendering of a non-negative integer, no leading zeros.
pub open spec fn spec_dec(n: int) -> Seq<char>
    decreases n,
{
    if n < 10 {
        seq![dec_digit(n)]
    } else {
        spec_dec(n / 10) + seq![dec_digit(n % 10)]
    }
}

/// The decimal rendering of a signed integer: a `-` sign before the
/// magnitude when negative.
pub open spec fn spec_dec_signed(n: int) -> Seq<char> {
    if n < 0 {
        seq!['-'] + spec_dec(-n)
    } else {
        spec_dec(n)
    }
}

/// The lowercase hexadecimal digit characters in value order.
pub open spec fn hex_digits() -> Seq<char> {
    seq!['0', '1', '2', '3', '4', '5', '6', '7', '8', '9', 'a', 'b', 'c', 'd', 'e', 'f']
}

/// The character for one hex digit value.
pub open spec fn hex_digit(d: int) -> char {
    hex_digits()[d]
}

/// Lowercase hex encoding: two digits for each byte, high digit first.
pub open spec fn spec_hex(b: Seq<u8>) -> Seq<char>
    decreases b.len(),
{
    if b.len() <= 0 {
        Seq::empty()
    } else {
        seq![hex_digit(b[0] as int / 16), hex_digit(b[0] as int % 16)] + spec_hex(b.skip(1))
    }
}

/// The hex encoding has two characters per byte.
pub proof fn lemma_hex_len(b: Seq<u8>)
    ensures
        spec_hex(b).len() == 2 * b.len(),
    decreases b.len(),
{
    if b.len() > 0 {
        lemma_hex_len(b.skip(1));
    }
}

/// The decimal digit table as an executable string.
fn dec_table() -> (s: &'static str)
    ensures
        s@ == dec_digits(),
{
    let s = "0123456789";
    proof {
        reveal_strlit("0123456789");
        assert(s@ =~= dec_digits());
    }
    s
}

/// The hex digit table as an executable string.
fn hex_table() -> (s: &'static str)
    ensures
        s@ == hex_digits(),
{
    let s = "0123456789abcdef";
    proof {
        reveal_strlit("0123456789abcdef");
        assert(s@ =~= hex_digits());
    }
    s
}

/// Append the decimal rendering of `n` to `out`.
pub fn push_dec_u64(out: &mut String, n: u64)
    ensures
        final(out)@ == old(out)@ + spec_dec(n as int),
    decreases n,
{
    let table = dec_table();
    if n >= 10 {
        push_dec_u64(out, n / 10);
    }
    let d = (n % 10) as usize;
    let c = table.substring_char(d, d + 1);
    out.append(c);
    proof {
        assert(c@ =~= seq![dec_digit(n as int % 10)]);
        if n < 10 {
            assert(n as int % 10 == n as int);
        }
        assert(final(out)@ =~= old(out)@ + spec_dec(n as int));
    }
}

/// The decimal rendering of `n` as a fresh string.
pub fn dec_u64(n: u64) -> (r: String)
    ensures
        r@ == spec_dec(n as int),
{
    let mut r = String::new();
    push_dec_u64(&mut r, n);
    proof {
        assert(r@ =~= spec_dec(n as int));
    }
    r
}

/// Append the decimal rendering of a signed 32-bit integer to `out`.
pub fn push_dec_i32(out: &mut String, n: i32)
    ensures
        final(out)@ == old(out)@ + spec_dec_signed(n as int),
{
    if n < 0 {
        out.append("-");
        let m = -(n as i64);
        push_dec_u64(out, m as u64);
        proof {
            reveal_strlit("-");
            assert(final(out)@ =~= old(out)@ + spec_dec_signed(n as int));
        }
    } else {
        push_dec_u64(out, n as u64);
    }
}

/// The decimal rendering of a signed 32-bit integer as a fresh string.
pub fn dec_i32(n: i32) -> (r: String)
    ensures
        r@ == spec_dec_signed(n as int),
{
    let mut r = String::new();
    push_dec_i32(&mut r, n);
    proof {
        assert(r@ =~= spec_dec_signed(n as int));
    }
    r
}

/// Append the lowercase hex encoding of `b` to `out`.
pub fn push_hex(out: &mut String, b: &Vec<u8>)
    ensures
        final(out)@ == old(out)@ + spec_hex(b@),
{
    let table = hex_table();
    let mut i: usize = 0;
    proof {
        assert(b@.skip(0) =~= b@);
    }
    while i < b.len()
        invariant
            i <= b@.len(),
            table@ == hex_digits(),
            old(out)@ + spec_hex(b@) == out@ + spec_hex(b@.skip(i as int)),
        decreases b@.len() - i,
    {
        let ghost before = out@;
        let hi = (b[i] / 16) as usize;
        let lo = (b[i] % 16) as usize;
        let ch = table.substring_char(hi, hi + 1);
        out.append(ch);
        let cl = table.substring_char(lo, lo + 1);
        out.append(cl);
        proof {
            let tail = b@.skip(i as int);
            assert(tail[0] == b@[i as int]);
            assert(out@ =~= before + seq![
                hex_digit(tail[0] as int / 16),
                hex_digit(tail[0] as int % 16),
            ]);
            assert(b@.skip(i as int + 1) =~= tail.skip(1));
        }
        i = i + 1;
    }
    proof {
        assert(b@.skip(b@.len() as int) =~= Seq::<u8>::empty());
        assert(final(out)@ =~= old(out)@ + spec_hex(b@));
    }
}

/// The lowercase hex encoding of `b` as a fresh string.
pub fn hex_string(b: &Vec<u8>) -> (r: String)
    ensures
        r@ == spec_hex(b@),
{
    let mut r = String::new();
    push_hex(&mut r, b);
    proof {
        assert(r@ =~= spec_hex(b@));
    }
    r
}

} // verus!
