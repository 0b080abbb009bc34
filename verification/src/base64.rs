//! Base64 encoding over the gateway's permuted alphabet.
//!
//! The grouping is the standard four-characters-per-three-bytes scheme with
//! `=` as the single padding character; only the 64-character alphabet is
//! substituted. The encoding is specified exactly by [`spec_base64`].

use vstd::prelude::*;

verus! {

/// The permuted 64-character alphabet, in encoding order.
pub open spec fn spec_b64_alphabet() -> Seq<char> {
    seq![
        'L', 'V', 'o', 'J', 'P', 'i', 'C', 'N', '2', 'R', '8', 'G', '9', '0', 'y', 'g',
        '+', 'h', 'm', 'F', 'H', 'u', 'a', 'c', 'Z', '1', 'O', 'W', 'M', 'n', 'r', 's',
        'S', 'T', 'X', 'k', 'Y', 'p', 'U', 'q', '/', '3', 'd', 'l', 'b', 'f', 'K', 'w',
        'v', '6', 'x', 'z', 't', 'j', 'I', '7', 'D', 'e', 'B', 'E', '4', '5', 'Q', 'A',
    ]
}

/// The alphabet character for a six-bit value.
pub open spec fn b64_char(i: int) -> char {
    spec_b64_alphabet()[i]
}

/// The 24-bit group value of the first up-to-three bytes of `t`,
/// zero-extended on the right.
pub open spec fn group_val(t: Seq<u8>) -> int {
    (t[0] as int) * 0x10000 + (if t.len() >= 2 {
        (t[1] as int) * 0x100
    } else {
        0
    }) + (if t.len() >= 3 {
        t[2] as int
    } else {
        0
    })
}

/// The four output characters for one group value `h` holding `rem`
/// meaningful bytes (1, 2 or 3); unused positions pad with `=`.
pub open spec fn group_chars(h: int, rem: int) -> Seq<char> {
    seq![
        b64_char(h / 0x40000 % 64),
        b64_char(h / 0x1000 % 64),
        if rem >= 2 {
            b64_char(h / 0x40 % 64)
        } else {
            '='
        },
        if rem >= 3 {
            b64_char(h % 64)
        } else {
            '='
        },
    ]
}

/// The encoding of a whole byte sequence, group by group.
pub open spec fn spec_base64(t: Seq<u8>) -> Seq<char>
    decreases t.len(),
{
    if t.len() <= 0 {
        Seq::empty()
    } else if t.len() <= 3 {
        group_chars(group_val(t), t.len() as int)
    } else {
        group_chars(group_val(t), 3) + spec_base64(t.skip(3))
    }
}

/// How many `=` characters end the encoding of an input of length `n`.
pub open spec fn pad_len(n: int) -> int {
    if n % 3 == 0 {
        0
    } else {
        3 - n % 3
    }
}

/// The encoded length is `4 * ceil(n / 3)`, for every input.
pub proof fn lemma_base64_len(t: Seq<u8>)
    ensures
        spec_base64(t).len() == 4 * ((t.len() + 2) / 3),
    decreases t.len(),
{
    if t.len() <= 0 {
    } else if t.len() <= 3 {
    } else {
        lemma_base64_len(t.skip(3));
        assert((t.len() + 2) as int / 3 == 1 + (t.skip(3).len() + 2) as int / 3) by (nonlinear_arith)
            requires t.len() > 3 && t.skip(3).len() == t.len() - 3;
    }
}

/// No alphabet character is the padding character.
pub proof fn lemma_alphabet_no_pad()
    ensures
        forall|i: int| 0 <= i < 64 ==> b64_char(i) != '=',
{
}

/// `=` appears exactly in the final group's unused positions: at index `i`
/// of the encoding iff `i` lies in the last `pad_len` positions.
pub proof fn lemma_base64_padding(t: Seq<u8>)
    ensures
        forall|i: int|
            0 <= i < spec_base64(t).len() ==> ((spec_base64(t)[i] == '=') <==> i
                >= spec_base64(t).len() - pad_len(t.len() as int)),
    decreases t.len(),
{
    lemma_alphabet_no_pad();
    lemma_base64_len(t);
    if t.len() <= 0 {
    } else if t.len() <= 3 {
    } else {
        lemma_base64_padding(t.skip(3));
        lemma_base64_len(t.skip(3));
        assert(t.len() as int % 3 == (t.len() - 3) as int % 3) by (nonlinear_arith)
            requires t.len() > 3;
        assert(t.skip(3).len() as int == t.len() - 3);
        assert(forall|i: int|
            4 <= i < spec_base64(t).len() ==> spec_base64(t)[i] == spec_base64(t.skip(3))[i - 4]);
    }
}

/// The alphabet as an executable string, equal to [`spec_b64_alphabet`].
fn alphabet() -> (s: &'static str)
    ensures
        s@ == spec_b64_alphabet(),
{
    let s = "LVoJPiCN2R8G90yg+hmFHuacZ1OWMnrsSTXkYpUq/3dlbfKwv6xztjI7DeBE45QA";
    proof {
        reveal_strlit("LVoJPiCN2R8G90yg+hmFHuacZ1OWMnrsSTXkYpUq/3dlbfKwv6xztjI7DeBE45QA");
        assert(s@ =~= spec_b64_alphabet());
    }
    s
}

/// Encode one six-bit value as its alphabet character, appended to `out`.
fn push_b64_char(out: &mut String, alpha: &str, idx: u32)
    requires
        alpha@ == spec_b64_alphabet(),
        idx < 64,
    ensures
        final(out)@ == old(out)@ + seq![b64_char(idx as int)],
{
    let i = idx as usize;
    let c = alpha.substring_char(i, i + 1);
    out.append(c);
    proof {
        assert(c@ =~= seq![b64_char(idx as int)]);
    }
}

/// Encode `t` with the permuted alphabet. The output is exactly
/// [`spec_base64`]`(t@)`: deterministic, of length `4 * ceil(n / 3)`, padded
/// with `=` only in the final group's unused positions
/// (see [`lemma_base64_padding`]).
#[verifier::spinoff_prover]
#[verifier::rlimit(100)]
pub fn base64(t: &Vec<u8>) -> (r: String)
    ensures
        r@ == spec_base64(t@),
        r@.len() == 4 * ((t@.len() + 2) / 3),
{
    let a = t.len();
    let alpha = alphabet();
    let mut r = String::new();
    let mut o: usize = 0;
    proof {
        assert(t@.skip(0) =~= t@);
        assert(r@ + spec_base64(t@) =~= spec_base64(t@));
    }
    while o < a
        invariant
            o <= a,
            o % 3 == 0 || o == a,
            a == t@.len(),
            alpha@ == spec_b64_alphabet(),
            r@ + spec_base64(t@.skip(o as int)) == spec_base64(t@),
        decreases a - o,
    {
        let rem = a - o;
        let b0 = t[o] as u32;
        let b1 = if rem >= 2 { t[o + 1] as u32 } else { 0 };
        let b2 = if rem >= 3 { t[o + 2] as u32 } else { 0 };
        let h = b0 * 65536 + b1 * 256 + b2;
        let ghost tail = t@.skip(o as int);
        let ghost r0 = r@;
        let ghost rm: int = if rem >= 3 { 3 } else { rem as int };
        proof {
            assert(tail[0] == t@[o as int]);
            if rem >= 2 {
                assert(tail[1] == t@[o as int + 1]);
            }
            if rem >= 3 {
                assert(tail[2] == t@[o as int + 2]);
            }
            assert(group_val(tail) == h as int);
        }
        push_b64_char(&mut r, alpha, h / 262144 % 64);
        push_b64_char(&mut r, alpha, h / 4096 % 64);
        if rem >= 2 {
            push_b64_char(&mut r, alpha, h / 64 % 64);
        } else {
            r.append("=");
        }
        if rem >= 3 {
            push_b64_char(&mut r, alpha, h % 64);
        } else {
            r.append("=");
        }
        proof {
            reveal_strlit("=");
            assert(r@ =~= r0 + group_chars(h as int, rm));
            if rem >= 3 {
                if tail.len() == 3 {
                    assert(spec_base64(tail) =~= group_chars(h as int, 3));
                    assert(t@.skip(o as int + 3) =~= Seq::<u8>::empty());
                } else {
                    assert(spec_base64(tail) == group_chars(h as int, 3) + spec_base64(
                        tail.skip(3),
                    ));
                    assert(t@.skip(o as int + 3) =~= tail.skip(3));
                }
                assert(r@ + spec_base64(t@.skip(o as int + 3)) =~= spec_base64(t@));
            } else {
                assert(spec_base64(tail) =~= group_chars(h as int, rm));
                assert(t@.skip(a as int) =~= Seq::<u8>::empty());
                assert(r@ + spec_base64(t@.skip(a as int)) =~= spec_base64(t@));
            }
        }
        if rem >= 3 {
            o = o + 3;
        } else {
            o = a;
        }
    }
    proof {
        assert(t@.skip(a as int) =~= Seq::<u8>::empty());
        assert(r@ =~= spec_base64(t@));
        lemma_base64_len(t@);
    }
    r
}

} // verus!
