//! The keyed block cipher of the TEA family that the gateway dialect uses
//! for its credential envelope.
//!
//! Plaintext bytes are packed into 32-bit words little-endian, the byte
//! length is appended as one extra word, and the word array is mixed in
//! place over a fixed number of rounds driven by the additive constant
//! [`DELTA`]. The key is packed the same way and zero-padded to four words.
//! Decryption undoes the rounds in reverse and checks the recovered length
//! word; [`lemma_tea_roundtrip`] proves that decrypting an encryption
//! returns the original bytes exactly.
//!
//! The cipher is implemented here in full: the spec functions in this
//! module are its reference, the executable code is proved against them,
//! and the round trip is a theorem. No outside provider of this dialect
//! stands behind it, so agreement with any other implementation of the
//! same dialect is a wire-compatibility question that nothing in this
//! crate can check.

use vstd::prelude::*;
use vstd::arithmetic::div_mod::{
    lemma_fundamental_div_mod_converse_div, lemma_fundamental_div_mod_converse_mod,
};

verus! {

/// The round constant of the TEA family.
pub const DELTA: u32 = 0x9E3779B9;

/// The mixing term for one position: `y` and `z` are the right and left
/// neighbours of the word being changed, `d` the round sum, `p` the position.
pub open spec fn tea_mx(y: u32, z: u32, d: u32, p: int, k: Seq<u32>) -> u32 {
    let e = (d >> 2u32) % 4u32;
    let a = (z >> 5u32) ^ (y << 2u32);
    let b = ((y >> 3u32) ^ (z << 4u32)) ^ (d ^ y);
    let c = k[((p % 4) as u32 ^ e) as int] ^ z;
    a.wrapping_add(b).wrapping_add(c)
}

/// One forward mixing step at position `p`.
pub open spec fn tea_step(v: Seq<u32>, k: Seq<u32>, d: u32, p: int) -> Seq<u32> {
    let n = v.len() - 1;
    let y = if p == n {
        v[0]
    } else {
        v[p + 1]
    };
    let z = if p == 0 {
        v[n]
    } else {
        v[p - 1]
    };
    v.update(p, v[p].wrapping_add(tea_mx(y, z, d, p, k)))
}

/// The inverse of [`tea_step`] at the same position.
pub open spec fn tea_unstep(v: Seq<u32>, k: Seq<u32>, d: u32, p: int) -> Seq<u32> {
    let n = v.len() - 1;
    let y = if p == n {
        v[0]
    } else {
        v[p + 1]
    };
    let z = if p == 0 {
        v[n]
    } else {
        v[p - 1]
    };
    v.update(p, v[p].wrapping_sub(tea_mx(y, z, d, p, k)))
}

/// Forward steps at positions `0, 1, ..., p - 1`.
pub open spec fn tea_steps(v: Seq<u32>, k: Seq<u32>, d: u32, p: int) -> Seq<u32>
    decreases p,
{
    if p <= 0 {
        v
    } else {
        tea_step(tea_steps(v, k, d, p - 1), k, d, p - 1)
    }
}

/// Inverse steps at positions `p - 1, p - 2, ..., 0`, undoing [`tea_steps`].
pub open spec fn tea_unsteps(v: Seq<u32>, k: Seq<u32>, d: u32, p: int) -> Seq<u32>
    decreases p,
{
    if p <= 0 {
        v
    } else {
        tea_unsteps(tea_unstep(v, k, d, p - 1), k, d, p - 1)
    }
}

/// The round sum after `q` rounds starting from `d`.
pub open spec fn d_after(d: u32, q: int) -> u32
    decreases q,
{
    if q <= 0 {
        d
    } else {
        d_after(d, q - 1).wrapping_add(DELTA)
    }
}

/// `q` encryption rounds; each round advances the round sum by [`DELTA`]
/// and mixes every position once, in order.
pub open spec fn tea_enc_rounds(v: Seq<u32>, k: Seq<u32>, d: u32, q: int) -> Seq<u32>
    decreases q,
{
    if q <= 0 {
        v
    } else {
        tea_enc_rounds(
            tea_steps(v, k, d.wrapping_add(DELTA), v.len() as int),
            k,
            d.wrapping_add(DELTA),
            q - 1,
        )
    }
}

/// `q` decryption rounds; each round undoes one encryption round, last
/// round first, and retreats the round sum by [`DELTA`].
pub open spec fn tea_dec_rounds(v: Seq<u32>, k: Seq<u32>, d: u32, q: int) -> Seq<u32>
    decreases q,
{
    if q <= 0 {
        v
    } else {
        tea_dec_rounds(tea_unsteps(v, k, d, v.len() as int), k, d.wrapping_sub(DELTA), q - 1)
    }
}

/// The little-endian word packed from the up-to-four bytes of `b` at `4 * j`.
pub open spec fn word_of(b: Seq<u8>, j: int) -> u32 {
    ((b[4 * j] as int) + (if 4 * j + 1 < b.len() {
        256 * (b[4 * j + 1] as int)
    } else {
        0
    }) + (if 4 * j + 2 < b.len() {
        65536 * (b[4 * j + 2] as int)
    } else {
        0
    }) + (if 4 * j + 3 < b.len() {
        16777216 * (b[4 * j + 3] as int)
    } else {
        0
    })) as u32
}

/// Bytes packed into words, zero-padded at the end.
pub open spec fn bytes_to_words(b: Seq<u8>) -> Seq<u32> {
    Seq::new(((b.len() + 3) / 4) as nat, |j: int| word_of(b, j))
}

/// Byte `r` (0 = lowest) of a word.
pub open spec fn byte_of_word(w: u32, r: int) -> u8 {
    (((w as int) / (if r == 0 {
        1
    } else if r == 1 {
        256
    } else if r == 2 {
        65536
    } else {
        16777216
    })) % 256) as u8
}

/// Words unpacked to bytes little-endian, four bytes each.
pub open spec fn words_to_bytes(v: Seq<u32>) -> Seq<u8> {
    Seq::new((4 * v.len()) as nat, |i: int| byte_of_word(v[i / 4], i % 4))
}

/// The key's word form, zero-padded to at least four words.
pub open spec fn key_words_spec(key: Seq<u8>) -> Seq<u32> {
    let k = bytes_to_words(key);
    if k.len() < 4 {
        k + Seq::new((4 - k.len()) as nat, |i: int| 0u32)
    } else {
        k
    }
}

/// The round count for a word array of length `n1`.
pub open spec fn tea_q(n1: int) -> int {
    6 + 52int / n1
}

/// The cipher as a whole: pack, append the length word, mix.
/// The empty plaintext encrypts to the empty ciphertext.
pub open spec fn spec_tea_encrypt(data: Seq<u8>, key: Seq<u8>) -> Seq<u8> {
    if data.len() == 0 {
        Seq::empty()
    } else {
        let v = bytes_to_words(data).push(data.len() as u32);
        words_to_bytes(tea_enc_rounds(v, key_words_spec(key), 0, tea_q(v.len() as int)))
    }
}

/// The inverse: unmix, read the length word, check it against the word
/// count, and cut the plaintext to that length. `None` when the input
/// cannot be a ciphertext of this cipher under this key.
pub open spec fn spec_tea_decrypt(data: Seq<u8>, key: Seq<u8>) -> Option<Seq<u8>> {
    if data.len() == 0 {
        Some(Seq::empty())
    } else if data.len() % 4 != 0 || data.len() < 8 {
        None
    } else {
        let v = bytes_to_words(data);
        let q = tea_q(v.len() as int);
        let w = tea_dec_rounds(v, key_words_spec(key), d_after(0, q), q);
        let n = v.len() - 1;
        let len = w[n as int] as int;
        if 4 * n - 3 <= len <= 4 * n {
            Some(words_to_bytes(w.take(n as int)).take(len))
        } else {
            None
        }
    }
}

/// Mixing steps keep the array length.
pub proof fn lemma_steps_len(v: Seq<u32>, k: Seq<u32>, d: u32, p: int)
    requires
        p <= v.len(),
    ensures
        tea_steps(v, k, d, p).len() == v.len(),
        tea_unsteps(v, k, d, p).len() == v.len(),
    decreases p,
{
    if p > 0 {
        lemma_steps_len(v, k, d, p - 1);
        assert(tea_steps(v, k, d, p) == tea_step(tea_steps(v, k, d, p - 1), k, d, p - 1));
        assert(tea_step(tea_steps(v, k, d, p - 1), k, d, p - 1).len() == tea_steps(
            v,
            k,
            d,
            p - 1,
        ).len());
        let u = tea_unstep(v, k, d, p - 1);
        assert(u.len() == v.len());
        lemma_steps_len(u, k, d, p - 1);
        assert(tea_unsteps(v, k, d, p) == tea_unsteps(u, k, d, p - 1));
    }
}

/// Rounds keep the array length.
pub proof fn lemma_enc_rounds_len(v: Seq<u32>, k: Seq<u32>, d: u32, q: int)
    ensures
        tea_enc_rounds(v, k, d, q).len() == v.len(),
    decreases q,
{
    if q > 0 {
        lemma_steps_len(v, k, d.wrapping_add(DELTA), v.len() as int);
        lemma_enc_rounds_len(
            tea_steps(v, k, d.wrapping_add(DELTA), v.len() as int),
            k,
            d.wrapping_add(DELTA),
            q - 1,
        );
    }
}

/// One inverse step undoes one forward step.
proof fn lemma_step_inverse(v: Seq<u32>, k: Seq<u32>, d: u32, p: int)
    requires
        v.len() >= 2,
        0 <= p < v.len(),
    ensures
        tea_unstep(tea_step(v, k, d, p), k, d, p) =~= v,
{
    let n = v.len() - 1;
    let s = tea_step(v, k, d, p);
    assert(s.len() == v.len());
    let yi = if p == n {
        0int
    } else {
        p + 1
    };
    let zi = if p == 0 {
        n
    } else {
        p - 1
    };
    assert(yi != p && zi != p);
    assert(s[yi] == v[yi] && s[zi] == v[zi]);
    let m = tea_mx(v[yi], v[zi], d, p, k);
    assert(s[p] == v[p].wrapping_add(m));
    assert(v[p].wrapping_add(m).wrapping_sub(m) == v[p]);
}

/// Undoing all positions in reverse undoes a full forward round.
proof fn lemma_round_inverse(v: Seq<u32>, k: Seq<u32>, d: u32, p: int)
    requires
        v.len() >= 2,
        0 <= p <= v.len(),
    ensures
        tea_unsteps(tea_steps(v, k, d, p), k, d, p) =~= v,
    decreases p,
{
    if p > 0 {
        lemma_steps_len(v, k, d, p - 1);
        lemma_step_inverse(tea_steps(v, k, d, p - 1), k, d, p - 1);
        lemma_round_inverse(v, k, d, p - 1);
    }
}

/// The last round of `q` rounds can be split off.
proof fn lemma_enc_last(v: Seq<u32>, k: Seq<u32>, d: u32, q: int)
    requires
        q >= 1,
    ensures
        tea_enc_rounds(v, k, d, q) == tea_steps(
            tea_enc_rounds(v, k, d, q - 1),
            k,
            d_after(d, q),
            v.len() as int,
        ),
    decreases q,
{
    lemma_d_after_shift(d, q);
    if q == 1 {
        assert(tea_enc_rounds(v, k, d, 1) == tea_enc_rounds(
            tea_steps(v, k, d.wrapping_add(DELTA), v.len() as int),
            k,
            d.wrapping_add(DELTA),
            0,
        ));
        assert(d_after(d, 1) == d_after(d, 0).wrapping_add(DELTA));
    } else {
        let d1 = d.wrapping_add(DELTA);
        let v1 = tea_steps(v, k, d1, v.len() as int);
        lemma_steps_len(v, k, d1, v.len() as int);
        lemma_enc_last(v1, k, d1, q - 1);
        lemma_d_after_shift(d, q - 1);
        assert(tea_enc_rounds(v, k, d, q) == tea_enc_rounds(v1, k, d1, q - 1));
        assert(tea_enc_rounds(v, k, d, q - 1) == tea_enc_rounds(v1, k, d1, q - 2));
        assert(d_after(d1, q - 1) == d_after(d, q));
    }
}

/// Advancing the start of the round-sum chain by one round.
proof fn lemma_d_after_shift(d: u32, q: int)
    requires
        q >= 1,
    ensures
        d_after(d.wrapping_add(DELTA), q - 1) == d_after(d, q),
    decreases q,
{
    if q == 1 {
        assert(d_after(d.wrapping_add(DELTA), 0) == d.wrapping_add(DELTA));
        assert(d_after(d, 1) == d_after(d, 0).wrapping_add(DELTA));
    } else {
        lemma_d_after_shift(d, q - 1);
        assert(d_after(d.wrapping_add(DELTA), q - 1) == d_after(
            d.wrapping_add(DELTA),
            q - 2,
        ).wrapping_add(DELTA));
        assert(d_after(d, q) == d_after(d, q - 1).wrapping_add(DELTA));
    }
}

/// `q` decryption rounds undo `q` encryption rounds.
proof fn lemma_rounds_inverse(v: Seq<u32>, k: Seq<u32>, d: u32, q: int)
    requires
        v.len() >= 2,
        q >= 0,
    ensures
        tea_dec_rounds(tea_enc_rounds(v, k, d, q), k, d_after(d, q), q) =~= v,
    decreases q,
{
    if q > 0 {
        let e = tea_enc_rounds(v, k, d, q);
        let e1 = tea_enc_rounds(v, k, d, q - 1);
        lemma_enc_last(v, k, d, q);
        lemma_enc_rounds_len(v, k, d, q);
        lemma_enc_rounds_len(v, k, d, q - 1);
        lemma_round_inverse(e1, k, d_after(d, q), v.len() as int);
        assert(tea_unsteps(e, k, d_after(d, q), e.len() as int) =~= e1);
        assert(d_after(d, q).wrapping_sub(DELTA) == d_after(d, q - 1));
        lemma_rounds_inverse(v, k, d, q - 1);
        assert(tea_dec_rounds(e1, k, d_after(d, q - 1), q - 1) =~= v);
    }
}

/// A word recomposes from its four bytes; each byte extracts back out.
proof fn lemma_word_decomp(a0: u8, a1: u8, a2: u8, a3: u8)
    ensures
        ({
            let w = (a0 as int) + 256 * (a1 as int) + 65536 * (a2 as int) + 16777216 * (a3 as int);
            &&& w < 0x100000000
            &&& w % 256 == a0 as int
            &&& (w / 256) % 256 == a1 as int
            &&& (w / 65536) % 256 == a2 as int
            &&& (w / 16777216) % 256 == a3 as int
        }),
{
    let w = (a0 as int) + 256 * (a1 as int) + 65536 * (a2 as int) + 16777216 * (a3 as int);
    lemma_fundamental_div_mod_converse_mod(w, 256, (a1 as int) + 256 * (a2 as int) + 65536 * (a3 as int), a0 as int);
    lemma_fundamental_div_mod_converse_div(w, 256, (a1 as int) + 256 * (a2 as int) + 65536 * (a3 as int), a0 as int);
    lemma_fundamental_div_mod_converse_mod(w / 256, 256, (a2 as int) + 256 * (a3 as int), a1 as int);
    lemma_fundamental_div_mod_converse_div(w / 256, 256, (a2 as int) + 256 * (a3 as int), a1 as int);
    lemma_fundamental_div_mod_converse_mod((w / 256) / 256, 256, a3 as int, a2 as int);
    lemma_fundamental_div_mod_converse_div((w / 256) / 256, 256, a3 as int, a2 as int);
    lemma_fundamental_div_mod_converse_div(w, 65536, (a2 as int) + 256 * (a3 as int), (a0 as int) + 256 * (a1 as int));
    lemma_fundamental_div_mod_converse_div(w, 16777216, a3 as int, (a0 as int) + 256 * (a1 as int) + 65536 * (a2 as int));
    lemma_fundamental_div_mod_converse_mod(a3 as int, 256, 0, a3 as int);
}

/// One word of a packed-then-unpacked array reads back unchanged.
#[verifier::spinoff_prover]
#[verifier::rlimit(100)]
proof fn lemma_word_at(v: Seq<u32>, j: int)
    requires
        0 <= j < v.len(),
    ensures
        word_of(words_to_bytes(v), j) == v[j],
{
    let b = words_to_bytes(v);
    assert(b.len() == 4 * v.len());
    let w = v[j];
    lemma_word_decomp(
        byte_of_word(w, 0),
        byte_of_word(w, 1),
        byte_of_word(w, 2),
        byte_of_word(w, 3),
    );
    assert(b[4 * j] == byte_of_word(w, 0));
    assert(b[4 * j + 1] == byte_of_word(w, 1));
    assert(b[4 * j + 2] == byte_of_word(w, 2));
    assert(b[4 * j + 3] == byte_of_word(w, 3));
    assert((w as int) % 256 == byte_of_word(w, 0) as int);
    assert(((w as int) / 256) % 256 == byte_of_word(w, 1) as int);
    assert(((w as int) / 65536) % 256 == byte_of_word(w, 2) as int);
    assert(((w as int) / 16777216) % 256 == byte_of_word(w, 3) as int);
    lemma_word_decomp(b[4 * j], b[4 * j + 1], b[4 * j + 2], b[4 * j + 3]);
}

/// Packing then unpacking returns the same words.
proof fn lemma_words_bytes_words(v: Seq<u32>)
    ensures
        bytes_to_words(words_to_bytes(v)) =~= v,
{
    let b = words_to_bytes(v);
    assert(b.len() == 4 * v.len());
    assert forall|j: int| 0 <= j < v.len() implies bytes_to_words(b)[j] == v[j] by {
        lemma_word_at(v, j);
    }
}

/// Unpacking the packed form of `b` gives back `b` on its own length.
proof fn lemma_bytes_words_bytes(b: Seq<u8>)
    ensures
        words_to_bytes(bytes_to_words(b)).take(b.len() as int) =~= b,
{
    let v = bytes_to_words(b);
    assert(4 * v.len() >= b.len()) by {
        assert(v.len() == (b.len() + 3) as int / 4);
    }
    assert forall|i: int| 0 <= i < b.len() implies words_to_bytes(v).take(b.len() as int)[i] == b[i] by {
        let j = i / 4;
        let r = i % 4;
        assert(0 <= r < 4 && i == 4 * j + r);
        let a0 = b[4 * j];
        let a1: u8 = if 4 * j + 1 < b.len() {
            b[4 * j + 1]
        } else {
            0
        };
        let a2: u8 = if 4 * j + 2 < b.len() {
            b[4 * j + 2]
        } else {
            0
        };
        let a3: u8 = if 4 * j + 3 < b.len() {
            b[4 * j + 3]
        } else {
            0
        };
        lemma_word_decomp(a0, a1, a2, a3);
        assert(v[j] as int == (a0 as int) + 256 * (a1 as int) + 65536 * (a2 as int) + 16777216 * (a3 as int));
        assert(byte_of_word(v[j], r) == b[i]);
    }
}

/// The word count of a non-empty byte string brackets its length.
proof fn lemma_word_count_bounds(l: int)
    requires
        1 <= l,
    ensures
        4 * ((l + 3) / 4 - 1) < l <= 4 * ((l + 3) / 4),
{
    vstd::arithmetic::div_mod::lemma_fundamental_div_mod(l + 3, 4);
}

/// Round trip: decrypting an encryption under the same key returns the
/// plaintext exactly, for every plaintext whose length fits the length word.
pub proof fn lemma_tea_roundtrip(data: Seq<u8>, key: Seq<u8>)
    requires
        data.len() < 0x100000000,
    ensures
        spec_tea_decrypt(spec_tea_encrypt(data, key), key) == Some(data),
{
    if data.len() == 0 {
        assert(spec_tea_decrypt(spec_tea_encrypt(data, key), key) == Some(Seq::<u8>::empty()));
        assert(data =~= Seq::<u8>::empty());
    } else {
        lemma_tea_roundtrip_nonempty(data, key);
    }
}

/// The round trip on a non-empty plaintext.
#[verifier::spinoff_prover]
#[verifier::rlimit(100)]
proof fn lemma_tea_roundtrip_nonempty(data: Seq<u8>, key: Seq<u8>)
    requires
        0 < data.len() < 0x100000000,
    ensures
        spec_tea_decrypt(spec_tea_encrypt(data, key), key) == Some(data),
{
    let k = key_words_spec(key);
    let dw = bytes_to_words(data);
    let l = data.len() as int;
    assert(dw.len() == (l + 3) / 4);
    lemma_word_count_bounds(l);
    assert(dw.len() >= 1);
    let v = dw.push(data.len() as u32);
    let n1 = v.len() as int;
    assert(n1 >= 2);
    let q = tea_q(n1);
    let e = tea_enc_rounds(v, k, 0, q);
    lemma_enc_rounds_len(v, k, 0, q);
    let c = words_to_bytes(e);
    assert(c.len() == 4 * n1);
    assert(c.len() % 4 == 0 && c.len() >= 8);
    lemma_words_bytes_words(e);
    assert(bytes_to_words(c) =~= e);
    lemma_rounds_inverse(v, k, 0, q);
    let w = tea_dec_rounds(e, k, d_after(0, q), q);
    assert(w =~= v);
    let n = n1 - 1;
    assert(w[n] == data.len() as u32);
    assert(4 * (n - 1) < l <= 4 * n);
    assert(w.take(n) =~= dw);
    lemma_bytes_words_bytes(data);
    assert(words_to_bytes(dw).take(l) =~= data);
    assert(spec_tea_decrypt(c, key) == Some(data));
}

/// Pack bytes into words, little-endian, zero-padded.
fn bytes_to_words_exec(b: &Vec<u8>) -> (v: Vec<u32>)
    ensures
        v@ == bytes_to_words(b@),
{
    let n = b.len();
    let mut v: Vec<u32> = Vec::new();
    let count = n / 4 + (if n % 4 != 0 {
        1
    } else {
        0
    });
    proof {
        vstd::arithmetic::div_mod::lemma_fundamental_div_mod(n as int, 4);
        let q = n as int / 4;
        let r = n as int % 4;
        if r == 0 {
            vstd::arithmetic::div_mod::lemma_fundamental_div_mod_converse_div(
                n as int + 3,
                4,
                q,
                3,
            );
        } else {
            vstd::arithmetic::div_mod::lemma_fundamental_div_mod_converse_div(
                n as int + 3,
                4,
                q + 1,
                r - 1,
            );
        }
        assert(count as int == (n as int + 3) / 4);
        assert(count > 0 ==> 4 * (count as int - 1) < n as int);
    }
    let mut j: usize = 0;
    while j < count
        invariant
            n == b@.len(),
            count as int == (n as int + 3) / 4,
            count > 0 ==> 4 * (count as int - 1) < n as int,
            j <= count,
            v@.len() == j,
            forall|t: int| 0 <= t < j ==> v@[t] == word_of(b@, t),
        decreases count - j,
    {
        let base = 4 * j;
        let mut w: u32 = b[base] as u32;
        if base + 1 < n {
            w = w + 256 * (b[base + 1] as u32);
        }
        if base + 2 < n {
            w = w + 65536 * (b[base + 2] as u32);
        }
        if base + 3 < n {
            w = w + 16777216 * (b[base + 3] as u32);
        }
        assert(w == word_of(b@, j as int));
        v.push(w);
        j = j + 1;
    }
    proof {
        assert(v@ =~= bytes_to_words(b@));
    }
    v
}

/// Unpack words into bytes, four per word.
fn words_to_bytes_exec(v: &Vec<u32>) -> (b: Vec<u8>)
    requires
        4 * v@.len() <= usize::MAX,
    ensures
        b@ == words_to_bytes(v@),
{
    let mut b: Vec<u8> = Vec::new();
    let mut j: usize = 0;
    while j < v.len()
        invariant
            j <= v@.len(),
            4 * v@.len() <= usize::MAX,
            b@.len() == 4 * j,
            forall|i: int| 0 <= i < 4 * j ==> b@[i] == byte_of_word(v@[i / 4], i % 4),
        decreases v@.len() - j,
    {
        let w = v[j];
        b.push((w % 256) as u8);
        b.push((w / 256 % 256) as u8);
        b.push((w / 65536 % 256) as u8);
        b.push((w / 16777216 % 256) as u8);
        proof {
            assert forall|i: int| 0 <= i < 4 * (j + 1) implies b@[i] == byte_of_word(
                v@[i / 4],
                i % 4,
            ) by {
                if i >= 4 * j {
                    assert(i / 4 == j as int && i % 4 == i - 4 * j);
                }
            }
        }
        j = j + 1;
    }
    proof {
        assert(b@ =~= words_to_bytes(v@));
    }
    b
}

/// The key's word form, zero-padded to at least four words.
fn key_words(key: &Vec<u8>) -> (k: Vec<u32>)
    ensures
        k@ == key_words_spec(key@),
        k@.len() >= 4,
{
    let mut k = bytes_to_words_exec(key);
    while k.len() < 4
        invariant
            key_words_spec(key@) =~= if k@.len() < 4 {
                k@ + Seq::new((4 - k@.len()) as nat, |i: int| 0u32)
            } else {
                k@
            },
        decreases 4 - k@.len(),
    {
        k.push(0);
    }
    proof {
        assert(k@ =~= key_words_spec(key@));
    }
    k
}

/// One full forward round over the whole array.
fn tea_round(v: &mut Vec<u32>, k: &Vec<u32>, d: u32)
    requires
        old(v)@.len() >= 2,
        k@.len() >= 4,
    ensures
        final(v)@ == tea_steps(old(v)@, k@, d, old(v)@.len() as int),
        final(v)@.len() == old(v)@.len(),
{
    let n = v.len() - 1;
    let e = (d >> 2) % 4;
    let mut p: usize = 0;
    while p <= n
        invariant
            old(v)@.len() >= 2,
            k@.len() >= 4,
            n == old(v)@.len() - 1,
            n < usize::MAX,
            p <= n + 1,
            e == (d >> 2u32) % 4u32,
            v@ == tea_steps(old(v)@, k@, d, p as int),
        decreases n + 1 - p,
    {
        proof {
            lemma_steps_len(old(v)@, k@, d, p as int);
        }
        let y = if p == n {
            v[0]
        } else {
            v[p + 1]
        };
        let z = if p == 0 {
            v[n]
        } else {
            v[p - 1]
        };
        let a = (z >> 5) ^ (y << 2);
        let bb = ((y >> 3) ^ (z << 4)) ^ (d ^ y);
        let pm = (p % 4) as u32;
        let kx = pm ^ e;
        proof {
            assert(pm ^ e <= 3u32) by (bit_vector)
                requires pm <= 3u32 && e <= 3u32;
        }
        let c = k[kx as usize] ^ z;
        let m = a.wrapping_add(bb).wrapping_add(c);
        proof {
            assert(m == tea_mx(y, z, d, p as int, k@));
        }
        let vp = v[p];
        v.set(p, vp.wrapping_add(m));
        proof {
            assert(v@ =~= tea_step(tea_steps(old(v)@, k@, d, p as int), k@, d, p as int));
        }
        p = p + 1;
    }
    proof {
        lemma_steps_len(old(v)@, k@, d, old(v)@.len() as int);
    }
}

/// One full inverse round over the whole array.
fn tea_unround(v: &mut Vec<u32>, k: &Vec<u32>, d: u32)
    requires
        old(v)@.len() >= 2,
        k@.len() >= 4,
    ensures
        final(v)@ == tea_unsteps(old(v)@, k@, d, old(v)@.len() as int),
        final(v)@.len() == old(v)@.len(),
{
    let n = v.len() - 1;
    let e = (d >> 2) % 4;
    let ghost len = old(v)@.len() as int;
    let mut p: usize = n + 1;
    proof {
        assert(tea_unsteps_partial(old(v)@, k@, d, len, len) == old(v)@);
    }
    while p > 0
        invariant
            old(v)@.len() >= 2,
            k@.len() >= 4,
            n == old(v)@.len() - 1,
            len == old(v)@.len() as int,
            p <= n + 1,
            e == (d >> 2u32) % 4u32,
            v@ == tea_unsteps_partial(old(v)@, k@, d, len, p as int),
            v@.len() == old(v)@.len(),
        decreases p,
    {
        let pp = p - 1;
        let y = if pp == n {
            v[0]
        } else {
            v[pp + 1]
        };
        let z = if pp == 0 {
            v[n]
        } else {
            v[pp - 1]
        };
        let a = (z >> 5) ^ (y << 2);
        let bb = ((y >> 3) ^ (z << 4)) ^ (d ^ y);
        let pm = (pp % 4) as u32;
        let kx = pm ^ e;
        proof {
            assert(pm ^ e <= 3u32) by (bit_vector)
                requires pm <= 3u32 && e <= 3u32;
        }
        let c = k[kx as usize] ^ z;
        let m = a.wrapping_add(bb).wrapping_add(c);
        proof {
            assert(m == tea_mx(y, z, d, pp as int, k@));
        }
        let vp = v[pp];
        v.set(pp, vp.wrapping_sub(m));
        proof {
            assert(v@ =~= tea_unstep(
                tea_unsteps_partial(old(v)@, k@, d, len, p as int),
                k@,
                d,
                pp as int,
            ));
        }
        p = pp;
    }
    proof {
        lemma_unsteps_partial_full(old(v)@, k@, d, len);
    }
}

/// Inverse steps from position `len - 1` down to `p`: the state after the
/// first `len - p` undo steps of a round over `len` positions.
pub open spec fn tea_unsteps_partial(v: Seq<u32>, k: Seq<u32>, d: u32, len: int, p: int) -> Seq<
    u32,
>
    decreases len - p,
{
    if p >= len {
        v
    } else {
        tea_unstep(tea_unsteps_partial(v, k, d, len, p + 1), k, d, p)
    }
}

/// Running the partial undo all the way down equals [`tea_unsteps`].
proof fn lemma_unsteps_partial_full(v: Seq<u32>, k: Seq<u32>, d: u32, len: int)
    requires
        len >= 0,
    ensures
        tea_unsteps_partial(v, k, d, len, 0) == tea_unsteps(v, k, d, len),
{
    lemma_unsteps_partial_glue(v, k, d, len, len);
}

/// `tea_unsteps_partial` down to `p` followed by `tea_unsteps` over the
/// remaining `p` positions equals `tea_unsteps` over all of them.
proof fn lemma_unsteps_partial_glue(v: Seq<u32>, k: Seq<u32>, d: u32, len: int, p: int)
    requires
        0 <= p <= len,
    ensures
        tea_unsteps(tea_unsteps_partial(v, k, d, len, len - p), k, d, len - p) == tea_unsteps(
            v,
            k,
            d,
            len,
        ),
    decreases p,
{
    if p > 0 {
        lemma_unsteps_partial_glue(v, k, d, len, p - 1);
    }
}

/// Encrypt `data` under `key`. The result is exactly
/// [`spec_tea_encrypt`]`(data@, key@)`.
pub fn tea_encrypt(data: &Vec<u8>, key: &Vec<u8>) -> (r: Vec<u8>)
    requires
        data@.len() < 0x100000000,
        data@.len() + 7 <= usize::MAX,
    ensures
        r@ == spec_tea_encrypt(data@, key@),
{
    if data.len() == 0 {
        let r: Vec<u8> = Vec::new();
        proof {
            assert(r@ =~= spec_tea_encrypt(data@, key@));
        }
        return r;
    }
    let mut v = bytes_to_words_exec(data);
    v.push(data.len() as u32);
    let ghost v0 = v@;
    let k = key_words(key);
    let q = 6 + 52 / v.len();
    let mut d: u32 = 0;
    let mut round: usize = 0;
    while round < q
        invariant
            v@.len() == v0.len() >= 2,
            k@.len() >= 4,
            round <= q,
            q == tea_q(v0.len() as int),
            d == d_after(0, round as int),
            v@ == tea_enc_rounds(v0, k@, 0, round as int),
        decreases q - round,
    {
        d = d.wrapping_add(DELTA);
        proof {
            lemma_enc_rounds_len(v0, k@, 0, round as int);
            lemma_enc_last(v0, k@, 0, round as int + 1);
        }
        tea_round(&mut v, &k, d);
        round = round + 1;
    }
    let r = words_to_bytes_exec(&v);
    proof {
        assert(r@ =~= spec_tea_encrypt(data@, key@));
    }
    r
}

/// Decrypt `data` under `key`. Returns `Some` exactly when
/// [`spec_tea_decrypt`]`(data@, key@)` does, with the same bytes.
pub fn tea_decrypt(data: &Vec<u8>, key: &Vec<u8>) -> (r: Option<Vec<u8>>)
    ensures
        match spec_tea_decrypt(data@, key@) {
            Some(s) => r is Some && r->0@ == s,
            None => r is None,
        },
{
    if data.len() == 0 {
        let empty: Vec<u8> = Vec::new();
        proof {
            assert(empty@ =~= Seq::<u8>::empty());
        }
        return Some(empty);
    }
    if data.len() % 4 != 0 || data.len() < 8 {
        return None;
    }
    let mut v = bytes_to_words_exec(data);
    let ghost v0 = v@;
    let k = key_words(key);
    let q = 6 + 52 / v.len();
    let mut d: u32 = 0;
    let mut i: usize = 0;
    while i < q
        invariant
            i <= q,
            d == d_after(0, i as int),
        decreases q - i,
    {
        d = d.wrapping_add(DELTA);
        i = i + 1;
    }
    let ghost dq = d_after(0, q as int);
    let mut round: usize = 0;
    while round < q
        invariant
            v@.len() == v0.len() >= 2,
            k@.len() >= 4,
            round <= q,
            tea_dec_rounds(v@, k@, d, (q - round) as int) == tea_dec_rounds(v0, k@, dq, q as int),
        decreases q - round,
    {
        tea_unround(&mut v, &k, d);
        d = d.wrapping_sub(DELTA);
        round = round + 1;
    }
    let n = v.len() - 1;
    let len_word = v[n];
    proof {
        assert(v@ == tea_dec_rounds(v0, k@, dq, q as int));
    }
    if !(len_word as u64 <= 4 * (n as u64) && 4 * (n as u64) <= len_word as u64 + 3) {
        return None;
    }
    let mut words = v;
    let ghost w = words@;
    words.truncate(n);
    proof {
        assert(words@ =~= w.take(n as int));
        vstd::arithmetic::div_mod::lemma_fundamental_div_mod(data@.len() as int + 3, 4);
        assert(4 * (n as int + 1) <= data@.len() + 3);
        assert(4 * (n as int) <= usize::MAX);
    }
    let all = words_to_bytes_exec(&words);
    let mut out: Vec<u8> = Vec::new();
    let take_len = len_word as usize;
    let mut i2: usize = 0;
    while i2 < take_len
        invariant
            take_len <= all@.len(),
            i2 <= take_len,
            out@ == all@.take(i2 as int),
        decreases take_len - i2,
    {
        let b = all[i2];
        out.push(b);
        proof {
            assert(out@ =~= all@.take(i2 as int + 1));
        }
        i2 = i2 + 1;
    }
    proof {
        assert(out@ =~= words_to_bytes(w.take(n as int)).take(len_word as int));
    }
    Some(out)
}

} // verus!
