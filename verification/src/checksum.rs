//! The request checksum: an ordered field concatenation, separated by the
//! raw challenge token, digested with SHA-1 and hex-encoded.
//!
//! The field order is an exact wire-format requirement: challenge,
//! username, challenge, the password hash when the operation is a login,
//! challenge, the info envelope, a doubled challenge around the literal
//! `200`, the literal `1`, and finally the gateway identifier in decimal.

use vstd::prelude::*;
use crate::digest::{sha1_digest, sha1_of};
use crate::strutil::{push_dec_i32, push_hex, spec_dec, spec_dec_signed, spec_hex, dec_digit};

verus! {

/// A view of an optional string slice.
pub open spec fn opt_view(o: Option<&str>) -> Option<Seq<char>> {
    match o {
        Some(p) => Some(p@),
        None => None,
    }
}

/// The exact string the checksum is taken over. The password hash is
/// present exactly for a login; every separator is the raw challenge.
pub open spec fn spec_checksum_input(
    c: Seq<char>,
    u: Seq<char>,
    phex: Option<Seq<char>>,
    info: Seq<char>,
    acid: int,
) -> Seq<char> {
    c + u + c + (match phex {
        Some(p) => p + c,
        None => Seq::empty(),
    }) + info + c + c + "200"@ + c + "1"@ + c + spec_dec_signed(acid)
}

/// Build the checksum input string.
pub fn checksum_input(
    challenge: &str,
    username: &str,
    password_hex: Option<&str>,
    info: &str,
    ac_id: i32,
) -> (r: String)
    ensures
        r@ == spec_checksum_input(
            challenge@,
            username@,
            opt_view(password_hex),
            info@,
            ac_id as int,
        ),
{
    let mut r = String::new();
    r.append(challenge);
    r.append(username);
    r.append(challenge);
    match password_hex {
        Some(p) => {
            r.append(p);
            r.append(challenge);
        },
        None => {},
    }
    r.append(info);
    r.append(challenge);
    r.append(challenge);
    r.append("200");
    r.append(challenge);
    r.append("1");
    r.append(challenge);
    push_dec_i32(&mut r, ac_id);
    proof {
        assert(r@ =~= spec_checksum_input(
            challenge@,
            username@,
            opt_view(password_hex),
            info@,
            ac_id as int,
        ));
    }
    r
}

/// The transmitted checksum: the SHA-1 hex digest of the field
/// concatenation. Purely a function of (challenge, username, password
/// hash or its absence, info, identifier): equal inputs give the equal
/// string, and by [`lemma_checksum_acid_distinct`] two identifiers never
/// digest the same input.
pub fn checksum_hex(
    challenge: &str,
    username: &str,
    password_hex: Option<&str>,
    info: &str,
    ac_id: i32,
) -> (r: String)
    ensures
        r@ == spec_hex(
            sha1_of(
                spec_checksum_input(
                    challenge@,
                    username@,
                    opt_view(password_hex),
                    info@,
                    ac_id as int,
                ),
            ),
        ),
{
    let input = checksum_input(challenge, username, password_hex, info, ac_id);
    let digest = sha1_digest(input.as_str());
    let mut out = String::new();
    push_hex(&mut out, &digest);
    proof {
        assert(out@ =~= spec_hex(digest@));
    }
    out
}

/// The decimal rendering has at least one character, two from ten up.
proof fn lemma_dec_len(n: int)
    requires
        0 <= n,
    ensures
        spec_dec(n).len() >= 1,
        n >= 10 ==> spec_dec(n).len() >= 2,
    decreases n,
{
    if n >= 10 {
        lemma_dec_len(n / 10);
    }
}

/// Distinct non-negative integers render to distinct decimal strings.
proof fn lemma_dec_injective(m: int, n: int)
    requires
        0 <= m,
        0 <= n,
        m != n,
    ensures
        spec_dec(m) != spec_dec(n),
    decreases m + n,
{
    if m < 10 && n < 10 {
        assert(dec_digit(m) != dec_digit(n));
        assert(spec_dec(m)[0] == dec_digit(m));
        assert(spec_dec(n)[0] == dec_digit(n));
    } else if m < 10 {
        lemma_dec_len(n);
        assert(spec_dec(m).len() == 1);
    } else if n < 10 {
        lemma_dec_len(m);
        assert(spec_dec(n).len() == 1);
    } else {
        let lm = spec_dec(m);
        let ln = spec_dec(n);
        assert(lm == spec_dec(m / 10) + seq![dec_digit(m % 10)]);
        assert(ln == spec_dec(n / 10) + seq![dec_digit(n % 10)]);
        if m % 10 != n % 10 {
            assert(lm.last() == dec_digit(m % 10));
            assert(ln.last() == dec_digit(n % 10));
            assert(dec_digit(m % 10) != dec_digit(n % 10));
        } else {
            assert(m / 10 != n / 10);
            lemma_dec_injective(m / 10, n / 10);
            if lm == ln {
                lemma_dec_len(m / 10);
                lemma_dec_len(n / 10);
                assert(lm.len() == ln.len());
                assert(spec_dec(m / 10) =~= lm.subrange(0, lm.len() - 1));
                assert(spec_dec(n / 10) =~= ln.subrange(0, ln.len() - 1));
            }
        }
    }
}

/// A decimal rendering never starts with the minus sign.
proof fn lemma_dec_first_not_minus(n: int)
    requires
        0 <= n,
    ensures
        spec_dec(n).len() >= 1,
        spec_dec(n)[0] != '-',
    decreases n,
{
    if n < 10 {
        assert(dec_digit(n) != '-');
    } else {
        lemma_dec_first_not_minus(n / 10);
        assert(spec_dec(n)[0] == spec_dec(n / 10)[0]);
    }
}

/// Distinct integers render to distinct signed decimal strings.
pub proof fn lemma_dec_signed_injective(m: int, n: int)
    requires
        m != n,
    ensures
        spec_dec_signed(m) != spec_dec_signed(n),
{
    if m < 0 && n < 0 {
        lemma_dec_injective(-m, -n);
        let sm = spec_dec_signed(m);
        let sn = spec_dec_signed(n);
        if sm == sn {
            assert(spec_dec(-m) =~= sm.subrange(1, sm.len() as int));
            assert(spec_dec(-n) =~= sn.subrange(1, sn.len() as int));
        }
    } else if m < 0 {
        lemma_dec_first_not_minus(n);
        assert(spec_dec_signed(m)[0] == '-');
    } else if n < 0 {
        lemma_dec_first_not_minus(m);
        assert(spec_dec_signed(n)[0] == '-');
    } else {
        lemma_dec_injective(m, n);
    }
}

/// Changing the gateway identifier alone changes the checksum input: the
/// two digested strings differ, so the checksums agree only under a SHA-1
/// collision, which this protocol treats as impossible.
pub proof fn lemma_checksum_acid_distinct(
    c: Seq<char>,
    u: Seq<char>,
    phex: Option<Seq<char>>,
    info: Seq<char>,
    a1: int,
    a2: int,
)
    requires
        a1 != a2,
    ensures
        spec_checksum_input(c, u, phex, info, a1) != spec_checksum_input(c, u, phex, info, a2),
{
    lemma_dec_signed_injective(a1, a2);
    let s1 = spec_checksum_input(c, u, phex, info, a1);
    let s2 = spec_checksum_input(c, u, phex, info, a2);
    let prefix = c + u + c + (match phex {
        Some(p) => p + c,
        None => Seq::empty(),
    }) + info + c + c + "200"@ + c + "1"@ + c;
    assert(s1 =~= prefix + spec_dec_signed(a1));
    assert(s2 =~= prefix + spec_dec_signed(a2));
    if s1 == s2 {
        assert(s1.len() == s2.len());
        assert(spec_dec_signed(a1).len() == spec_dec_signed(a2).len());
        assert(spec_dec_signed(a1) =~= s1.subrange(prefix.len() as int, s1.len() as int));
        assert(spec_dec_signed(a2) =~= s2.subrange(prefix.len() as int, s2.len() as int));
    }
}

} // verus!
