//! The encrypted credential envelope: the plain JSON payload document,
//! its encryption under the challenge-derived key, and the tagged
//! custom-base64 encoding that forms the `info` field.
//!
//! The payload document is rendered with the keys in fixed (sorted)
//! order and with standard JSON string escaping, so the byte stream fed
//! to the cipher is pinned exactly.

use vstd::prelude::*;
use vstd::utf8::encode_utf8;
use crate::base64::{base64, spec_base64};
use crate::checksum::opt_view;
use crate::cipher::{spec_tea_encrypt, tea_encrypt};
use crate::strutil::{hex_digit, push_dec_i32, spec_dec_signed};

verus! {

/// The JSON escape of one character: quote and backslash get a backslash,
/// the five short control escapes their letter, every other control
/// character a `\u00` hex form, and everything else stands as itself.
pub open spec fn json_escape_char(c: char) -> Seq<char> {
    if c == '"' {
        seq!['\\', '"']
    } else if c == '\\' {
        seq!['\\', '\\']
    } else if c == '\u{8}' {
        seq!['\\', 'b']
    } else if c == '\u{9}' {
        seq!['\\', 't']
    } else if c == '\u{a}' {
        seq!['\\', 'n']
    } else if c == '\u{c}' {
        seq!['\\', 'f']
    } else if c == '\u{d}' {
        seq!['\\', 'r']
    } else if (c as u32) < 0x20 {
        seq!['\\', 'u', '0', '0', hex_digit((c as u32) as int / 16), hex_digit((c as u32) as int % 16)]
    } else {
        seq![c]
    }
}

/// The JSON escape of a whole string, character by character.
pub open spec fn json_escaped(s: Seq<char>) -> Seq<char>
    decreases s.len(),
{
    if s.len() == 0 {
        Seq::empty()
    } else {
        json_escape_char(s[0]) + json_escaped(s.skip(1))
    }
}

/// Escaping distributes over appending one character at the end.
pub proof fn lemma_json_escaped_push(s: Seq<char>, c: char)
    ensures
        json_escaped(s.push(c)) == json_escaped(s) + json_escape_char(c),
    decreases s.len(),
{
    if s.len() == 0 {
        assert(s.push(c)[0] == c);
        assert(s.push(c).skip(1) =~= Seq::<char>::empty());
        assert(json_escaped(s.push(c)) == json_escape_char(s.push(c)[0]) + json_escaped(
            s.push(c).skip(1),
        ));
        assert(json_escaped(Seq::<char>::empty()) == Seq::<char>::empty());
        assert(json_escape_char(c) + Seq::<char>::empty() =~= json_escape_char(c));
        assert(json_escaped(s) + json_escape_char(c) =~= json_escape_char(c));
    } else {
        assert(s.push(c).skip(1) =~= s.skip(1).push(c));
        lemma_json_escaped_push(s.skip(1), c);
        assert(s.push(c)[0] == s[0]);
        assert(json_escaped(s.push(c)) == json_escape_char(s[0]) + json_escaped(s.skip(1).push(c)));
        assert(json_escape_char(s[0]) + (json_escaped(s.skip(1)) + json_escape_char(c)) =~= (
        json_escape_char(s[0]) + json_escaped(s.skip(1))) + json_escape_char(c));
    }
}

/// Append the JSON escape of `s` to `out`.
pub fn append_json_escaped(out: &mut String, s: &str)
    ensures
        final(out)@ == old(out)@ + json_escaped(s@),
{
    let n = s.unicode_len();
    let table = "0123456789abcdef";
    proof {
        reveal_strlit("0123456789abcdef");
        assert(table@ =~= crate::strutil::hex_digits());
        assert(s@.take(0) =~= Seq::<char>::empty());
        assert(s@.subrange(0, 0) =~= Seq::<char>::empty());
        assert(old(out)@ + Seq::<char>::empty() =~= old(out)@);
    }
    let mut i: usize = 0;
    let mut start: usize = 0;
    while i < n
        invariant
            start <= i <= n,
            n == s@.len(),
            table@ == crate::strutil::hex_digits(),
            out@ + json_escaped(s@.subrange(start as int, i as int)) == old(out)@ + json_escaped(
                s@.take(i as int),
            ),
            forall|j: int|
                start <= j < i ==> json_escape_char(s@[j]) == seq![s@[j]],
        decreases n - i,
    {
        let c = s.get_char(i);
        let ghost pre = s@.take(i as int);
        proof {
            assert(pre.push(c) =~= s@.take(i as int + 1));
            lemma_json_escaped_push(pre, c);
        }
        if c == '"' || c == '\\' || (c as u32) < 0x20 {
            let run = s.substring_char(start, i);
            out.append(run);
            proof {
                let plain = s@.subrange(start as int, i as int);
                lemma_plain_escape(plain, s@, start as int, i as int);
                assert(out@ =~= old(out)@ + json_escaped(pre));
            }
            if c == '"' {
                out.append("\\\"");
                proof {
                    reveal_strlit("\\\"");
                    assert("\\\""@ =~= json_escape_char('"'));
                }
            } else if c == '\\' {
                out.append("\\\\");
                proof {
                    reveal_strlit("\\\\");
                    assert("\\\\"@ =~= json_escape_char('\\'));
                }
            } else if c == '\u{8}' {
                out.append("\\b");
                proof {
                    reveal_strlit("\\b");
                    assert("\\b"@ =~= json_escape_char('\u{8}'));
                }
            } else if c == '\u{9}' {
                out.append("\\t");
                proof {
                    reveal_strlit("\\t");
                    assert("\\t"@ =~= json_escape_char('\u{9}'));
                }
            } else if c == '\u{a}' {
                out.append("\\n");
                proof {
                    reveal_strlit("\\n");
                    assert("\\n"@ =~= json_escape_char('\u{a}'));
                }
            } else if c == '\u{c}' {
                out.append("\\f");
                proof {
                    reveal_strlit("\\f");
                    assert("\\f"@ =~= json_escape_char('\u{c}'));
                }
            } else if c == '\u{d}' {
                out.append("\\r");
                proof {
                    reveal_strlit("\\r");
                    assert("\\r"@ =~= json_escape_char('\u{d}'));
                }
            } else {
                out.append("\\u00");
                let v = c as u32;
                let hi = (v / 16) as usize;
                let lo = (v % 16) as usize;
                let ch = table.substring_char(hi, hi + 1);
                out.append(ch);
                let cl = table.substring_char(lo, lo + 1);
                out.append(cl);
                proof {
                    reveal_strlit("\\u00");
                    assert(ch@ =~= seq![hex_digit(v as int / 16)]);
                    assert(cl@ =~= seq![hex_digit(v as int % 16)]);
                    assert("\\u00"@ + ch@ + cl@ =~= json_escape_char(c));
                }
            }
            proof {
                assert(out@ =~= old(out)@ + json_escaped(s@.take(i as int + 1)));
                assert(s@.subrange(i as int + 1, i as int + 1) =~= Seq::<char>::empty());
                assert(out@ + json_escaped(s@.subrange(i as int + 1, i as int + 1)) =~= out@);
            }
            start = i + 1;
        } else {
            proof {
                assert(json_escape_char(c) == seq![c]);
                let plain0 = s@.subrange(start as int, i as int);
                let plain1 = s@.subrange(start as int, i as int + 1);
                assert(plain1 =~= plain0.push(c));
                lemma_json_escaped_push(plain0, c);
                assert(out@ + json_escaped(plain1) =~= out@ + json_escaped(plain0) + seq![c]);
                assert(old(out)@ + json_escaped(s@.take(i as int + 1)) =~= old(out)@ + json_escaped(
                    pre,
                ) + seq![c]);
            }
        }
        i = i + 1;
    }
    let run = s.substring_char(start, n);
    out.append(run);
    proof {
        let plain = s@.subrange(start as int, n as int);
        lemma_plain_escape(plain, s@, start as int, n as int);
        assert(s@.take(n as int) =~= s@);
        assert(final(out)@ =~= old(out)@ + json_escaped(s@));
    }
}

/// A run of characters that escape to themselves escapes to itself.
proof fn lemma_plain_escape(plain: Seq<char>, s: Seq<char>, start: int, end: int)
    requires
        0 <= start <= end <= s.len(),
        plain == s.subrange(start, end),
        forall|j: int| start <= j < end ==> json_escape_char(s[j]) == seq![s[j]],
    ensures
        json_escaped(plain) == plain,
    decreases end - start,
{
    if start < end {
        assert(plain[0] == s[start]);
        assert(plain.skip(1) =~= s.subrange(start + 1, end));
        lemma_plain_escape(plain.skip(1), s, start + 1, end);
        assert(json_escaped(plain) == json_escape_char(plain[0]) + json_escaped(plain.skip(1)));
        assert(seq![s[start]] + s.subrange(start + 1, end) =~= plain);
    } else {
        assert(plain =~= Seq::<char>::empty());
    }
}

/// The payload document: keys in fixed sorted order, the password field
/// present exactly for a login, strings JSON-escaped.
pub open spec fn spec_payload_json(u: Seq<char>, p: Option<Seq<char>>, acid: int) -> Seq<char> {
    "{\"acid\":"@ + spec_dec_signed(acid) + ",\"enc_ver\":\"srun_bx1\",\"ip\":\"\""@ + (match p {
        Some(pw) => ",\"password\":\""@ + json_escaped(pw) + "\""@,
        None => Seq::empty(),
    }) + ",\"username\":\""@ + json_escaped(u) + "\"}"@
}

/// Render the payload document.
pub fn payload_json(username: &str, password: Option<&str>, ac_id: i32) -> (r: String)
    ensures
        r@ == spec_payload_json(username@, opt_view(password), ac_id as int),
{
    let mut r = String::new();
    r.append("{\"acid\":");
    push_dec_i32(&mut r, ac_id);
    r.append(",\"enc_ver\":\"srun_bx1\",\"ip\":\"\"");
    match password {
        Some(pw) => {
            r.append(",\"password\":\"");
            append_json_escaped(&mut r, pw);
            r.append("\"");
        },
        None => {},
    }
    r.append(",\"username\":\"");
    append_json_escaped(&mut r, username);
    r.append("\"}");
    proof {
        assert(r@ =~= spec_payload_json(username@, opt_view(password), ac_id as int));
    }
    r
}

/// Whether the payload and key fit the cipher's machine limits: the
/// length word must fit 32 bits and the buffers the address space.
pub open spec fn payload_fits(u: Seq<char>, p: Option<Seq<char>>, acid: int, c: Seq<char>) -> bool {
    let d = encode_utf8(spec_payload_json(u, p, acid));
    d.len() < 0x100000000 && d.len() + 7 <= usize::MAX
}

/// The `info` field value: the tag, then the encrypted payload in the
/// custom base64 alphabet.
pub open spec fn spec_info(u: Seq<char>, p: Option<Seq<char>>, acid: int, c: Seq<char>) -> Seq<
    char,
> {
    "{SRBX1}"@ + spec_base64(
        spec_tea_encrypt(encode_utf8(spec_payload_json(u, p, acid)), encode_utf8(c)),
    )
}

/// Build the `info` field: render the payload, encrypt it under the
/// challenge bytes, encode, and tag. `None` exactly when the rendered
/// payload is too large for the cipher's length word or address space.
pub fn build_info(username: &str, password: Option<&str>, ac_id: i32, challenge: &str) -> (r:
    Option<String>)
    ensures
        match r {
            Some(s) => s@ == spec_info(
                username@,
                opt_view(password),
                ac_id as int,
                challenge@,
            ) && payload_fits(username@, opt_view(password), ac_id as int, challenge@),
            None => !payload_fits(username@, opt_view(password), ac_id as int, challenge@),
        },
{
    let json = payload_json(username, password, ac_id);
    let data = json.as_str().as_bytes_vec();
    let key = challenge.as_bytes_vec();
    if !((data.len() as u64) < 0x100000000u64 && data.len() <= usize::MAX - 7) {
        return None;
    }
    let enc = tea_encrypt(&data, &key);
    let encoded = base64(&enc);
    let mut r = String::new();
    r.append("{SRBX1}");
    r.append(encoded.as_str());
    proof {
        assert(r@ =~= spec_info(username@, opt_view(password), ac_id as int, challenge@));
    }
    Some(r)
}

} // verus!
