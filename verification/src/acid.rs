//! Gateway-identifier resolution: a fixed priority list of known-common
//! identifiers, then the caller's previously-successful ones, then live
//! discovery through the probe page's `index_<digits>.html` marker.

use vstd::prelude::*;
use crate::types::NetError;

verus! {

/// The fixed priority list of known-common gateway identifiers.
pub open spec fn spec_fixed_ac_ids() -> Seq<i32> {
    seq![1i32, 25i32, 33i32, 35i32, 37i32]
}

/// The fixed priority list as a vector.
pub fn fixed_ac_ids() -> (r: Vec<i32>)
    ensures
        r@ == spec_fixed_ac_ids(),
{
    let r = vec![1i32, 25i32, 33i32, 35i32, 37i32];
    proof {
        assert(r@ =~= spec_fixed_ac_ids());
    }
    r
}

/// The full candidate order: the fixed list first, then the
/// caller-supplied identifiers, in their stored order.
pub fn candidate_ids(extra: &Vec<i32>) -> (r: Vec<i32>)
    ensures
        r@ == spec_fixed_ac_ids() + extra@,
{
    let mut r = fixed_ac_ids();
    let mut i: usize = 0;
    while i < extra.len()
        invariant
            i <= extra@.len(),
            r@ == spec_fixed_ac_ids() + extra@.take(i as int),
        decreases extra@.len() - i,
    {
        r.push(extra[i]);
        proof {
            assert(spec_fixed_ac_ids() + extra@.take(i as int + 1) =~= (spec_fixed_ac_ids()
                + extra@.take(i as int)).push(extra@[i as int]));
        }
        i = i + 1;
    }
    proof {
        assert(extra@.take(extra@.len() as int) =~= extra@);
    }
    r
}

/// Whether the action `f`, tried on candidate `id`, can have answered
/// with some failure.
pub open spec fn failed_attempt<F: Fn(i32) -> Result<String, NetError>>(f: &F, id: i32) -> bool {
    exists|e: NetError| #[trigger] call_ensures(*f, (id,), Err(e))
}

/// Try the candidates strictly in order and stop at the first success.
///
/// Returns the first success together with the index it came from, or
/// `None` with the candidate count when every candidate failed. The
/// contract pins the order: a success stands at its index, and each
/// earlier candidate was attempted and answered with a failure.
pub fn try_candidates<F: Fn(i32) -> Result<String, NetError>>(cands: &Vec<i32>, f: &F) -> (r: (
    Option<String>,
    usize,
))
    requires
        forall|id: i32| #[trigger] call_requires(*f, (id,)),
    ensures
        r.1 <= cands@.len(),
        match r.0 {
            Some(msg) => r.1 < cands@.len() && call_ensures(*f, (cands@[r.1 as int],), Ok(msg)),
            None => r.1 == cands@.len(),
        },
        forall|j: int| 0 <= j < r.1 ==> #[trigger] failed_attempt(f, cands@[j]),
{
    let mut i: usize = 0;
    while i < cands.len()
        invariant
            i <= cands@.len(),
            forall|id: i32| #[trigger] call_requires(*f, (id,)),
            forall|j: int| 0 <= j < i ==> #[trigger] failed_attempt(f, cands@[j]),
        decreases cands@.len() - i,
    {
        let res = f(cands[i]);
        match res {
            Ok(msg) => {
                return (Some(msg), i);
            },
            Err(e) => {
                proof {
                    assert(call_ensures(*f, (cands@[i as int],), Err(e)));
                    assert(failed_attempt(f, cands@[i as int]));
                }
            },
        }
        i = i + 1;
    }
    (None, i)
}

/// What the discovery pattern finds in a probe page: the digits of the
/// first `/index_<digits>.html` marker, or nothing. A function of the
/// page text alone.
pub uninterp spec fn ac_id_digits_of(body: Seq<char>) -> Option<Seq<char>>;

/// Relies on regex::Regex::captures with the fixed pattern
/// `/index_([0-9]+)\.html`: the first capture is the marker's digit run,
/// so it is non-empty and holds decimal digits only. The fallback arm for
/// a failed pattern compilation is unreachable for this fixed pattern.
#[verifier::external_body]
pub(crate) fn find_index_digits(body: &str) -> (r: Option<String>)
    ensures
        match r {
            Some(s) => ac_id_digits_of(body@) == Some(s@) && s@.len() >= 1 && (forall|i: int|
                0 <= i < s@.len() ==> '0' <= #[trigger] s@[i] <= '9'),
            None => ac_id_digits_of(body@) is None,
        },
{
    let re = match regex::Regex::new("/index_([0-9]+)\\.html") {
        Ok(re) => re,
        Err(_) => return None,
    };
    re.captures(body).map(|cap| cap[1].to_string())
}

/// Decode a probe page into a gateway identifier: the digits of the
/// first marker, when they fit the identifier range. `None` when the
/// page has no marker or the digits overflow.
pub fn ac_id_of_body(body: &str) -> (r: Option<i32>)
    ensures
        ac_id_digits_of(body@) is None ==> r is None,
        ac_id_digits_of(body@) matches Some(ds) ==> match r {
            Some(v) => v as int == digits_val(ds) && digits_val(ds) <= i32::MAX,
            None => digits_val(ds) > i32::MAX,
        },
{
    match find_index_digits(body) {
        Some(digits) => parse_ac_id(digits.as_str()),
        None => None,
    }
}

/// The numeric value of a run of decimal digits, most significant first.
pub open spec fn digits_val(s: Seq<char>) -> int
    decreases s.len(),
{
    if s.len() == 0 {
        0
    } else {
        digits_val(s.take(s.len() - 1)) * 10 + (s.last() as u32 as int - '0' as u32 as int)
    }
}

/// Parse a digit run into an identifier; `None` exactly when the value
/// does not fit a 32-bit signed integer.
pub fn parse_ac_id(digits: &str) -> (r: Option<i32>)
    requires
        digits@.len() >= 1,
        forall|i: int| 0 <= i < digits@.len() ==> '0' <= #[trigger] digits@[i] <= '9',
    ensures
        match r {
            Some(v) => v as int == digits_val(digits@) && digits_val(digits@) <= i32::MAX,
            None => digits_val(digits@) > i32::MAX,
        },
{
    let n = digits.unicode_len();
    let mut acc: i64 = 0;
    let mut i: usize = 0;
    while i < n
        invariant
            i <= n,
            n == digits@.len(),
            forall|j: int| 0 <= j < digits@.len() ==> '0' <= #[trigger] digits@[j] <= '9',
            acc as int == digits_val(digits@.take(i as int)),
            0 <= acc <= i32::MAX,
        decreases n - i,
    {
        let c = digits.get_char(i);
        let d = (c as u32) - ('0' as u32);
        proof {
            assert(d <= 9);
            assert(digits@.take(i as int + 1).last() == digits@[i as int]);
            assert(digits@.take(i as int + 1).take(i as int) =~= digits@.take(i as int));
        }
        let next = acc * 10 + (d as i64);
        if next > (i32::MAX as i64) {
            proof {
                lemma_digits_val_grows(digits@, i as int + 1);
            }
            return None;
        }
        acc = next;
        i = i + 1;
    }
    proof {
        assert(digits@.take(n as int) =~= digits@);
    }
    Some(acc as i32)
}

/// The value of a digit run never shrinks as digits are appended.
proof fn lemma_digits_val_grows(s: Seq<char>, from: int)
    requires
        0 <= from <= s.len(),
        forall|i: int| 0 <= i < s.len() ==> '0' <= #[trigger] s[i] <= '9',
    ensures
        digits_val(s) >= digits_val(s.take(from)),
        digits_val(s.take(from)) >= 0,
    decreases s.len() - from,
{
    lemma_digits_val_nonneg(s.take(from));
    if from >= s.len() {
        assert(s.take(from) =~= s);
    }
    if from < s.len() {
        lemma_digits_val_grows(s, from + 1);
        assert(s.take(from + 1).take(from) =~= s.take(from));
        assert(s.take(from + 1).last() == s[from]);
        assert(digits_val(s.take(from + 1)) == digits_val(s.take(from)) * 10 + (
        s[from] as u32 as int - '0' as u32 as int));
        assert(s[from] as u32 >= '0' as u32);
    }
}

/// Digit runs have non-negative values.
proof fn lemma_digits_val_nonneg(s: Seq<char>)
    requires
        forall|i: int| 0 <= i < s.len() ==> '0' <= #[trigger] s[i] <= '9',
    ensures
        digits_val(s) >= 0,
    decreases s.len(),
{
    if s.len() > 0 {
        assert(forall|i: int| 0 <= i < s.len() - 1 ==> '0' <= #[trigger] s.take(s.len() - 1)[i] <= '9');
        lemma_digits_val_nonneg(s.take(s.len() - 1));
        assert(s.last() as u32 >= '0' as u32);
    }
}

} // verus!
