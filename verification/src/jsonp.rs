//! The gateway's JSONP response format: a literal `callback(<json>)`
//! wrapper around a JSON object. Unwrapping is verified string logic;
//! reading a string field out of the JSON text goes through serde_json
//! behind trusted items.

use vstd::prelude::*;
use crate::types::NetError;

verus! {

/// Whether serde_json accepts `doc` as a JSON document.
pub uninterp spec fn json_parses(doc: Seq<char>) -> bool;

/// What looking up `key` in the parsed form of `doc` returns: the field's
/// string content when `doc` parses to an object holding a string there,
/// nothing otherwise. A function of the two texts alone.
pub uninterp spec fn json_string_field(doc: Seq<char>, key: Seq<char>) -> Option<Seq<char>>;

/// Relies on serde_json::from_str: whether the text parses.
#[verifier::external_body]
pub(crate) fn json_check(doc: &str) -> (r: bool)
    ensures
        r == json_parses(doc@),
{
    serde_json::from_str::<serde_json::Value>(doc).is_ok()
}

/// Relies on serde_json::from_str and Value::get: the string field at
/// `key`, or nothing when the text does not parse, the key is absent, or
/// the value there is not a string.
#[verifier::external_body]
pub(crate) fn json_field(doc: &str, key: &str) -> (r: Option<String>)
    ensures
        match r {
            Some(s) => json_string_field(doc@, key@) == Some(s@),
            None => json_string_field(doc@, key@) is None,
        },
{
    match serde_json::from_str::<serde_json::Value>(doc) {
        Ok(v) => match v.get(key) {
            Some(serde_json::Value::String(s)) => Some(s.clone()),
            _ => None,
        },
        Err(_) => None,
    }
}

/// The JSONP wrapper's prefix.
pub open spec fn callback_prefix() -> Seq<char> {
    "callback("@
}

/// The inner JSON text of a well-formed JSONP body: what stands between
/// the `callback(` prefix and the closing parenthesis. Nothing when the
/// body is not of that shape.
pub open spec fn spec_unwrap_jsonp(body: Seq<char>) -> Option<Seq<char>> {
    if body.len() >= 10 && body.take(9) == callback_prefix() && body[body.len() - 1] == ')' {
        Some(body.subrange(9, body.len() - 1))
    } else {
        None
    }
}

/// Strip the JSONP wrapper, or report that the body is not of that shape.
pub fn unwrap_jsonp<'a>(body: &'a str) -> (r: Option<&'a str>)
    ensures
        match r {
            Some(inner) => spec_unwrap_jsonp(body@) == Some(inner@),
            None => spec_unwrap_jsonp(body@) is None,
        },
{
    let n = body.unicode_len();
    if n < 10 {
        return None;
    }
    let prefix = "callback(";
    proof {
        reveal_strlit("callback(");
    }
    let mut i: usize = 0;
    while i < 9
        invariant
            i <= 9,
            n == body@.len() >= 10,
            prefix@ == callback_prefix(),
            prefix@.len() == 9,
            forall|j: int| 0 <= j < i ==> body@[j] == callback_prefix()[j],
        decreases 9 - i,
    {
        let c = body.get_char(i);
        let e = prefix.get_char(i);
        if c != e {
            proof {
                assert(body@.take(9)[i as int] != callback_prefix()[i as int]);
            }
            return None;
        }
        i = i + 1;
    }
    let last = body.get_char(n - 1);
    if last != ')' {
        return None;
    }
    proof {
        assert(body@.take(9) =~= callback_prefix());
    }
    let inner = body.substring_char(9, n - 1);
    proof {
        assert(inner@ =~= body@.subrange(9, body@.len() - 1));
    }
    Some(inner)
}

/// What the challenge endpoint's body yields: the `challenge` field when
/// the wrapper and JSON are well-formed, the empty string when the field
/// is absent or not a string, and a decode error when the wrapper or the
/// JSON itself is malformed.
pub open spec fn spec_challenge_of_body(body: Seq<char>) -> Result<Seq<char>, ()> {
    match spec_unwrap_jsonp(body) {
        Some(inner) => if json_parses(inner) {
            match json_string_field(inner, "challenge"@) {
                Some(s) => Ok(s),
                None => Ok(Seq::empty()),
            }
        } else {
            Err(())
        },
        None => Err(()),
    }
}

/// Extract the challenge string from a challenge response body.
pub fn challenge_of_body(body: &str) -> (r: Result<String, NetError>)
    ensures
        match r {
            Ok(s) => spec_challenge_of_body(body@) == Ok::<Seq<char>, ()>(s@),
            Err(e) => spec_challenge_of_body(body@) is Err && e is Decode,
        },
{
    let inner = match unwrap_jsonp(body) {
        Some(inner) => inner,
        None => {
            return Err(NetError::Decode(String::from_str("malformed callback wrapper")));
        },
    };
    if !json_check(inner) {
        return Err(NetError::Decode(String::from_str("malformed json")));
    }
    match json_field(inner, "challenge") {
        Some(s) => Ok(s),
        None => Ok(String::new()),
    }
}

/// What a portal response body decides: `Err` when the wrapper or JSON is
/// malformed; otherwise success exactly when the `error` field is the
/// string `ok`, with the gateway's own message combined from both fields,
/// or a failure with an empty message when either field is missing.
pub open spec fn spec_response_of_body(body: Seq<char>) -> Result<(bool, Seq<char>), ()> {
    match spec_unwrap_jsonp(body) {
        Some(inner) => if json_parses(inner) {
            match (json_string_field(inner, "error"@), json_string_field(inner, "error_msg"@)) {
                (Some(e), Some(m)) => Ok(
                    (e == "ok"@, "error: "@ + e + "; error_msg: "@ + m),
                ),
                _ => Ok((false, Seq::empty())),
            }
        } else {
            Err(())
        },
        None => Err(()),
    }
}

/// The fixed head of every success message: the combined form with the
/// gateway's `ok` code filled in.
pub open spec fn success_prefix() -> Seq<char> {
    "error: "@ + "ok"@ + "; error_msg: "@
}

/// Whether `m` has the shape of a gateway success message: the combined
/// form whose `error` code is the string `ok`.
pub open spec fn success_message(m: Seq<char>) -> bool {
    exists|gm: Seq<char>| m == success_prefix() + gm
}

/// A body that decodes to a success carries a success-shaped message.
pub proof fn lemma_success_message_shape(body: Seq<char>, msg: Seq<char>)
    requires
        spec_response_of_body(body) == Ok::<(bool, Seq<char>), ()>((true, msg)),
    ensures
        success_message(msg),
{
    match spec_unwrap_jsonp(body) {
        Some(inner) => {
            if json_parses(inner) {
                match (json_string_field(inner, "error"@), json_string_field(
                    inner,
                    "error_msg"@,
                )) {
                    (Some(e), Some(m2)) => {
                        assert((e == "ok"@) == true);
                        assert(msg == "error: "@ + e + "; error_msg: "@ + m2);
                        assert(msg =~= success_prefix() + m2);
                    },
                    _ => {
                        assert(false);
                    },
                }
            } else {
                assert(false);
            }
        },
        None => {
            assert(false);
        },
    }
}

/// Decode a portal response body into its success flag and display
/// message.
pub fn parse_response(body: &str) -> (r: Result<(bool, String), NetError>)
    ensures
        match r {
            Ok((suc, msg)) => spec_response_of_body(body@) == Ok::<(bool, Seq<char>), ()>(
                (suc, msg@),
            ),
            Err(e) => spec_response_of_body(body@) is Err && e is Decode,
        },
{
    let inner = match unwrap_jsonp(body) {
        Some(inner) => inner,
        None => {
            return Err(NetError::Decode(String::from_str("malformed callback wrapper")));
        },
    };
    if !json_check(inner) {
        return Err(NetError::Decode(String::from_str("malformed json")));
    }
    let e = json_field(inner, "error");
    let m = json_field(inner, "error_msg");
    match (e, m) {
        (Some(e), Some(m)) => {
            let ok_lit = String::from_str("ok");
            let suc = e == ok_lit;
            proof {
                reveal_strlit("ok");
            }
            let mut msg = String::new();
            msg.append("error: ");
            msg.append(e.as_str());
            msg.append("; error_msg: ");
            msg.append(m.as_str());
            proof {
                assert(suc == (e@ == "ok"@));
                assert(msg@ =~= "error: "@ + e@ + "; error_msg: "@ + m@);
            }
            Ok((suc, msg))
        },
        _ => Ok((false, String::new())),
    }
}

} // verus!
