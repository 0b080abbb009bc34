//! The protocol engine: one login or logout handshake against one
//! gateway variant, and the traffic-query endpoint selection.
//!
//! Everything that can be pinned down without the network is verified
//! exactly: the request URLs, the transmitted password field, the form
//! field list and its order, and the decoding of every response body.
//! What the gateway answers is not promised; the candidate loop's order
//! is (see [`crate::acid::try_candidates`]).

use vstd::prelude::*;
use crate::acid::{ac_id_of_body, candidate_ids, failed_attempt, try_candidates};
use crate::checksum::{checksum_hex, opt_view, spec_checksum_input};
use crate::digest::{hmac_md5_digest, hmac_md5_of, sha1_of};
use crate::envelope::{build_info, payload_fits, spec_info};
use crate::http::{http_get, http_post_form};
use crate::jsonp::{challenge_of_body, lemma_success_message_shape, parse_response, success_message};
use crate::strutil::{dec_i32, hex_string, push_dec_i32, spec_dec_signed, spec_hex};
use crate::types::{NetCredential, NetError};

verus! {

/// The challenge endpoint for a gateway variant and user.
pub open spec fn spec_challenge_url(ver: int, u: Seq<char>) -> Seq<char> {
    "https://auth"@ + spec_dec_signed(ver) + ".tsinghua.edu.cn/cgi-bin/get_challenge?username="@
        + u + "&double_stack=1&ip&callback=callback"@
}

/// The portal endpoint for a gateway variant.
pub open spec fn spec_portal_url(ver: int) -> Seq<char> {
    "https://auth"@ + spec_dec_signed(ver) + ".tsinghua.edu.cn/cgi-bin/srun_portal"@
}

/// The traffic-query endpoint for a gateway variant.
pub open spec fn spec_flux_url(ver: int) -> Seq<char> {
    "https://auth"@ + spec_dec_signed(ver) + ".tsinghua.edu.cn/rad_user_info.php"@
}

/// Build the challenge URL.
pub fn challenge_url(ver: i32, username: &str) -> (r: String)
    ensures
        r@ == spec_challenge_url(ver as int, username@),
{
    let mut r = String::new();
    r.append("https://auth");
    push_dec_i32(&mut r, ver);
    r.append(".tsinghua.edu.cn/cgi-bin/get_challenge?username=");
    r.append(username);
    r.append("&double_stack=1&ip&callback=callback");
    proof {
        assert(r@ =~= spec_challenge_url(ver as int, username@));
    }
    r
}

/// Build the portal URL.
pub fn portal_url(ver: i32) -> (r: String)
    ensures
        r@ == spec_portal_url(ver as int),
{
    let mut r = String::new();
    r.append("https://auth");
    push_dec_i32(&mut r, ver);
    r.append(".tsinghua.edu.cn/cgi-bin/srun_portal");
    proof {
        assert(r@ =~= spec_portal_url(ver as int));
    }
    r
}

/// Build the traffic-query URL.
pub fn flux_url(ver: i32) -> (r: String)
    ensures
        r@ == spec_flux_url(ver as int),
{
    let mut r = String::new();
    r.append("https://auth");
    push_dec_i32(&mut r, ver);
    r.append(".tsinghua.edu.cn/rad_user_info.php");
    proof {
        assert(r@ =~= spec_flux_url(ver as int));
    }
    r
}

/// The views of a form field list.
pub open spec fn params_view(v: Seq<(String, String)>) -> Seq<(Seq<char>, Seq<char>)> {
    v.map_values(|p: (String, String)| (p.0@, p.1@))
}

/// The exact form field list of a portal submission, in wire order:
/// action, identifier, the fixed double-stack and n/type flags, username,
/// the password field for a login only, info, checksum, callback marker.
pub open spec fn spec_portal_params(
    is_login: bool,
    acid: int,
    u: Seq<char>,
    pfield: Option<Seq<char>>,
    info: Seq<char>,
    chksum: Seq<char>,
) -> Seq<(Seq<char>, Seq<char>)> {
    seq![
        ("action"@, if is_login {
            "login"@
        } else {
            "logout"@
        }),
        ("ac_id"@, spec_dec_signed(acid)),
        ("double_stack"@, "1"@),
        ("n"@, "200"@),
        ("type"@, "1"@),
        ("username"@, u),
    ] + (match pfield {
        Some(p) => seq![("password"@, p)],
        None => Seq::empty(),
    }) + seq![("info"@, info), ("chksum"@, chksum), ("callback"@, "callback"@)]
}

/// A view of an optional owned string.
pub open spec fn opt_string_view(o: &Option<String>) -> Option<Seq<char>> {
    match o {
        Some(p) => Some(p@),
        None => None,
    }
}

/// Build the portal form fields.
pub fn build_portal_params(
    is_login: bool,
    ac_id: i32,
    username: &str,
    pfield: Option<String>,
    info: String,
    chksum: String,
) -> (r: Vec<(String, String)>)
    ensures
        params_view(r@) == spec_portal_params(
            is_login,
            ac_id as int,
            username@,
            opt_string_view(&pfield),
            info@,
            chksum@,
        ),
{
    let mut r: Vec<(String, String)> = Vec::new();
    let action = if is_login {
        String::from_str("login")
    } else {
        String::from_str("logout")
    };
    r.push((String::from_str("action"), action));
    r.push((String::from_str("ac_id"), dec_i32(ac_id)));
    r.push((String::from_str("double_stack"), String::from_str("1")));
    r.push((String::from_str("n"), String::from_str("200")));
    r.push((String::from_str("type"), String::from_str("1")));
    r.push((String::from_str("username"), String::from_str(username)));
    match pfield {
        Some(p) => {
            r.push((String::from_str("password"), p));
        },
        None => {},
    }
    r.push((String::from_str("info"), info));
    r.push((String::from_str("chksum"), chksum));
    r.push((String::from_str("callback"), String::from_str("callback")));
    proof {
        assert(params_view(r@) =~= spec_portal_params(
            is_login,
            ac_id as int,
            username@,
            opt_string_view(&pfield),
            info@,
            chksum@,
        ));
    }
    r
}

/// What one identifier attempt may answer: a success carries a
/// success-shaped gateway message, and a failure is never the
/// identifier-exhaustion error, which only the search itself may raise.
pub open spec fn attempt_contract<F: Fn(i32) -> Result<String, NetError>>(f: &F) -> bool {
    forall|id: i32, out: Result<String, NetError>|
        #[trigger] call_ensures(*f, (id,), out) ==> ((out matches Ok(m) ==> success_message(m@))
            && (out matches Err(e) ==> !(e is NoAcId)))
}

/// Whether every identifier in `cands` was attempted and answered with
/// some failure.
pub open spec fn all_candidates_failed<F: Fn(i32) -> Result<String, NetError>>(
    f: &F,
    cands: Seq<i32>,
) -> bool {
    forall|j: int| 0 <= j < cands.len() ==> #[trigger] failed_attempt(f, cands[j])
}

/// The transmitted password field: the tag, then the password's HMAC-MD5
/// digest in hex.
pub open spec fn spec_password_field(password: Seq<char>) -> Seq<char> {
    "{MD5}"@ + spec_hex(hmac_md5_of(password))
}

/// The bare hex digest retained for the checksum.
pub open spec fn spec_password_hex(password: Seq<char>) -> Seq<char> {
    spec_hex(hmac_md5_of(password))
}

/// Compute the bare password hash hex.
pub fn password_hex(password: &str) -> (r: String)
    ensures
        r@ == spec_password_hex(password@),
{
    let digest = hmac_md5_digest(password);
    hex_string(&digest)
}

/// Compute the transmitted password field.
pub fn password_field(password: &str) -> (r: String)
    ensures
        r@ == spec_password_field(password@),
{
    let hex = password_hex(password);
    let mut r = String::new();
    r.append("{MD5}");
    r.append(hex.as_str());
    proof {
        assert(r@ =~= spec_password_field(password@));
    }
    r
}

/// The whole form field list of one attempt, given the challenge: the
/// envelope, the password hash, the checksum over them, all in wire
/// order.
pub open spec fn spec_submission(
    u: Seq<char>,
    p: Seq<char>,
    acid: int,
    c: Seq<char>,
    is_login: bool,
) -> Seq<(Seq<char>, Seq<char>)> {
    let pw = if is_login {
        Some(p)
    } else {
        None
    };
    let info = spec_info(u, pw, acid, c);
    let phex = if is_login {
        Some(spec_password_hex(p))
    } else {
        None
    };
    let pfield = if is_login {
        Some(spec_password_field(p))
    } else {
        None
    };
    spec_portal_params(
        is_login,
        acid,
        u,
        pfield,
        info,
        spec_hex(sha1_of(spec_checksum_input(c, u, phex, info, acid))),
    )
}

/// Build the full submission for one attempt. `None` exactly when the
/// rendered payload overruns the cipher's machine limits.
pub fn build_submission(
    username: &str,
    password: &str,
    ac_id: i32,
    challenge: &str,
    is_login: bool,
) -> (r: Option<Vec<(String, String)>>)
    ensures
        ({
            let pw = if is_login {
                Some(password@)
            } else {
                None
            };
            match r {
                Some(params) => params_view(params@) == spec_submission(
                    username@,
                    password@,
                    ac_id as int,
                    challenge@,
                    is_login,
                ) && payload_fits(username@, pw, ac_id as int, challenge@),
                None => !payload_fits(username@, pw, ac_id as int, challenge@),
            }
        }),
{
    let password_opt: Option<&str> = if is_login {
        Some(password)
    } else {
        None
    };
    let info = match build_info(username, password_opt, ac_id, challenge) {
        Some(i) => i,
        None => {
            return None;
        },
    };
    let phex: Option<String> = if is_login {
        Some(password_hex(password))
    } else {
        None
    };
    let phex_ref: Option<&str> = match &phex {
        Some(h) => Some(h.as_str()),
        None => None,
    };
    let chksum = checksum_hex(challenge, username, phex_ref, info.as_str(), ac_id);
    let pfield: Option<String> = if is_login {
        Some(password_field(password))
    } else {
        None
    };
    let params = build_portal_params(is_login, ac_id, username, pfield, info, chksum);
    proof {
        assert(params_view(params@) =~= spec_submission(
            username@,
            password@,
            ac_id as int,
            challenge@,
            is_login,
        ));
    }
    Some(params)
}

/// The engine for one gateway variant: a credential, a transport, the
/// variant number, and the caller's previously-successful identifiers.
pub struct AuthConnect<'a> {
    credential: NetCredential,
    client: &'a reqwest::blocking::Client,
    ver: i32,
    additional_ac_ids: &'a [i32],
}

impl<'a> AuthConnect<'a> {
    /// The user this engine logs in.
    pub closed spec fn spec_username(&self) -> Seq<char> {
        self.credential.username@
    }

    /// The password this engine logs in with.
    pub closed spec fn spec_password(&self) -> Seq<char> {
        self.credential.password@
    }

    /// The gateway variant, 4 or 6.
    pub closed spec fn spec_ver(&self) -> int {
        self.ver as int
    }

    /// The caller-supplied previously-successful identifiers.
    pub closed spec fn spec_extra_ids(&self) -> Seq<i32> {
        self.additional_ac_ids@
    }

    /// An engine against the IPv4 portal.
    pub fn from_cred_client(
        u: String,
        p: String,
        client: &'a reqwest::blocking::Client,
        ac_ids: &'a [i32],
    ) -> (r: Self)
        ensures
            r.spec_username() == u@,
            r.spec_password() == p@,
            r.spec_ver() == 4,
            r.spec_extra_ids() == ac_ids@,
    {
        Self::from_cred_client_v(u, p, client, 4, ac_ids)
    }

    /// An engine against the IPv6 portal.
    pub fn from_cred_client_v6(
        u: String,
        p: String,
        client: &'a reqwest::blocking::Client,
        ac_ids: &'a [i32],
    ) -> (r: Self)
        ensures
            r.spec_username() == u@,
            r.spec_password() == p@,
            r.spec_ver() == 6,
            r.spec_extra_ids() == ac_ids@,
    {
        Self::from_cred_client_v(u, p, client, 6, ac_ids)
    }

    fn from_cred_client_v(
        u: String,
        p: String,
        client: &'a reqwest::blocking::Client,
        v: i32,
        ac_ids: &'a [i32],
    ) -> (r: Self)
        ensures
            r.spec_username() == u@,
            r.spec_password() == p@,
            r.spec_ver() == v as int,
            r.spec_extra_ids() == ac_ids@,
    {
        AuthConnect {
            credential: NetCredential::new(u, p, Vec::new()),
            client,
            ver: v,
            additional_ac_ids: ac_ids,
        }
    }

    /// Fetch and decode the challenge for this credential's user. The
    /// body's decoding is pinned by
    /// [`crate::jsonp::spec_challenge_of_body`]; the body itself depends
    /// on the network.
    fn challenge(&self) -> (r: Result<String, NetError>)
        ensures
            r matches Err(e) ==> e is Decode || e is Transport,
    {
        let url = challenge_url(self.ver, self.credential.username.as_str());
        match http_get(self.client, url.as_str()) {
            Ok(body) => challenge_of_body(body.as_str()),
            Err(e) => Err(NetError::Transport(e)),
        }
    }

    /// Live identifier discovery: probe the fixed well-known address for
    /// this variant and read the `index_<digits>.html` marker. Fails
    /// with the transport's error when the probe never answered, and
    /// with the identifier-not-found error exactly when the page came
    /// but its marker is absent or overflows the identifier range.
    fn get_ac_id(&self) -> (r: Result<i32, NetError>)
        ensures
            r matches Err(e) ==> e is NoAcId || e is Transport,
    {
        let url = if self.ver == 4 {
            "http://3.3.3.3/"
        } else {
            "http://[333::3]/"
        };
        let body = match http_get(self.client, url) {
            Ok(b) => b,
            Err(e) => {
                return Err(NetError::Transport(e));
            },
        };
        match ac_id_of_body(body.as_str()) {
            Some(id) => Ok(id),
            None => Err(NetError::NoAcId),
        }
    }

    /// One submission attempt for one candidate identifier: fetch the
    /// challenge, build the full submission, post it, and decode the
    /// gateway's verdict. A success carries a success-shaped message;
    /// a failure is never the identifier-exhaustion error.
    fn log_attempt(&self, ac_id: i32, is_login: bool) -> (r: Result<String, NetError>)
        ensures
            r matches Ok(m) ==> success_message(m@),
            r matches Err(e) ==> !(e is NoAcId),
    {
        let token = match self.challenge() {
            Ok(t) => t,
            Err(e) => {
                return Err(e);
            },
        };
        let params = match build_submission(
            self.credential.username.as_str(),
            self.credential.password.as_str(),
            ac_id,
            token.as_str(),
            is_login,
        ) {
            Some(p) => p,
            None => {
                return Err(NetError::Decode(String::from_str("oversized payload")));
            },
        };
        let url = portal_url(self.ver);
        let body = match http_post_form(self.client, url.as_str(), &params) {
            Ok(b) => b,
            Err(e) => {
                return Err(NetError::Transport(e));
            },
        };
        let (suc, msg) = match parse_response(body.as_str()) {
            Ok(p) => p,
            Err(e) => {
                return Err(e);
            },
        };
        if suc {
            proof {
                lemma_success_message_shape(body@, msg@);
            }
            Ok(msg)
        } else {
            Err(NetError::Rejected(msg))
        }
    }

    /// Drive one action over the identifier search: the fixed list and
    /// the caller-supplied identifiers strictly in order, first success
    /// winning; only when all fail, live discovery, whose identifier
    /// gets the one final attempt, returned as it came. A success names
    /// the identifier the action accepted; the exhaustion error arises
    /// only after every candidate was attempted and failed.
    fn do_log<F: Fn(i32) -> Result<String, NetError>>(&self, f: F) -> (r: Result<
        (String, i32),
        NetError,
    >)
        requires
            forall|id: i32| #[trigger] call_requires(f, (id,)),
            attempt_contract(&f),
        ensures
            r matches Ok(p) ==> call_ensures(f, (p.1,), Ok(p.0)) && success_message(p.0@),
            r matches Err(e) ==> ((exists|id: i32| #[trigger] call_ensures(f, (id,), Err(e)))
                || e is NoAcId || e is Transport),
            r matches Err(e) && e is NoAcId ==> all_candidates_failed(
                &f,
                crate::acid::spec_fixed_ac_ids() + self.spec_extra_ids(),
            ),
    {
        let extra = vstd::slice::slice_to_vec(self.additional_ac_ids);
        let cands = candidate_ids(&extra);
        let (res, tried) = try_candidates(&cands, &f);
        match res {
            Some(msg) => {
                let id = cands[tried];
                proof {
                    assert(call_ensures(*(&f), (cands@[tried as int],), Ok::<String, NetError>(
                        msg,
                    )));
                    assert(success_message(msg@));
                }
                Ok((msg, id))
            },
            None => {
                proof {
                    assert(all_candidates_failed(&f, cands@));
                }
                let id = match self.get_ac_id() {
                    Ok(id) => id,
                    Err(e) => {
                        return Err(e);
                    },
                };
                let out = f(id);
                match out {
                    Ok(m) => {
                        proof {
                            assert(call_ensures(*(&f), (id,), Ok::<String, NetError>(m)));
                        }
                        Ok((m, id))
                    },
                    Err(e) => {
                        proof {
                            assert(call_ensures(*(&f), (id,), Err::<String, NetError>(e)));
                            assert(!(e is NoAcId));
                        }
                        Err(e)
                    },
                }
            },
        }
    }

    /// The login handshake: a success returns the gateway's
    /// success-shaped message together with the identifier whose
    /// submission it accepted, for the caller to record. Every attempt's
    /// message construction is pinned by [`build_submission`], every
    /// decode by [`crate::jsonp::parse_response`], and the candidate
    /// order by [`crate::acid::try_candidates`].
    pub fn login(&self) -> (r: Result<(String, i32), NetError>)
        ensures
            r matches Ok(p) ==> success_message(p.0@),
    {
        let f = |ac_id: i32| -> (out: Result<String, NetError>)
            ensures
                out matches Ok(m) ==> success_message(m@),
                out matches Err(e) ==> !(e is NoAcId),
            { self.log_attempt(ac_id, true) };
        proof {
            assert(attempt_contract(&f));
        }
        self.do_log(f)
    }

    /// The logout handshake, without the password field, with the same
    /// guarantees as [`Self::login`].
    pub fn logout(&self) -> (r: Result<(String, i32), NetError>)
        ensures
            r matches Ok(p) ==> success_message(p.0@),
    {
        let f = |ac_id: i32| -> (out: Result<String, NetError>)
            ensures
                out matches Ok(m) ==> success_message(m@),
                out matches Err(e) ==> !(e is NoAcId),
            { self.log_attempt(ac_id, false) };
        proof {
            assert(attempt_contract(&f));
        }
        self.do_log(f)
    }

    /// Fetch the raw traffic-usage record from this variant's status
    /// endpoint. Decoding the delimited record is the account
    /// collaborator's concern; the engine only selects the endpoint and
    /// hands the body on untouched.
    pub fn flux(&self) -> Result<String, NetError> {
        let url = flux_url(self.ver);
        match http_get(self.client, url.as_str()) {
            Ok(body) => Ok(body),
            Err(e) => Err(NetError::Transport(e)),
        }
    }
}

} // verus!
