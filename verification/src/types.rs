//! Shared data model: connection states, credentials, traffic snapshots,
//! online-user and session-detail records, and the error taxonomy.

use vstd::prelude::*;

verus! {

/// Which gateway variant is currently reachable. `Unknown` asks the host to
/// auto-detect; `Net` is a plain network without a portal; `Auth4` / `Auth6`
/// name the IPv4-only and the IPv6-capable portal.
#[derive(Clone, Copy, PartialEq, Eq, Structural, Debug)]
pub enum NetState {
    Unknown,
    Net,
    Auth4,
    Auth6,
}

/// A credential together with the gateway identifiers that have already
/// worked for it. The identifier list only grows by appending: every
/// function that changes it says so in its contract.
#[derive(Clone)]
pub struct NetCredential {
    pub username: String,
    pub password: String,
    pub ac_ids: Vec<i32>,
}

impl NetCredential {
    /// A credential from its parts.
    pub fn new(username: String, password: String, ac_ids: Vec<i32>) -> (r: Self)
        ensures
            r.username@ == username@,
            r.password@ == password@,
            r.ac_ids@ == ac_ids@,
    {
        NetCredential { username, password, ac_ids }
    }

    /// An empty credential: no user, no password, no known identifiers.
    pub fn empty() -> (r: Self)
        ensures
            r.username@ == Seq::<char>::empty(),
            r.password@ == Seq::<char>::empty(),
            r.ac_ids@ == Seq::<i32>::empty(),
    {
        NetCredential { username: String::new(), password: String::new(), ac_ids: Vec::new() }
    }
}

/// One traffic-usage snapshot. Immutable once constructed; replaced wholesale
/// on each refresh. The balance is held in hundredths of the currency unit.
#[derive(Clone)]
pub struct NetFlux {
    pub username: String,
    pub flux: u64,
    pub online_time: u64,
    pub balance_cents: u64,
}

impl NetFlux {
    /// The empty snapshot: no user, all counters zero.
    pub fn empty() -> (r: Self)
        ensures
            r.username@ == Seq::<char>::empty(),
            r.flux == 0u64,
            r.online_time == 0u64,
            r.balance_cents == 0u64,
    {
        NetFlux { username: String::new(), flux: 0, online_time: 0, balance_cents: 0 }
    }
}

/// One currently-online session, as the account-management endpoint reports
/// it: an IPv4 address in network integer form, a login timestamp in epoch
/// seconds, a traffic counter, and an optional hardware address.
#[derive(Clone)]
pub struct NetUser {
    pub address: u32,
    pub login_time: i64,
    pub flux: u64,
    pub mac_address: Option<[u8; 6]>,
}

/// One completed historical session.
#[derive(Clone, Copy, PartialEq, Eq, Structural, Debug)]
pub struct NetDetail {
    pub login_time: i64,
    pub logout_time: i64,
    pub flux: u64,
}

/// The error taxonomy of the protocol engine.
#[derive(Debug)]
pub enum NetError {
    /// Connectivity or timeout: the request never produced a usable body.
    Transport(String),
    /// A body arrived but its wrapper or JSON could not be decoded.
    Decode(String),
    /// Every gateway-identifier candidate failed and discovery matched nothing.
    NoAcId,
    /// The gateway answered and rejected the request; carries its own message.
    Rejected(String),
}

/// The display text of an error: the carried message, or the fixed
/// identifier-exhaustion sentence.
pub open spec fn spec_error_text(e: &NetError) -> Seq<char> {
    match e {
        NetError::Transport(s) => s@,
        NetError::Decode(s) => s@,
        NetError::NoAcId => "no gateway identifier found"@,
        NetError::Rejected(s) => s@,
    }
}

impl NetError {
    /// A display string for the error, as the front ends show it.
    pub fn text(&self) -> (r: String)
        ensures
            r@ == spec_error_text(self),
    {
        match self {
            NetError::Transport(s) => s.clone(),
            NetError::Decode(s) => s.clone(),
            NetError::NoAcId => String::from_str("no gateway identifier found"),
            NetError::Rejected(s) => s.clone(),
        }
    }
}

} // verus!
