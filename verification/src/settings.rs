//! Assembling credentials from what the host's settings sources yield:
//! a stored settings file, an OS credential store, or a console prompt.
//! The reading and prompting themselves are the host's input/output;
//! these functions decide what credential results from what was read.

use vstd::prelude::*;
use crate::types::NetCredential;

verus! {

/// The console settings source: it yields whatever the user typed.
pub struct StdioSettingsReader;

impl StdioSettingsReader {
    /// The credential of a username-only prompt: no password, no known
    /// gateway identifiers.
    pub fn read(&self, username: String) -> (r: NetCredential)
        ensures
            r.username@ == username@,
            r.password@ == Seq::<char>::empty(),
            r.ac_ids@ == Seq::<i32>::empty(),
    {
        NetCredential::new(username, String::new(), Vec::new())
    }

    /// The credential of a username-and-password prompt: still no known
    /// gateway identifiers.
    pub fn read_with_password(&self, username: String, password: String) -> (r: NetCredential)
        ensures
            r.username@ == username@,
            r.password@ == password@,
            r.ac_ids@ == Seq::<i32>::empty(),
    {
        NetCredential::new(username, password, Vec::new())
    }
}

/// The credential to use for an operation that needs the password: the
/// stored one when the settings file yielded one, else the prompted
/// username and password.
pub fn read_cred(file_cred: Option<NetCredential>, username: String, password: String) -> (r:
    NetCredential)
    ensures
        match file_cred {
            Some(c) => r.username@ == c.username@ && r.password@ == c.password@ && r.ac_ids@
                == c.ac_ids@,
            None => r.username@ == username@ && r.password@ == password@ && r.ac_ids@ == Seq::<
                i32,
            >::empty(),
        },
{
    match file_cred {
        Some(c) => c,
        None => StdioSettingsReader.read_with_password(username, password),
    }
}

/// The credential to use for an operation that needs no password: the
/// stored one when the settings file yielded one, else the prompted
/// username with an empty password.
pub fn read_username(file_cred: Option<NetCredential>, username: String) -> (r: NetCredential)
    ensures
        match file_cred {
            Some(c) => r.username@ == c.username@ && r.password@ == c.password@ && r.ac_ids@
                == c.ac_ids@,
            None => r.username@ == username@ && r.password@ == Seq::<char>::empty() && r.ac_ids@
                == Seq::<i32>::empty(),
        },
{
    match file_cred {
        Some(c) => c,
        None => StdioSettingsReader.read(username),
    }
}

/// What the settings file should hold for a credential: the password
/// stays out of the file exactly when the OS credential store took it.
pub fn settings_to_store(cred: &NetCredential, keyring_took_password: bool) -> (r: NetCredential)
    ensures
        r.username@ == cred.username@,
        r.ac_ids@ == cred.ac_ids@,
        r.password@ == if keyring_took_password {
            Seq::<char>::empty()
        } else {
            cred.password@
        },
{
    let password = if keyring_took_password {
        String::new()
    } else {
        cred.password.clone()
    };
    NetCredential::new(cred.username.clone(), password, clone_ac_ids(&cred.ac_ids))
}

/// A copy of a gateway-identifier list.
fn clone_ac_ids(ids: &Vec<i32>) -> (r: Vec<i32>)
    ensures
        r@ == ids@,
{
    let mut r: Vec<i32> = Vec::new();
    let mut i: usize = 0;
    while i < ids.len()
        invariant
            i <= ids@.len(),
            r@ == ids@.take(i as int),
        decreases ids@.len() - i,
    {
        r.push(ids[i]);
        proof {
            assert(ids@.take(i as int + 1) =~= ids@.take(i as int).push(ids@[i as int]));
        }
        i = i + 1;
    }
    proof {
        assert(ids@.take(ids@.len() as int) =~= ids@);
    }
    r
}

/// Record a gateway identifier that has just worked: the list only ever
/// grows by appending, and an identifier already present is not added
/// again.
pub fn record_ac_id(cred: &mut NetCredential, ac_id: i32)
    ensures
        final(cred).username@ == old(cred).username@,
        final(cred).password@ == old(cred).password@,
        old(cred).ac_ids@.contains(ac_id) ==> final(cred).ac_ids@ == old(cred).ac_ids@,
        !old(cred).ac_ids@.contains(ac_id) ==> final(cred).ac_ids@ == old(cred).ac_ids@.push(
            ac_id,
        ),
{
    let mut i: usize = 0;
    while i < cred.ac_ids.len()
        invariant
            i <= cred.ac_ids@.len(),
            cred == old(cred),
            forall|k: int| 0 <= k < i ==> cred.ac_ids@[k] != ac_id,
        decreases cred.ac_ids@.len() - i,
    {
        if cred.ac_ids[i] == ac_id {
            return ;
        }
        i = i + 1;
    }
    proof {
        assert(!old(cred).ac_ids@.contains(ac_id));
    }
    cred.ac_ids.push(ac_id);
}

} // verus!
