//! What the key service is told and what it stores.
//!
//! When a device registers for the first time its key is sent to a service
//! that appends it to a file of authorized keys, one key on each line.

use crate::types::{Register, RegisterAuthorizeKey};
use vstd::prelude::*;
use vstd::string::*;

verus! {

/// The address at which the key service on `host` and `port` takes keys.
pub open spec fn register_url(host: Seq<char>, port: Seq<char>) -> Seq<char> {
    "http://"@ + host + ":"@ + port + "/register"@
}

/// The line that is appended for `key`: the key, closed by a line feed
/// unless it ends in one.
pub open spec fn key_line(key: Seq<char>) -> Seq<char> {
    if key.len() > 0 && key.last() == '\n' {
        key
    } else {
        key.push('\n')
    }
}

/// The address at which the key service on `host` and `port` takes keys.
pub fn authorize_key_url(host: &str, port: &str) -> (url: String)
    ensures
        url@ == register_url(host@, port@),
{
    let mut url = String::from_str("http://");
    url.append(host);
    url.append(":");
    url.append(port);
    url.append("/register");
    proof {
        assert(url@ =~= register_url(host@, port@));
    }
    url
}

/// The line that is appended to the file of authorized keys for `ssh_key`.
pub fn with_trailing_newline(ssh_key: String) -> (line: String)
    ensures
        line@ == key_line(ssh_key@),
{
    let n: usize = ssh_key.as_str().unicode_len();
    if n > 0 && ssh_key.as_str().get_char(n - 1) == '\n' {
        ssh_key
    } else {
        proof {
            reveal_strlit("\n");
            assert("\n"@ =~= seq!['\n']);
            assert(ssh_key@ + seq!['\n'] =~= ssh_key@.push('\n'));
        }
        ssh_key.concat("\n")
    }
}

impl Register {
    /// What the key service is sent for this registration: the key, as it is.
    pub fn authorize_key_request(&self) -> (body: RegisterAuthorizeKey)
        ensures
            body.ssh_key@ == self@.ssh_key,
    {
        RegisterAuthorizeKey { ssh_key: self.ssh_key.clone() }
    }
}

} // verus!
