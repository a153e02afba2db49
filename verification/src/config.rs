//! The server's settings.

use vstd::prelude::*;

verus! {

/// Where the server listens, which origin may call it, and the secret its
/// tokens are signed with.
pub struct Config {
    pub server_address: String,
    pub allowed_origin: String,
    pub jwt_secret: String,
}

pub open spec fn or_default(v: Option<String>, d: Seq<char>) -> Seq<char> {
    match v {
        Some(s) => s@,
        None => d,
    }
}

impl Config {
    /// The settings from the values found for them: the address defaults
    /// to `127.0.0.1:3000`, the origin to `*` (any), the secret to empty.
    pub fn from_settings(
        server_address: Option<String>,
        allowed_origin: Option<String>,
        jwt_secret: Option<String>,
    ) -> (c: Config)
        ensures
            c.server_address@ == or_default(server_address, "127.0.0.1:3000"@),
            c.allowed_origin@ == or_default(allowed_origin, "*"@),
            c.jwt_secret@ == or_default(jwt_secret, Seq::empty()),
    {
        let server_address = match server_address {
            Some(s) => s,
            None => String::from_str("127.0.0.1:3000"),
        };
        let allowed_origin = match allowed_origin {
            Some(s) => s,
            None => String::from_str("*"),
        };
        let jwt_secret = match jwt_secret {
            Some(s) => s,
            None => String::new(),
        };
        Config { server_address, allowed_origin, jwt_secret }
    }
}

} // verus!
