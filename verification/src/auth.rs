//! Session identity and the credential checks performed before any remote
//! call is made.

use vstd::prelude::*;
use crate::api::{ApiConfig, ApiError, UserResource};

verus! {

/// The per-connection identity: user name, bearer token and numeric user id,
/// established once by the authentication handshake and immutable afterwards.
#[derive(Clone, Debug)]
pub struct FileFighterUser {
    pub id: u32,
    pub username: String,
    pub token: String,
}

/// The reasons an authentication attempt is rejected.
#[derive(Clone, Debug)]
pub enum AuthError {
    /// The user name is empty or unknown to the remote service.
    BadUser,
    /// The password is missing or empty.
    BadPassword,
    /// The remote service rejected the credentials, with its description.
    Rejected(String),
}

impl FileFighterUser {
    /// Build a session identity from its parts.
    pub fn new(username: String, token: String, id: u32) -> (r: FileFighterUser)
        ensures
            r.username == username,
            r.token == token,
            r.id == id,
    {
        FileFighterUser { id, username, token }
    }

    /// Every session that exists belongs to an enabled account.
    pub fn account_enabled(&self) -> (r: bool)
        ensures
            r,
    {
        true
    }
}

/// Check credentials before any remote call: an empty user name is a bad
/// user; a missing or empty password is a bad password; otherwise the
/// password is handed back for the remote authentication call.
pub fn check_credentials<'a>(username: &str, password: &'a Option<String>) -> (r: Result<
    &'a String,
    AuthError,
>)
    ensures
        match r {
            Ok(p) => {
                &&& username@.len() > 0
                &&& password matches Some(q) && q == p
                &&& p@.len() > 0
            },
            Err(e) => match e {
                AuthError::BadUser => username@.len() == 0,
                AuthError::BadPassword => username@.len() > 0 && (password matches Some(q)
                    ==> q@.len() == 0),
                AuthError::Rejected(_) => false,
            },
        },
{
    if username.unicode_len() == 0 {
        return Err(AuthError::BadUser);
    }
    match password {
        None => Err(AuthError::BadPassword),
        Some(p) => {
            if p.as_str().unicode_len() == 0 {
                Err(AuthError::BadPassword)
            } else {
                Ok(p)
            }
        },
    }
}


pub open spec fn is_lower_hex_digit(c: char) -> bool {
    ('0' <= c && c <= '9') || ('a' <= c && c <= 'f')
}

/// The uppercase form of one lowercase hexadecimal digit.
pub open spec fn upper_hex_char(c: char) -> char {
    if c == 'a' {
        'A'
    } else if c == 'b' {
        'B'
    } else if c == 'c' {
        'C'
    } else if c == 'd' {
        'D'
    } else if c == 'e' {
        'E'
    } else if c == 'f' {
        'F'
    } else {
        c
    }
}

pub open spec fn upper_hex_of(s: Seq<char>) -> Seq<char> {
    s.map_values(|c: char| upper_hex_char(c))
}

/// The SHA-256 digest of a string's bytes as 64 lowercase hexadecimal
/// characters.  The digest itself is computed by an outside crate; only its
/// shape is stated here.
pub uninterp spec fn sha256_hex_of(s: Seq<char>) -> Seq<char>;

/// Relies on sha256::digest: the SHA-256 digest of the string's UTF-8
/// bytes, hex-encoded as 64 lowercase hexadecimal characters, depending on
/// the string alone.
#[verifier::external_body]
fn sha256_hex(s: &str) -> (r: String)
    ensures
        r@ == sha256_hex_of(s@),
        r@.len() == 64,
        forall|i: int| 0 <= i < r@.len() ==> is_lower_hex_digit(r@[i]),
{
    sha256::digest(s)
}

/// Append the uppercase form of one lowercase hexadecimal digit.
fn push_upper_hex(out: &mut String, c: char)
    requires
        is_lower_hex_digit(c),
    ensures
        final(out)@ == old(out)@.push(upper_hex_char(c)),
{
    proof {
        reveal_strlit("0");
        reveal_strlit("1");
        reveal_strlit("2");
        reveal_strlit("3");
        reveal_strlit("4");
        reveal_strlit("5");
        reveal_strlit("6");
        reveal_strlit("7");
        reveal_strlit("8");
        reveal_strlit("9");
        reveal_strlit("A");
        reveal_strlit("B");
        reveal_strlit("C");
        reveal_strlit("D");
        reveal_strlit("E");
        reveal_strlit("F");
    }
    let ghost before = out@;
    if c == 'a' {
        out.append("A");
    } else if c == 'b' {
        out.append("B");
    } else if c == 'c' {
        out.append("C");
    } else if c == 'd' {
        out.append("D");
    } else if c == 'e' {
        out.append("E");
    } else if c == 'f' {
        out.append("F");
    } else if c == '0' {
        out.append("0");
    } else if c == '1' {
        out.append("1");
    } else if c == '2' {
        out.append("2");
    } else if c == '3' {
        out.append("3");
    } else if c == '4' {
        out.append("4");
    } else if c == '5' {
        out.append("5");
    } else if c == '6' {
        out.append("6");
    } else if c == '7' {
        out.append("7");
    } else if c == '8' {
        out.append("8");
    } else {
        out.append("9");
    }
    proof {
        assert(out@ =~= before.push(upper_hex_char(c)));
    }
}

/// Uppercase a lowercase hexadecimal string.
fn upper_hex(s: &str) -> (r: String)
    requires
        forall|i: int| 0 <= i < s@.len() ==> is_lower_hex_digit(s@[i]),
    ensures
        r@ == upper_hex_of(s@),
{
    let n = s.unicode_len();
    let mut out = String::new();
    let mut i: usize = 0;
    proof {
        assert(out@ =~= upper_hex_of(s@.take(0)));
    }
    while i < n
        invariant
            i <= n == s@.len(),
            forall|k: int| 0 <= k < s@.len() ==> is_lower_hex_digit(s@[k]),
            out@ == upper_hex_of(s@.take(i as int)),
        decreases n - i,
    {
        push_upper_hex(&mut out, s.get_char(i));
        proof {
            assert(s@.take(i + 1) =~= s@.take(i as int).push(s@[i as int]));
            assert(upper_hex_of(s@.take(i + 1)) =~= upper_hex_of(s@.take(i as int)).push(
                upper_hex_char(s@[i as int]),
            ));
        }
        i = i + 1;
    }
    proof {
        assert(s@.take(n as int) =~= s@);
    }
    out
}

/// A password as it is salted before hashing for transmission.
pub open spec fn salted(p: Seq<char>) -> Seq<char> {
    p + "FileFighterWithSomeSalt"@
}

/// The password as it is transmitted to the remote authenticate endpoint:
/// salted, SHA-256-hashed and hex-encoded in uppercase.
pub fn hashed_login_password(password: &str) -> (r: String)
    ensures
        r@ == upper_hex_of(sha256_hex_of(salted(password@))),
{
    let mut s = password.to_owned();
    s.append("FileFighterWithSomeSalt");
    let digest = sha256_hex(s.as_str());
    upper_hex(digest.as_str())
}


/// The authentication failure reported when the remote token exchange
/// fails: the remote failure's description, as a rejection.
pub fn token_exchange_error(err: &ApiError) -> (r: AuthError)
    ensures
        r matches AuthError::Rejected(m) && m@ == match err {
            ApiError::ReqwestError(e) => "Request failed with error "@ + e@,
            ApiError::ResponseMalformed(e) => "Response was malformed: "@ + e@,
        },
{
    AuthError::Rejected(err.describe())
}

/// The session built after both remote calls succeeded: the user name as
/// given, the token of the authenticate call, and the id of the fetched
/// user info.
pub fn session_for(username: &str, token: String, user: &UserResource) -> (r: FileFighterUser)
    ensures
        r.username@ == username@,
        r.token == token,
        r.id == user.id,
{
    FileFighterUser { id: user.id, username: username.to_owned(), token }
}

/// The authenticator shared by all connections: it holds only the remote
/// configuration.
#[derive(Clone, Debug)]
pub struct FileFighterAuthenticator {
    pub api_config: ApiConfig,
}

impl FileFighterAuthenticator {
    /// An authenticator against services on their default local addresses.
    pub fn new() -> (r: FileFighterAuthenticator)
        ensures
            r.api_config.fss_base_url@ == "http://localhost:8080/api"@,
            r.api_config.fhs_base_url@ == "http://localhost:5000/data"@,
    {
        FileFighterAuthenticator {
            api_config: ApiConfig {
                fss_base_url: "http://localhost:8080/api".to_owned(),
                fhs_base_url: "http://localhost:5000/data".to_owned(),
            },
        }
    }
}

impl Default for FileFighterAuthenticator {
    /// The default authenticator targets the default local addresses.
    fn default() -> (r: Self)
        ensures
            r.api_config.fss_base_url@ == "http://localhost:8080/api"@,
            r.api_config.fhs_base_url@ == "http://localhost:5000/data"@,
    {
        Self::new()
    }
}

} // verus!
