//! The credential record: the passive data entity the pool manages,
//! plus small helpers for auth-method names and optional-string copies.

use vstd::prelude::*;
use vstd::string::StrSliceExecFns;

verus! {

/// The OAuth flavor of a credential; decides which fields a refresh needs.
/// `IdC` refreshes require `client_id` and `client_secret`; `Social` needs none.
#[derive(Clone, Copy, PartialEq, Eq, Structural, Debug)]
pub enum AuthMethod {
    Social,
    IdC,
}

/// One credential in the pool.
///
/// `id` is unique for the lifetime of the pool and never reused.
/// `priority`: lower value means higher preference. `failure_count` counts
/// consecutive counted failures since the last success. The refresh token is
/// the durable identity of the credential and the dedup key for imports.
pub struct CredentialRecord {
    pub id: u64,
    pub priority: u32,
    pub disabled: bool,
    pub failure_count: u32,
    pub auth_method: AuthMethod,
    pub access_token: Option<String>,
    pub refresh_token: String,
    pub csrf_token: Option<String>,
    pub client_id: Option<String>,
    pub client_secret: Option<String>,
    pub expires_at: Option<u64>,
    pub email: Option<String>,
    pub user_id: Option<String>,
    pub nickname: Option<String>,
    pub provider: Option<String>,
    pub idp: Option<String>,
    pub region: Option<String>,
    pub profile_arn: Option<String>,
    pub tags: Vec<String>,
    pub status: Option<String>,
    pub subscription_info: Option<String>,
    pub usage_info: Option<String>,
}

/// Whether a name spells "idc", ignoring ASCII case.
pub open spec fn spells_idc(s: Seq<char>) -> bool {
    s.len() == 3 && (s[0] == 'i' || s[0] == 'I') && (s[1] == 'd' || s[1] == 'D') && (s[2] == 'c'
        || s[2] == 'C')
}

/// The auth method a name denotes: "idc" in any ASCII case means `IdC`;
/// anything else (including "social") means `Social`.
pub open spec fn method_of_name(s: Seq<char>) -> AuthMethod {
    if spells_idc(s) {
        AuthMethod::IdC
    } else {
        AuthMethod::Social
    }
}

/// Parse an auth-method name: "idc" (any ASCII case) is `IdC`, everything
/// else falls back to `Social`.
pub fn parse_auth_method(s: &str) -> (r: AuthMethod)
    ensures
        r == method_of_name(s@),
{
    let n = s.unicode_len();
    if n == 3 {
        let c0 = s.get_char(0);
        let c1 = s.get_char(1);
        let c2 = s.get_char(2);
        if (c0 == 'i' || c0 == 'I') && (c1 == 'd' || c1 == 'D') && (c2 == 'c' || c2 == 'C') {
            AuthMethod::IdC
        } else {
            AuthMethod::Social
        }
    } else {
        AuthMethod::Social
    }
}

/// The canonical name of an auth method.
pub open spec fn method_name(m: AuthMethod) -> Seq<char> {
    match m {
        AuthMethod::Social => "social"@,
        AuthMethod::IdC => "idc"@,
    }
}

/// Render an auth method as its canonical lower-case name.
pub fn auth_method_name(m: AuthMethod) -> (r: String)
    ensures
        r@ == method_name(m),
{
    match m {
        AuthMethod::Social => "social".to_owned(),
        AuthMethod::IdC => "idc".to_owned(),
    }
}

/// Deep copy of an optional string.
pub fn clone_opt_string(s: &Option<String>) -> (r: Option<String>)
    ensures
        r == *s,
{
    match s {
        Some(x) => Some(x.clone()),
        None => None,
    }
}

} // verus!
