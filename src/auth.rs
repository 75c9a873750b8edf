//! Role-based access to the web API: tokens, roles and the checks made on
//! each request.
use std::sync::Arc;
use vstd::prelude::*;
use vstd::string::StrSliceExecFns;
use vstd::string::StringExecFns;
use crate::text::{has_prefix, lower_of, str_eq, to_lower};

verus! {

/// Role with hierarchical permissions: `Read < Operator < Admin`.
#[derive(Debug, Clone, Copy, PartialEq, Eq, PartialOrd, Ord, Hash, Structural)]
pub enum Role {
    /// Read-only access
    Read,
    /// Read plus operational actions
    Operator,
    /// Full access
    Admin,
}

/// The rank of a role in the permission hierarchy.
pub open spec fn role_rank(r: Role) -> nat {
    match r {
        Role::Read => 0,
        Role::Operator => 1,
        Role::Admin => 2,
    }
}

/// The role that a lowercase role name stands for.
pub open spec fn role_named(s: Seq<char>) -> Option<Role> {
    if s == "read"@ {
        Some(Role::Read)
    } else if s == "operator"@ {
        Some(Role::Operator)
    } else if s == "admin"@ {
        Some(Role::Admin)
    } else {
        None
    }
}

impl Role {
    pub fn as_str(&self) -> (r: &'static str)
        ensures
            r@ == match *self {
                Role::Read => "read"@,
                Role::Operator => "operator"@,
                Role::Admin => "admin"@,
            },
    {
        match self {
            Role::Read => "read",
            Role::Operator => "operator",
            Role::Admin => "admin",
        }
    }

    /// The rank of this role: 0 for `Read`, 1 for `Operator`, 2 for `Admin`.
    pub fn rank(&self) -> (r: u8)
        ensures
            r == role_rank(*self),
    {
        match self {
            Role::Read => 0,
            Role::Operator => 1,
            Role::Admin => 2,
        }
    }

    /// Whether this role is at least the required level.
    pub fn has_permission(&self, required: Role) -> (r: bool)
        ensures
            r == (role_rank(*self) >= role_rank(required)),
    {
        self.rank() >= required.rank()
    }

    /// The role named by an already lowercased name.
    pub fn from_lowercase(s: &str) -> (r: Option<Role>)
        ensures
            r == role_named(s@),
    {
        if str_eq(s, "read") {
            Some(Role::Read)
        } else if str_eq(s, "operator") {
            Some(Role::Operator)
        } else if str_eq(s, "admin") {
            Some(Role::Admin)
        } else {
            None
        }
    }

    /// Parses a role name, ignoring case.
    pub fn parse(s: &str) -> (r: Option<Role>)
        ensures
            r == role_named(lower_of(s@)),
    {
        let lowered = to_lower(s);
        Role::from_lowercase(lowered.as_str())
    }
}

/// An API token with its role and optional restrictions.
#[derive(Debug, Clone)]
pub struct ApiToken {
    /// Display name for the token
    pub name: String,
    /// The bearer token value
    pub token: String,
    /// Role assigned to this token
    pub role: Role,
    /// IP allowlist (empty allows every address)
    pub allowed_ips: Vec<String>,
    /// Whether the token is active
    pub enabled: bool,
}

/// The default for a token's `enabled` flag and a config's `local_bypass`.
pub fn default_true() -> (r: bool)
    ensures
        r,
{
    true
}

/// Authentication configuration.
#[derive(Debug, Clone)]
pub struct AuthConfig {
    /// Whether auth is enabled (false allows every request)
    pub enabled: bool,
    /// API tokens
    pub tokens: Vec<ApiToken>,
    /// Allow unauthenticated access from localhost
    pub local_bypass: bool,
}

impl Default for AuthConfig {
    fn default() -> (r: Self)
        ensures
            !r.enabled,
            r.tokens@.len() == 0,
            r.local_bypass,
    {
        AuthConfig { enabled: false, tokens: Vec::new(), local_bypass: default_true() }
    }
}

/// Whether token `t` accepts the bearer value `s`.
pub open spec fn token_accepts(t: ApiToken, s: Seq<char>) -> bool {
    t.enabled && t.token@ == s
}

/// Whether `ip` names the local machine.
pub open spec fn is_local_address(ip: Seq<char>) -> bool {
    ip == "127.0.0.1"@ || ip == "::1"@ || ip == "localhost"@
}

/// Whether a token may be used from `ip`.
pub open spec fn ip_allowed(t: ApiToken, ip: Seq<char>) -> bool {
    t.allowed_ips@.len() == 0 || exists|i: int| 0 <= i < t.allowed_ips@.len() && t.allowed_ips@[i]@ == ip
}

impl AuthConfig {
    /// The first enabled token whose value is `token_str`.
    pub fn validate_token(&self, token_str: &str) -> (r: Option<&ApiToken>)
        ensures
            match r {
                Some(t) => exists|i: int|
                    0 <= i < self.tokens@.len() && *t == self.tokens@[i] && token_accepts(
                        self.tokens@[i],
                        token_str@,
                    ) && forall|j: int| 0 <= j < i ==> !token_accepts(self.tokens@[j], token_str@),
                None => forall|i: int|
                    0 <= i < self.tokens@.len() ==> !token_accepts(self.tokens@[i], token_str@),
            },
    {
        let mut i: usize = 0;
        while i < self.tokens.len()
            invariant
                0 <= i <= self.tokens@.len(),
                forall|j: int| 0 <= j < i ==> !token_accepts(self.tokens@[j], token_str@),
            decreases self.tokens@.len() - i,
        {
            let t = &self.tokens[i];
            if t.enabled && str_eq(t.token.as_str(), token_str) {
                return Some(t);
            }
            i = i + 1;
        }
        None
    }

    /// Whether a request from `ip` skips authentication.
    pub fn is_local_bypass(&self, ip: &str) -> (r: bool)
        ensures
            r == (self.local_bypass && is_local_address(ip@)),
    {
        self.local_bypass && (str_eq(ip, "127.0.0.1") || str_eq(ip, "::1") || str_eq(ip, "localhost"))
    }

    /// Whether `token` may be used from `ip`.
    pub fn check_ip_allowlist(&self, token: &ApiToken, ip: &str) -> (r: bool)
        ensures
            r == ip_allowed(*token, ip@),
    {
        if token.allowed_ips.len() == 0 {
            return true;
        }
        let mut i: usize = 0;
        while i < token.allowed_ips.len()
            invariant
                0 <= i <= token.allowed_ips@.len(),
                forall|j: int| 0 <= j < i ==> token.allowed_ips@[j]@ != ip@,
            decreases token.allowed_ips@.len() - i,
        {
            if str_eq(token.allowed_ips[i].as_str(), ip) {
                return true;
            }
            i = i + 1;
        }
        false
    }
}

/// Result of an authentication check.
#[derive(Debug, Clone)]
pub struct AuthResult {
    pub authenticated: bool,
    pub token_name: Option<String>,
    pub role: Option<Role>,
    pub reason: String,
}

impl AuthResult {
    pub fn allowed(name: &str, role: Role) -> (r: Self)
        ensures
            r.authenticated,
            r.token_name matches Some(n) && n@ == name@,
            r.role == Some(role),
            r.reason@ == "token_valid"@,
    {
        AuthResult {
            authenticated: true,
            token_name: Some(String::from_str(name)),
            role: Some(role),
            reason: String::from_str("token_valid"),
        }
    }

    pub fn local_bypass() -> (r: Self)
        ensures
            r.authenticated,
            r.token_name is None,
            r.role == Some(Role::Admin),
            r.reason@ == "local_bypass"@,
    {
        AuthResult {
            authenticated: true,
            token_name: None,
            role: Some(Role::Admin),
            reason: String::from_str("local_bypass"),
        }
    }

    pub fn denied(reason: &str) -> (r: Self)
        ensures
            !r.authenticated,
            r.token_name is None,
            r.role is None,
            r.reason@ == reason@,
    {
        AuthResult { authenticated: false, token_name: None, role: None, reason: String::from_str(reason) }
    }
}

/// The token carried by an `Authorization` header value of the form `Bearer <token>`.
pub fn bearer_token(header: &str) -> (r: Option<String>)
    ensures
        match r {
            Some(t) => header@.len() >= 7 && header@.subrange(0, 7) == "Bearer "@ && t@
                == header@.subrange(7, header@.len() as int),
            None => !(header@.len() >= 7 && header@.subrange(0, 7) == "Bearer "@),
        },
{
    proof {
        reveal_strlit("Bearer ");
    }
    if has_prefix(header, "Bearer ") {
        let n = header.unicode_len();
        Some(String::from_str(header.substring_char(7, n)))
    } else {
        None
    }
}

/// Authenticates a request from `client_ip` whose `Authorization` header, if
/// any, is `authorization`.
pub fn authenticate(config: &AuthConfig, authorization: Option<&str>, client_ip: &str) -> (r: AuthResult)
    ensures
        !config.enabled || config.is_local_bypass_spec(client_ip@) ==> r.authenticated && r.role == Some(
            Role::Admin,
        ) && r.reason@ == "local_bypass"@,
        config.enabled && !config.is_local_bypass_spec(client_ip@) ==> {
            let tok: Option<Seq<char>> = match authorization {
                Some(h) => if h@.len() >= 7 && h@.subrange(0, 7) == "Bearer "@ {
                    Some(h@.subrange(7, h@.len() as int))
                } else {
                    None
                },
                None => None,
            };
            match tok {
                None => !r.authenticated && r.reason@ == "missing_token"@,
                Some(s) => match config.first_accepting(s) {
                    None => !r.authenticated && r.reason@ == "invalid_token"@,
                    Some(i) => if ip_allowed(config.tokens@[i], client_ip@) {
                        r.authenticated && r.role == Some(config.tokens@[i].role) && (r.token_name
                            matches Some(n) && n@ == config.tokens@[i].name@) && r.reason@ == "token_valid"@
                    } else {
                        !r.authenticated && r.reason@ == "ip_not_allowed"@
                    },
                },
            }
        },
{
    if !config.enabled {
        return AuthResult::local_bypass();
    }
    if config.is_local_bypass(client_ip) {
        return AuthResult::local_bypass();
    }
    let token_str = match authorization {
        Some(h) => bearer_token(h),
        None => None,
    };
    let token_str = match token_str {
        Some(t) => t,
        None => {
            return AuthResult::denied("missing_token");
        },
    };
    let api_token = match config.validate_token(token_str.as_str()) {
        Some(t) => t,
        None => {
            proof {
                config.lemma_first_accepting_none(token_str@);
            }
            return AuthResult::denied("invalid_token");
        },
    };
    proof {
        let i = choose|i: int|
            0 <= i < config.tokens@.len() && *api_token == config.tokens@[i] && token_accepts(
                config.tokens@[i],
                token_str@,
            ) && forall|j: int| 0 <= j < i ==> !token_accepts(config.tokens@[j], token_str@);
        config.lemma_first_accepting_at(token_str@, i);
    }
    if !config.check_ip_allowlist(api_token, client_ip) {
        return AuthResult::denied("ip_not_allowed");
    }
    AuthResult::allowed(api_token.name.as_str(), api_token.role)
}

impl AuthConfig {
    pub open spec fn is_local_bypass_spec(&self, ip: Seq<char>) -> bool {
        self.local_bypass && is_local_address(ip)
    }

    /// The index of the first token that accepts `s`, searching from `from`.
    pub open spec fn first_accepting_from(&self, s: Seq<char>, from: int) -> Option<int>
        decreases self.tokens@.len() - from,
    {
        if from < 0 || from >= self.tokens@.len() {
            None
        } else if token_accepts(self.tokens@[from], s) {
            Some(from)
        } else {
            self.first_accepting_from(s, from + 1)
        }
    }

    /// The index of the first token that accepts `s`.
    pub open spec fn first_accepting(&self, s: Seq<char>) -> Option<int> {
        self.first_accepting_from(s, 0)
    }

    proof fn lemma_first_accepting_none(&self, s: Seq<char>)
        requires
            forall|i: int| 0 <= i < self.tokens@.len() ==> !token_accepts(self.tokens@[i], s),
        ensures
            self.first_accepting(s) is None,
    {
        self.lemma_first_from_none(s, 0);
    }

    proof fn lemma_first_from_none(&self, s: Seq<char>, from: int)
        requires
            0 <= from,
            forall|i: int| from <= i < self.tokens@.len() ==> !token_accepts(self.tokens@[i], s),
        ensures
            self.first_accepting_from(s, from) is None,
        decreases self.tokens@.len() - from,
    {
        if from < self.tokens@.len() {
            self.lemma_first_from_none(s, from + 1);
        }
    }

    proof fn lemma_first_accepting_at(&self, s: Seq<char>, i: int)
        requires
            0 <= i < self.tokens@.len(),
            token_accepts(self.tokens@[i], s),
            forall|j: int| 0 <= j < i ==> !token_accepts(self.tokens@[j], s),
        ensures
            self.first_accepting(s) == Some(i),
    {
        self.lemma_first_from_at(s, 0, i);
    }

    proof fn lemma_first_from_at(&self, s: Seq<char>, from: int, i: int)
        requires
            0 <= from <= i < self.tokens@.len(),
            token_accepts(self.tokens@[i], s),
            forall|j: int| from <= j < i ==> !token_accepts(self.tokens@[j], s),
        ensures
            self.first_accepting_from(s, from) == Some(i),
        decreases i - from,
    {
        if from < i {
            self.lemma_first_from_at(s, from + 1, i);
        }
    }
}

/// Whether an authentication result carries at least the required role.
pub fn authorize(result: &AuthResult, required: Role) -> (r: bool)
    ensures
        r == (result.authenticated && (result.role matches Some(role) && role_rank(role) >= role_rank(
            required,
        ))),
{
    match result.role {
        Some(role) => result.authenticated && role.has_permission(required),
        None => false,
    }
}

/// Auth state handed to request handlers.
#[derive(Clone)]
pub struct AuthState {
    pub config: Arc<AuthConfig>,
}

} // verus!
