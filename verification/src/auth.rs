//! Authentication data: the JWT claim set, the request and response shapes of
//! the register and login routes, and the credential rules they enforce.
//! Token signing, password hashing and the clock live with the surrounding
//! runtime; the claim arithmetic and the validation rules are verified here.
use vstd::prelude::*;
use vstd::string::StrSliceExecFns;

verus! {

/// Seconds a session token stays valid: seven days.
pub const TOKEN_LIFETIME_SECONDS: i64 = 604800;

/// The claim set carried in a session token.
pub struct Claims {
    /// The user identifier.
    pub sub: String,
    pub email: String,
    pub tier: String,
    /// Expiry, seconds since the epoch.
    pub exp: i64,
    /// Issue time, seconds since the epoch.
    pub iat: i64,
}

impl Claims {
    /// Claims for a user issued at `now`, expiring seven days later.
    pub fn new(user_id: String, email: String, tier: String, now: i64) -> (c: Claims)
        requires
            now + 604800 <= i64::MAX,
        ensures
            c.sub == user_id,
            c.email == email,
            c.tier == tier,
            c.iat == now,
            c.exp == now + 604800,
    {
        let exp = now + TOKEN_LIFETIME_SECONDS;
        Claims { sub: user_id, email, tier, exp, iat: now }
    }

    /// A claim set is live at `now` when it has not reached its expiry.
    pub open spec fn spec_live_at(self, now: int) -> bool {
        now < self.exp
    }

    /// Whether the claims are still live at the given time.
    pub fn live_at(&self, now: i64) -> (r: bool)
        ensures
            r == self.spec_live_at(now as int),
    {
        now < self.exp
    }
}

/// Body of the register route.
pub struct RegisterRequest {
    pub email: String,
    pub password: String,
}

/// Body of the login route.
pub struct LoginRequest {
    pub email: String,
    pub password: String,
}

/// The user summary returned beside a token.
pub struct UserInfo {
    pub id: String,
    pub email: String,
    pub tier: String,
}

/// Response of the register and login routes.
pub struct AuthResponse {
    pub token: String,
    pub user: UserInfo,
}

/// Why a registration was refused.
#[derive(Debug)]
pub enum CredentialIssue {
    /// The email has no `@` or is shorter than five bytes.
    InvalidEmail,
    /// The password is shorter than eight bytes.
    WeakPassword,
}

/// The registration email rule: it holds an `@` and at least five
/// characters.
pub open spec fn spec_email_ok(email: Seq<char>) -> bool {
    (exists|i: int| 0 <= i < email.len() && email[i] == '@') && email.len() >= 5
}

/// Validate a registration request: the email is checked first, then the
/// password; admitted exactly when both rules hold.
pub fn validate_registration(req: &RegisterRequest) -> (r: Result<(), CredentialIssue>)
    ensures
        r is Ok <==> (spec_email_ok(req.email@) && req.password@.len() >= 8),
        r matches Err(e) && e is InvalidEmail <==> !spec_email_ok(req.email@),
        r matches Err(e) && e is WeakPassword <==> (spec_email_ok(req.email@)
            && req.password@.len() < 8),
{
    let n = req.email.as_str().unicode_len();
    let mut has_at = false;
    let mut i: usize = 0;
    while i < n
        invariant
            n == req.email@.len(),
            i <= n,
            has_at <==> (exists|j: int| 0 <= j < i && req.email@[j] == '@'),
        decreases n - i,
    {
        if req.email.as_str().get_char(i) == '@' {
            has_at = true;
        }
        i = i + 1;
    }
    if !has_at || n < 5 {
        return Err(CredentialIssue::InvalidEmail);
    }
    if req.password.as_str().unicode_len() < 8 {
        return Err(CredentialIssue::WeakPassword);
    }
    Ok(())
}

} // verus!
