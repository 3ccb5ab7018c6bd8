//! The gateway's credential flows: registration, password login, wallet
//! login and API keys, unified into one authenticated principal.
//!
//! The storage layer is abstract: callers look records up and pass them
//! in, and persist what comes back. Password hashing and wallet-signature
//! checking stand behind trusted wrappers whose results are named; every
//! decision around them is verified.

use vstd::prelude::*;

use crate::errors::ErrorKind;
use crate::models::{user_profile, AuthResponse, CreateUserRequest, NearWalletLoginRequest, User};
use crate::strutil::{all_digits, blen, dec_value};
use crate::token::{create_jwt_token, spec_new_claims, spec_token, spec_token_duration_hours};
use vstd::string::StringSliceAdditionalSpecFns;

verus! {

/// What bcrypt's verification answers for a password against a stored
/// hash: `Some(true)` on a match, `Some(false)` on a mismatch, `None` when
/// the stored hash is malformed. A function of the two texts alone.
pub uninterp spec fn bcrypt_check(password: Seq<char>, hash: Seq<char>) -> Option<bool>;

/// Relies on bcrypt::verify: it re-derives the hash with the cost and salt
/// stored in `hash` and compares in constant time, deterministically.
#[verifier::external_body]
fn bcrypt_verify_password(password: &str, hash: &str) -> (r: Option<bool>)
    ensures
        r == bcrypt_check(password@, hash@),
{
    bcrypt::verify(password, hash).ok()
}

/// Relies on bcrypt::hash: a fresh hash (with a random salt) verifies
/// against the password it was derived from.
#[verifier::external_body]
fn bcrypt_hash_password(password: &str) -> (r: Option<String>)
    ensures
        r matches Some(h) ==> bcrypt_check(password@, h@) == Some(true),
{
    bcrypt::hash(password, bcrypt::DEFAULT_COST).ok()
}

/// Whether a wallet signature text is valid for a message under a public
/// key: `None` when the key or signature text does not parse, otherwise
/// the cryptographic outcome. A function of the three inputs alone.
pub uninterp spec fn near_sig_valid(
    public_key: Seq<char>,
    signature: Seq<char>,
    message: Seq<u8>,
) -> Option<bool>;

/// Relies on near_crypto::PublicKey::from_str, Signature::from_str and
/// Signature::verify: parsing and verification are pure functions of the
/// texts and the message bytes.
#[verifier::external_body]
fn check_near_signature(public_key: &str, signature: &str, message: &[u8]) -> (r: Option<bool>)
    ensures
        r == near_sig_valid(public_key@, signature@, message@),
{
    let pk: near_crypto::PublicKey = public_key.parse().ok()?;
    let sig: near_crypto::Signature = signature.parse().ok()?;
    Some(sig.verify(message, &pk))
}

/// Issues the one-hour access response for an authenticated user.
fn issue_access_response(user: &User, jwt_secret: &str, now: u64) -> (r: AuthResponse)
    requires
        now + 2592000 <= u64::MAX,
    ensures
        r.token_type@ == "Bearer"@,
        r.expires_in == 3600,
        r.user.id == user.id,
        r.user.username@ == user.username@,
        r.access_token@ == spec_token(
            spec_new_claims(
                user.id,
                user.username@,
                crate::types::opt_view(user.near_account_id),
                "access"@,
                now,
                spec_token_duration_hours("access"@),
            ),
            vstd::utf8::encode_utf8(jwt_secret@),
        ),
{
    let token = match create_jwt_token(user, jwt_secret, "access", now) {
        Ok(t) => t,
        Err(_) => {
            proof {
                assert(false);
            }
            String::new()
        },
    };
    AuthResponse {
        access_token: token,
        token_type: "Bearer".to_owned(),
        expires_in: 3600,
        user: user_profile(user),
    }
}

/// A byte that may carry content in an account id: a lowercase ASCII
/// letter or a digit.
pub open spec fn is_account_char(b: u8) -> bool {
    (0x61 <= b <= 0x7A) || (0x30 <= b <= 0x39)
}

/// A separator byte of an account id: `-`, `_` or `.`.
pub open spec fn is_account_sep(b: u8) -> bool {
    b == 0x2D || b == 0x5F || b == 0x2E
}

/// The chain's account-id grammar: 2 to 64 bytes of lowercase letters,
/// digits and the separators `-`, `_`, `.`, where no separator starts or
/// ends the id or follows another separator.
pub open spec fn spec_valid_account_id(b: Seq<u8>) -> bool {
    &&& 2 <= b.len() <= 64
    &&& forall|i: int|
        0 <= i < b.len() ==> is_account_char(#[trigger] b[i]) || is_account_sep(b[i])
    &&& !is_account_sep(b[0])
    &&& !is_account_sep(b[b.len() - 1])
    &&& forall|i: int|
        1 <= i < b.len() ==> !(is_account_sep(#[trigger] b[i]) && is_account_sep(b[i - 1]))
}

/// Whether `account_id` satisfies the chain's account-id grammar.
pub fn is_valid_account_id(account_id: &str) -> (r: bool)
    ensures
        r == spec_valid_account_id(account_id.spec_bytes()),
{
    let b = account_id.as_bytes();
    let n = b.len();
    if n < 2 || n > 64 {
        return false;
    }
    let mut prev_sep: bool = false;
    let mut k: usize = 0;
    while k < n
        invariant
            b@ == account_id.spec_bytes(),
            n == b@.len(),
            2 <= n <= 64,
            0 <= k <= n,
            forall|j: int|
                0 <= j < k ==> is_account_char(#[trigger] b@[j]) || is_account_sep(b@[j]),
            k > 0 ==> !is_account_sep(b@[0]),
            k > 0 ==> prev_sep == is_account_sep(b@[k - 1]),
            forall|j: int|
                1 <= j < k ==> !(is_account_sep(#[trigger] b@[j]) && is_account_sep(b@[j - 1])),
        decreases n - k,
    {
        let c = b[k];
        let alnum = (c >= 0x61 && c <= 0x7A) || (c >= 0x30 && c <= 0x39);
        let sep = c == 0x2D || c == 0x5F || c == 0x2E;
        if !alnum && !sep {
            proof {
                assert(!is_account_char(b@[k as int]) && !is_account_sep(b@[k as int]));
                assert(!spec_valid_account_id(b@));
            }
            return false;
        }
        if sep && k == 0 {
            proof {
                assert(is_account_sep(b@[0]));
                assert(!spec_valid_account_id(b@));
            }
            return false;
        }
        if sep && prev_sep {
            proof {
                assert(is_account_sep(b@[k as int]) && is_account_sep(b@[k - 1]));
            }
            return false;
        }
        prev_sep = sep;
        k = k + 1;
    }
    if prev_sep {
        proof {
            assert(is_account_sep(b@[n - 1]));
        }
        return false;
    }
    true
}

/// Why registration input is refused, or `None` when it is acceptable:
/// username 3–50 bytes, password at least 8, a well-formed wallet account
/// if one is given, and no username or wallet conflict with existing
/// records.
pub open spec fn spec_register_err(
    req_username: Seq<char>,
    req_password: Seq<char>,
    account_id: Option<Seq<char>>,
    username_taken: bool,
    account_taken: bool,
) -> Option<ErrorKind> {
    if !(3 <= blen(req_username) <= 50 && blen(req_password) >= 8) {
        Some(ErrorKind::BadRequest)
    } else if username_taken {
        Some(ErrorKind::Conflict)
    } else if account_id matches Some(a) && !spec_valid_account_id(vstd::utf8::encode_utf8(a)) {
        Some(ErrorKind::BadRequest)
    } else if account_id is Some && account_taken {
        Some(ErrorKind::Conflict)
    } else {
        None
    }
}

/// Registers a user: validates the request against the uniqueness facts
/// the caller looked up, hashes the password, and issues a one-hour access
/// token. The returned `User` is what the caller must persist.
#[verifier::spinoff_prover]
#[verifier::rlimit(100)]
pub fn register_user(
    request: &CreateUserRequest,
    username_taken: bool,
    account_taken: bool,
    user_id: u128,
    now: u64,
    jwt_secret: &str,
) -> (r: Result<(User, AuthResponse), ErrorKind>)
    requires
        now + 2592000 <= u64::MAX,
    ensures
        ({
            let err = spec_register_err(
                request.username@,
                request.password@,
                crate::types::opt_view(request.near_account_id),
                username_taken,
                account_taken,
            );
            match err {
                Some(e) => r == Err::<(User, AuthResponse), ErrorKind>(e),
                None => r is Err ==> r->Err_0 == ErrorKind::Internal,
            }
        }),
        r matches Ok((user, resp)) ==> {
            &&& user.id == user_id
            &&& user.username@ == request.username@
            &&& crate::types::opt_view(user.near_account_id) == crate::types::opt_view(
                request.near_account_id,
            )
            &&& crate::types::opt_view(user.email) == crate::types::opt_view(request.email)
            &&& user.is_active && !user.is_admin
            &&& user.created_at == now && user.updated_at == now
            &&& user.password_hash matches Some(h) && bcrypt_check(request.password@, h@) == Some(
                true,
            )
            &&& resp.token_type@ == "Bearer"@
            &&& resp.expires_in == 3600
            &&& resp.user.id == user_id && resp.user.username@ == request.username@
            &&& resp.access_token@ == spec_token(
                spec_new_claims(
                    user_id,
                    request.username@,
                    crate::types::opt_view(request.near_account_id),
                    "access"@,
                    now,
                    spec_token_duration_hours("access"@),
                ),
                vstd::utf8::encode_utf8(jwt_secret@),
            )
        },
{
    if crate::models::validate_create_user_request(request).is_err() {
        return Err(ErrorKind::BadRequest);
    }
    if username_taken {
        return Err(ErrorKind::Conflict);
    }
    match &request.near_account_id {
        Some(a) => {
            if !is_valid_account_id(a.as_str()) {
                return Err(ErrorKind::BadRequest);
            }
            if account_taken {
                return Err(ErrorKind::Conflict);
            }
        },
        None => {},
    }
    let password_hash = match bcrypt_hash_password(request.password.as_str()) {
        Some(h) => h,
        None => {
            return Err(ErrorKind::Internal);
        },
    };
    let user = User {
        id: user_id,
        near_account_id: crate::types::clone_opt_string(&request.near_account_id),
        email: crate::types::clone_opt_string(&request.email),
        username: request.username.clone(),
        password_hash: Some(password_hash),
        is_active: true,
        is_admin: false,
        created_at: now,
        updated_at: now,
        last_login_at: None,
    };
    let resp = issue_access_response(&user, jwt_secret, now);
    Ok((user, resp))
}

/// Logs a user in by password: the record the caller looked up (or `None`)
/// and the submitted password decide the outcome, and a successful login
/// stamps `last_login_at` and issues a one-hour access token. Missing
/// users, inactive users, wallet-only accounts and wrong passwords all
/// answer `Unauthorized`, revealing nothing about which it was.
#[verifier::spinoff_prover]
#[verifier::rlimit(100)]
pub fn login_user(user: Option<User>, password: &str, now: u64, jwt_secret: &str) -> (r: Result<
    (User, AuthResponse),
    ErrorKind,
>)
    requires
        now + 2592000 <= u64::MAX,
    ensures
        user is None ==> r == Err::<(User, AuthResponse), ErrorKind>(ErrorKind::Unauthorized),
        user matches Some(u) ==> {
            &&& !u.is_active ==> r == Err::<(User, AuthResponse), ErrorKind>(
                ErrorKind::Unauthorized,
            )
            &&& u.is_active ==> match u.password_hash {
                None => r == Err::<(User, AuthResponse), ErrorKind>(ErrorKind::Unauthorized),
                Some(h) => match bcrypt_check(password@, h@) {
                Some(true) => r matches Ok((u2, resp)) && u2.id == u.id && u2.username@
                    == u.username@ && u2.last_login_at == Some(now) && resp.token_type@
                    == "Bearer"@ && resp.expires_in == 3600 && resp.access_token@ == spec_token(
                    spec_new_claims(
                        u.id,
                        u.username@,
                        crate::types::opt_view(u.near_account_id),
                        "access"@,
                        now,
                        spec_token_duration_hours("access"@),
                    ),
                    vstd::utf8::encode_utf8(jwt_secret@),
                ),
                    Some(false) => r == Err::<(User, AuthResponse), ErrorKind>(
                        ErrorKind::Unauthorized,
                    ),
                    None => r == Err::<(User, AuthResponse), ErrorKind>(ErrorKind::Internal),
                },
            }
        },
{
    let u = match user {
        Some(u) => u,
        None => {
            return Err(ErrorKind::Unauthorized);
        },
    };
    if !u.is_active {
        return Err(ErrorKind::Unauthorized);
    }
    let hash_ok = match &u.password_hash {
        Some(h) => match bcrypt_verify_password(password, h.as_str()) {
            Some(ok) => ok,
            None => {
                return Err(ErrorKind::Internal);
            },
        },
        None => {
            // a wallet-only account: the error kind does not reveal that
            return Err(ErrorKind::Unauthorized);
        },
    };
    if !hash_ok {
        return Err(ErrorKind::Unauthorized);
    }
    let stamped = User { last_login_at: Some(now), updated_at: u.updated_at, ..u };
    let resp = issue_access_response(&stamped, jwt_secret, now);
    Ok((stamped, resp))
}

/// The timestamp a login message carries: the digits after its last `|`
/// separator, provided there is exactly one separator.
pub open spec fn spec_message_ts(m: Seq<u8>) -> Option<u64> {
    let i = crate::token::idx_of_from(m, 0x7C, 0);
    if i < 0 {
        None
    } else if crate::token::idx_of_from(m, 0x7C, i + 1) >= 0 {
        None
    } else {
        let digits = m.subrange(i + 1, m.len() as int);
        if digits.len() > 0 && all_digits(digits) && dec_value(digits) <= u64::MAX {
            Some(dec_value(digits) as u64)
        } else {
            None
        }
    }
}

/// Reads the timestamp out of a `"<payload>|<unix seconds>"` login
/// message.
pub fn parse_message_timestamp(message: &str) -> (r: Option<u64>)
    ensures
        r == spec_message_ts(message.spec_bytes()),
{
    let b = message.as_bytes();
    let bn = b.len();
    let i = match crate::token::find_byte_from(b, 0x7C, 0) {
        Some(i) => i,
        None => {
            return None;
        },
    };
    if crate::token::find_byte_from(b, 0x7C, i + 1).is_some() {
        return None;
    }
    crate::strutil::parse_u64_dec(crate::token::subslice(b, i + 1, bn))
}

/// A login message is fresh at `now` when its timestamp is within 300
/// seconds either way.
pub open spec fn spec_message_fresh(ts: u64, now: u64) -> bool {
    (if now >= ts {
        now - ts
    } else {
        ts - now
    }) <= 300
}

/// Why a wallet login is refused, or `None` when it succeeds: the account
/// id must be well-formed, the key and signature must parse, the signature
/// must cover the exact message bytes, the message must carry one
/// separator and a fresh timestamp, and a known user must be active.
pub open spec fn spec_wallet_login_err(
    account_id: Seq<char>,
    public_key: Seq<char>,
    signature: Seq<char>,
    message: Seq<char>,
    existing: Option<User>,
    now: u64,
) -> Option<ErrorKind> {
    if !spec_valid_account_id(vstd::utf8::encode_utf8(account_id)) {
        Some(ErrorKind::BadRequest)
    } else {
        match near_sig_valid(public_key, signature, vstd::utf8::encode_utf8(message)) {
            None => Some(ErrorKind::BadRequest),
            Some(false) => Some(ErrorKind::Unauthorized),
            Some(true) => match spec_message_ts(vstd::utf8::encode_utf8(message)) {
                None => Some(ErrorKind::BadRequest),
                Some(ts) => if !spec_message_fresh(ts, now) {
                    Some(ErrorKind::Unauthorized)
                } else if existing matches Some(e) && !e.is_active {
                    Some(ErrorKind::Forbidden)
                } else {
                    None
                },
            },
        }
    }
}

/// Logs a user in by wallet signature: success exactly when the account
/// id is well-formed, the signature verifies over the message bytes, the
/// message carries a fresh timestamp, and any known user is active. The
/// caller passes the user found under the wallet account (or `None`); a
/// missing user is provisioned under the name `near_` + the account id
/// with dots replaced, and either way a one-hour access token is issued.
/// The returned `User` (and the flag saying whether it is new) is what
/// the caller must persist.
#[verifier::spinoff_prover]
#[verifier::rlimit(100)]
pub fn near_wallet_login(
    request: &NearWalletLoginRequest,
    existing: Option<User>,
    fresh_user_id: u128,
    now: u64,
    jwt_secret: &str,
) -> (r: Result<(User, AuthResponse, bool), ErrorKind>)
    requires
        now + 2592000 <= u64::MAX,
    ensures
        ({
            let err = spec_wallet_login_err(
                request.account_id@,
                request.public_key@,
                request.signature@,
                request.message@,
                existing,
                now,
            );
            match err {
                Some(e) => r == Err::<(User, AuthResponse, bool), ErrorKind>(e),
                None => r is Ok,
            }
        }),
        r matches Ok((user, resp, created)) ==> {
            &&& resp.token_type@ == "Bearer"@
            &&& resp.expires_in == 3600
            &&& user.is_active
            &&& (match existing {
                Some(e) => !created && user.id == e.id && user.username@ == e.username@
                    && user.last_login_at == Some(now),
                None => created && user.id == fresh_user_id && crate::types::opt_view(
                    user.near_account_id,
                ) == Some(request.account_id@) && vstd::utf8::encode_utf8(user.username@)
                    == "near_"@.map_values(|c: char| c as u8) + dots_mapped(
                    vstd::utf8::encode_utf8(request.account_id@),
                ),
            })
        },
{
    if !is_valid_account_id(request.account_id.as_str()) {
        return Err(ErrorKind::BadRequest);
    }
    match check_near_signature(
        request.public_key.as_str(),
        request.signature.as_str(),
        request.message.as_str().as_bytes(),
    ) {
        None => {
            return Err(ErrorKind::BadRequest);
        },
        Some(false) => {
            return Err(ErrorKind::Unauthorized);
        },
        Some(true) => {},
    }
    let ts = match parse_message_timestamp(request.message.as_str()) {
        Some(ts) => ts,
        None => {
            return Err(ErrorKind::BadRequest);
        },
    };
    let age = if now >= ts {
        now - ts
    } else {
        ts - now
    };
    if age > 300 {
        return Err(ErrorKind::Unauthorized);
    }
    let (user, created) = match existing {
        Some(e) => {
            if !e.is_active {
                return Err(ErrorKind::Forbidden);
            }
            (User { last_login_at: Some(now), ..e }, false)
        },
        None => {
            let username = wallet_username(request.account_id.as_str());
            (
                User {
                    id: fresh_user_id,
                    near_account_id: Some(request.account_id.clone()),
                    email: None,
                    username,
                    password_hash: None,
                    is_active: true,
                    is_admin: false,
                    created_at: now,
                    updated_at: now,
                    last_login_at: Some(now),
                },
                true,
            )
        },
    };
    let resp = issue_access_response(&user, jwt_secret, now);
    Ok((user, resp, created))
}

/// The bytes of an account id with every dot replaced by an underscore.
pub open spec fn dots_mapped(b: Seq<u8>) -> Seq<u8> {
    b.map_values(
        |x: u8|
            if x == 0x2E {
                0x5Fu8
            } else {
                x
            },
    )
}

/// The provisioned username for a wallet account: `near_` plus the account
/// id with dots replaced by underscores. A well-formed account id is all
/// ASCII, so the replacement always yields a string.
fn wallet_username(account_id: &str) -> (r: String)
    requires
        spec_valid_account_id(account_id.spec_bytes()),
    ensures
        vstd::utf8::encode_utf8(r@) == "near_"@.map_values(|c: char| c as u8) + dots_mapped(
            account_id.spec_bytes(),
        ),
{
    let b = account_id.as_bytes();
    let n = b.len();
    let mut out: Vec<u8> = Vec::new();
    out.push(0x6E);  // n
    out.push(0x65);  // e
    out.push(0x61);  // a
    out.push(0x72);  // r
    out.push(0x5F);  // _
    let ghost prefix = out@;
    let mut k: usize = 0;
    while k < n
        invariant
            n == b@.len(),
            0 <= k <= n,
            out@ == prefix + dots_mapped(b@.subrange(0, k as int)),
            prefix == seq![0x6Eu8, 0x65u8, 0x61u8, 0x72u8, 0x5Fu8],
        decreases n - k,
    {
        let c = b[k];
        if c == 0x2E {
            out.push(0x5F);
        } else {
            out.push(c);
        }
        proof {
            assert(dots_mapped(b@.subrange(0, k + 1)) =~= dots_mapped(
                b@.subrange(0, k as int),
            ).push(
                if b@[k as int] == 0x2E {
                    0x5Fu8
                } else {
                    b@[k as int]
                },
            ));
            assert(out@ =~= prefix + dots_mapped(b@.subrange(0, k + 1)));
        }
        k = k + 1;
    }
    proof {
        assert(b@.subrange(0, n as int) =~= b@);
        reveal_strlit("near_");
        assert("near_"@.map_values(|c: char| c as u8) =~= prefix);
        // everything written is ASCII: the prefix by construction, the rest
        // because the grammar admits only ASCII bytes
        assert forall|i: int| 0 <= i < out@.len() implies out@[i] < 0x80 by {
            if i >= 5 {
                assert(out@[i] == dots_mapped(b@)[i - 5]);
                assert(is_account_char(b@[i - 5]) || is_account_sep(b@[i - 5]));
            }
        }
    }
    crate::token::ascii_to_string(out.as_slice())
}

/// Creates an API key for `user`: a thirty-day signed bearer token plus
/// the record to persist. The optional expiry is `expires_in_days` days
/// from now; a negative count is refused.
pub fn create_user_api_key(
    user: &User,
    name: String,
    expires_in_days: Option<i32>,
    key_id: u128,
    now: u64,
    jwt_secret: &str,
) -> (r: Result<(crate::models::ApiKey, String), ErrorKind>)
    requires
        now + 2592000 <= u64::MAX,
        now + 86400 * 0x7fffffff <= u64::MAX,
    ensures
        r is Err <==> (expires_in_days matches Some(d) && d < 0),
        r is Err ==> r->Err_0 == ErrorKind::BadRequest,
        r matches Ok((key, token)) ==> {
            &&& key.id == key_id
            &&& key.user_id == user.id
            &&& key.name@ == name@
            &&& key.key_hash@ == token@
            &&& key.is_active
            &&& key.created_at == now
            &&& key.expires_at == (match expires_in_days {
                Some(d) => Some((now + d * 86400) as u64),
                None => None::<u64>,
            })
            &&& token@ == spec_token(
                spec_new_claims(
                    user.id,
                    user.username@,
                    crate::types::opt_view(user.near_account_id),
                    "api_key"@,
                    now,
                    spec_token_duration_hours("api_key"@),
                ),
                vstd::utf8::encode_utf8(jwt_secret@),
            )
        },
{
    let expires_at: Option<u64> = match expires_in_days {
        Some(d) => {
            if d < 0 {
                return Err(ErrorKind::BadRequest);
            }
            proof {
                assert(d * 86400 <= 0x7fffffff * 86400) by (nonlinear_arith)
                    requires
                        0 <= d <= 0x7fffffff,
                ;
            }
            Some(now + (d as u64) * 86400)
        },
        None => None,
    };
    let ghost name_v = name@;
    let token = match create_jwt_token(user, jwt_secret, "api_key", now) {
        Ok(t) => t,
        Err(_) => {
            proof {
                assert(false);
            }
            return Err(ErrorKind::Internal);
        },
    };
    let key = crate::models::ApiKey {
        id: key_id,
        user_id: user.id,
        name,
        key_hash: token.clone(),
        prefix: String::new(),
        is_active: true,
        rate_limit_override: None,
        created_at: now,
        last_used_at: None,
        expires_at,
    };
    Ok((key, token))
}

/// Confirms an API-key principal against the repository: the record the
/// caller looked up under the key's user and token must exist, belong to
/// the claimed user, and be live (active, strictly before expiry).
pub fn verify_user_api_key(
    claims: &crate::token::Claims,
    user: Option<User>,
    api_key: Option<crate::models::ApiKey>,
    now: u64,
) -> (r: Result<(User, crate::models::ApiKey), ErrorKind>)
    ensures
        r is Ok <==> claims.token_type@ == "api_key"@ && (user matches Some(u) && u.is_active) && (
        api_key matches Some(k) && k.is_active && (k.expires_at is None || now < k.expires_at->0)
            && (user matches Some(u2) && k.user_id == u2.id)),
        r is Err ==> r->Err_0 == ErrorKind::Unauthorized,
        r matches Ok((u, k)) ==> user == Some(u) && (api_key matches Some(k2) && k2.id == k.id),
{
    if !crate::strutil::str_eq(claims.token_type.as_str(), "api_key") {
        return Err(ErrorKind::Unauthorized);
    }
    let u = match user {
        Some(u) => u,
        None => {
            return Err(ErrorKind::Unauthorized);
        },
    };
    if !u.is_active {
        return Err(ErrorKind::Unauthorized);
    }
    let k = match api_key {
        Some(k) => k,
        None => {
            return Err(ErrorKind::Unauthorized);
        },
    };
    if !k.is_valid_at(now) {
        return Err(ErrorKind::Unauthorized);
    }
    if k.user_id != u.id {
        return Err(ErrorKind::Unauthorized);
    }
    Ok((u, k))
}

/// Verifies an API-key bearer token: exactly the tokens whose signed
/// claims check out, are unexpired and carry the `api_key` type come back
/// as claims; everything else is `Unauthorized`. The caller still confirms
/// the key is live in the repository.
#[verifier::spinoff_prover]
#[verifier::rlimit(100)]
pub fn verify_api_key_claims(token: &str, jwt_secret: &str, now: u64) -> (r: Result<
    crate::token::Claims,
    ErrorKind,
>)
    ensures
        match crate::token::spec_verify_token(
            token.spec_bytes(),
            vstd::utf8::encode_utf8(jwt_secret@),
            now,
        ) {
            None => r == Err::<crate::token::Claims, ErrorKind>(ErrorKind::Unauthorized),
            Some(cb) => {
                if vstd::utf8::valid_utf8(cb.sub) && vstd::utf8::valid_utf8(cb.username) && (
                match cb.account_id {
                    Some(a) => vstd::utf8::valid_utf8(a),
                    None => true,
                }) && vstd::utf8::valid_utf8(cb.token_type) {
                    if cb.token_type == vstd::utf8::encode_utf8("api_key"@) {
                        r matches Ok(c) && c.view_bytes() == cb
                    } else {
                        r == Err::<crate::token::Claims, ErrorKind>(ErrorKind::Unauthorized)
                    }
                } else {
                    r == Err::<crate::token::Claims, ErrorKind>(ErrorKind::Unauthorized)
                }
            },
        },
{
    let claims = match crate::token::verify_jwt_token(token, jwt_secret, now) {
        Ok(c) => c,
        Err(e) => {
            return Err(e);
        },
    };
    if !crate::strutil::str_eq(claims.token_type.as_str(), "api_key") {
        proof {
            // the byte forms differ exactly when the character forms do
            if vstd::utf8::encode_utf8(claims.token_type@) == vstd::utf8::encode_utf8(
                "api_key"@,
            ) {
                vstd::utf8::encode_utf8_decode_utf8(claims.token_type@);
                vstd::utf8::encode_utf8_decode_utf8("api_key"@);
            }
        }
        return Err(ErrorKind::Unauthorized);
    }
    proof {
        // the fields of accepted claims are encodings, hence valid UTF-8
        vstd::utf8::encode_utf8_valid_utf8(claims.sub@);
        vstd::utf8::encode_utf8_valid_utf8(claims.username@);
        vstd::utf8::encode_utf8_valid_utf8(claims.token_type@);
        if claims.account_id is Some {
            vstd::utf8::encode_utf8_valid_utf8(claims.account_id->0@);
        }
    }
    Ok(claims)
}

} // verus!
