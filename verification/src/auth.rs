use vstd::prelude::*;
use argon2::password_hash::rand_core::OsRng;
use argon2::password_hash::{PasswordHash, PasswordHasher, PasswordVerifier, SaltString};
use argon2::Argon2;
use rand::Rng;
use totp_rs::{Secret, TOTP};
use crate::clock::{now_rfc3339, now_unix_millis};
use crate::profile::opt_view;
use crate::table::{copy_strings, lemma_lookup_removed, lemma_lookup_upserted, lookup, Keyed, Table};
use crate::text::{chars_of, decimal, decimal_string, str_eq, string_of, strings};

verus! {

/// Failed logins after which an identifier is locked out.
pub const MAX_LOGIN_ATTEMPTS: u32 = 5;

/// How long a lockout lasts, in milliseconds (five minutes).
pub const LOCKOUT_MILLIS: u64 = 300_000;

/// Number of recovery codes handed out at setup.
pub const RECOVERY_CODE_COUNT: usize = 10;

/// Characters in one recovery code.
pub const RECOVERY_CODE_LEN: usize = 10;

/// Digits of a one-time code.
pub const TOTP_DIGITS: usize = 6;

/// Time steps of tolerance on either side when checking a one-time code.
pub const TOTP_SKEW: u8 = 1;

/// Seconds per one-time code.
pub const TOTP_STEP: u64 = 30;

/// The longest password, in characters, that is sure to be hashed: Argon2 takes passwords of up
/// to `0xFFFF_FFFF` bytes, and a character takes at most four bytes in UTF-8.
pub const MAX_HASHED_PASSWORD_CHARS: usize = 0x3FFF_FFFF;

/// The alphabet of recovery codes: upper-case letters and digits without `I`, `O`, `0`, `1`.
pub open spec fn recovery_alphabet() -> Seq<char> {
    "ABCDEFGHJKLMNPQRSTUVWXYZ23456789"@
}

/// The issuer written into authenticator URIs.
pub open spec fn totp_issuer() -> Seq<char> {
    "BrowserWorkspace"@
}

/// A well-formed recovery code.
pub open spec fn valid_recovery_code(c: Seq<char>) -> bool {
    &&& c.len() == RECOVERY_CODE_LEN
    &&& forall|i: int| 0 <= i < c.len() ==> recovery_alphabet().contains(#[trigger] c[i])
}

// ---------------------------------------------------------------------------------------------
// Names for what totp_rs and argon2 compute.

/// Base32 decoding (RFC 4648 alphabet, no padding) of a secret, `None` where the text is not
/// base32.
pub uninterp spec fn base32_decoded(text: Seq<char>) -> Option<Seq<u8>>;

/// The `otpauth://` URI that `totp_rs` writes for a secret, digit count, period, issuer and
/// account name.
pub uninterp spec fn totp_url_of(secret: Seq<u8>, digits: usize, step: u64, issuer: Seq<char>, account: Seq<char>) -> Seq<char>;

/// The message of the error that parsing a PHC hash string gives, `None` where it parses.
pub uninterp spec fn phc_error_of(phc: Seq<char>) -> Option<Seq<char>>;

/// The one-time code that totp_rs generates (SHA-1, RFC 6238) for a secret, a digit count and a
/// period at `time` seconds since the Unix epoch.
pub uninterp spec fn totp_code_of(secret: Seq<u8>, digits: usize, step: u64, time: u64) -> Seq<char>;

/// Whether Argon2 accepts `password` against the PHC hash string `phc`.
pub uninterp spec fn argon2_verifies(password: Seq<char>, phc: Seq<char>) -> bool;

/// `rand::thread_rng().gen_range(0..n)`: a random index below `n`. rand panics on an empty
/// range, so `n` must be positive. Which index comes back is left open.
#[verifier::external_body]
fn random_index(n: usize) -> (r: usize)
    requires
        n > 0,
    ensures
        r < n,
{
    rand::thread_rng().gen_range(0..n)
}

/// `Secret::generate_secret().to_encoded().to_string()` of totp_rs: twenty random bytes written
/// in base32 (RFC 4648, no padding). The bytes are random; claimed is only that the text
/// decodes back to twenty bytes.
#[verifier::external_body]
fn generate_totp_secret() -> (s: String)
    ensures
        base32_decoded(s@) is Some,
        base32_decoded(s@).unwrap().len() == 20,
{
    Secret::generate_secret().to_encoded().to_string()
}

/// `Secret::Encoded(secret).to_bytes()` of totp_rs: base32 decoding, `None` on text that is
/// not base32.
#[verifier::external_body]
fn decode_totp_secret(secret: &str) -> (r: Option<Vec<u8>>)
    ensures
        match r {
            Some(b) => base32_decoded(secret@) == Some(b@),
            None => base32_decoded(secret@) is None,
        },
{
    Secret::Encoded(secret.to_string()).to_bytes().ok()
}

/// `TOTP::new(Algorithm::SHA1, digits, skew, step, secret, Some(issuer), account)` of totp_rs,
/// then `get_url()`. `new` refuses fewer than 16 secret bytes, a digit count outside 6..=8 and a
/// `:` in the issuer or the account; `requires` rules those out. The URI is a function of the
/// arguments, named `totp_url_of`.
#[verifier::external_body]
fn totp_url(secret: &Vec<u8>, digits: usize, skew: u8, step: u64, issuer: &str, account: &str) -> (u: String)
    requires
        6 <= digits <= 8,
        secret@.len() >= 16,
        !issuer@.contains(':'),
        !account@.contains(':'),
    ensures
        u@ == totp_url_of(secret@, digits, step, issuer@, account@),
{
    TOTP::new(totp_rs::Algorithm::SHA1, digits, skew, step, secret.clone(), Some(issuer.to_string()), account.to_string())
        .unwrap()
        .get_url()
}

/// `TOTP::new(..)` as in `totp_url`, then `check_current(code)`: whether `code` is the code
/// `generate` gives at one of the `2 * skew + 1` steps around the current time. Which time that
/// is depends on the clock and is not claimed; claimed is that an accepted code is the code of
/// some time. `check` computes `time / step - skew` and `(that + i) * step`, which other
/// periods and tolerances could make overflow, so only the ones of this library are taken (a
/// clock less than one period after the epoch, or within a period of `u64::MAX` seconds, would
/// still overflow). The error of a clock before the epoch comes back as its message.
#[verifier::external_body]
fn totp_check_current(
    secret: &Vec<u8>,
    digits: usize,
    skew: u8,
    step: u64,
    issuer: &str,
    account: &str,
    code: &str,
) -> (r: Result<bool, String>)
    requires
        6 <= digits <= 8,
        step == TOTP_STEP,
        skew == TOTP_SKEW,
        secret@.len() >= 16,
        !issuer@.contains(':'),
        !account@.contains(':'),
    ensures
        r matches Ok(true) ==> exists|t: u64| #[trigger] totp_code_of(secret@, digits, step, t) == code@,
{
    let totp = TOTP::new(totp_rs::Algorithm::SHA1, digits, skew, step, secret.clone(), Some(issuer.to_string()), account.to_string())
        .unwrap();
    match totp.check_current(code) {
        Ok(b) => Ok(b),
        Err(e) => Err(e.to_string()),
    }
}

/// `PasswordHash::new(phc)` of password_hash: `None` where the PHC string parses, else the
/// message of its error.
#[verifier::external_body]
fn phc_parse_error(phc: &str) -> (r: Option<String>)
    ensures
        opt_view(r) == phc_error_of(phc@),
{
    match PasswordHash::new(phc) {
        Ok(_) => None,
        Err(e) => Some(e.to_string()),
    }
}

/// `Argon2::default().verify_password(password, &PasswordHash::new(phc)?)`: whether the password
/// matches a PHC string that parses.
#[verifier::external_body]
fn argon2_verify(password: &str, phc: &str) -> (ok: bool)
    requires
        phc_error_of(phc@) is None,
    ensures
        ok == argon2_verifies(password@, phc@),
{
    match PasswordHash::new(phc) {
        Ok(h) => Argon2::default().verify_password(password.as_bytes(), &h).is_ok(),
        Err(_) => false,
    }
}

/// `Argon2::default().hash_password(password, &SaltString::generate(&mut OsRng))`, written as a
/// PHC string; the error comes back as its message. The salt is random, so the text is not
/// claimed; what is claimed of every hash is that it parses and that Argon2 accepts the same
/// password against it. With the default parameters and a generated salt, hashing fails only on
/// a password longer than `0xFFFF_FFFF` bytes, so one of at most `MAX_HASHED_PASSWORD_CHARS`
/// characters is hashed.
#[verifier::external_body]
fn hash_password(password: &str) -> (r: Result<String, String>)
    ensures
        r matches Ok(h) ==> phc_error_of(h@) is None && argon2_verifies(password@, h@),
        password@.len() <= MAX_HASHED_PASSWORD_CHARS ==> r is Ok,
{
    let salt = SaltString::generate(&mut OsRng);
    match Argon2::default().hash_password(password.as_bytes(), &salt) {
        Ok(h) => Ok(h.to_string()),
        Err(e) => Err(e.to_string()),
    }
}

// ---------------------------------------------------------------------------------------------

/// The persisted authentication record.
#[derive(Debug)]
pub struct AuthStore {
    pub master_password_hash: String,
    pub email: String,
    pub mfa_secret: Option<String>,
    pub mfa_enabled: bool,
    pub recovery_codes: Vec<String>,
    pub created_at: String,
    pub updated_at: String,
}

/// An `AuthStore` with its texts as character sequences.
pub struct AuthStoreView {
    pub master_password_hash: Seq<char>,
    pub email: Seq<char>,
    pub mfa_secret: Option<Seq<char>>,
    pub mfa_enabled: bool,
    pub recovery_codes: Seq<Seq<char>>,
    pub created_at: Seq<char>,
    pub updated_at: Seq<char>,
}

/// The record `t` is `s` with MFA turned on or off as `on` says and a new update time.
pub open spec fn mfa_set(s: AuthStoreView, t: AuthStoreView, on: bool) -> bool {
    t == AuthStoreView { mfa_enabled: on, updated_at: t.updated_at, ..s }
}

/// What `get_mfa_status` answers for a record: whether MFA is on, or that there is none.
pub open spec fn mfa_status_of(store: Option<AuthStoreView>) -> Result<bool, Seq<char>> {
    match store {
        None => Err("Auth not configured"@),
        Some(s) => Ok(s.mfa_enabled),
    }
}

/// A lock lasts exactly the lockout: once a failed login of `id` at time `t0` reaches the
/// maximum, a lockout check of `id` at any time before `t0` plus the lockout refuses, telling the
/// whole seconds left, and keeps every record; a check at or after that moment passes and clears
/// the record of `id`.
pub proof fn law_lock_lasts_the_lockout(
    before: AuthManager,
    locked: AuthManager,
    after: AuthManager,
    id: Seq<char>,
    t0: u64,
    now: u64,
    r: Result<(), String>,
)
    requires
        count_of(before.attempt(id)) + 1 >= MAX_LOGIN_ATTEMPTS,
        locked.attempt(id) == Some(failed_once(before.attempt(id), t0)),
        AuthManager::lockout_checked(locked, after, id, now, r),
    ensures
        now < t0 + LOCKOUT_MILLIS ==> (r matches Err(e) && e@ == lockout_message(
            (t0 + LOCKOUT_MILLIS - now) as nat,
        ) && after.login_attempts == locked.login_attempts),
        now >= t0 + LOCKOUT_MILLIS ==> r is Ok && after.attempt(id) is None,
{
}

/// MFA status across setup, enabling and disabling: right after a setup it is off; enabling
/// turns it on and disabling turns it off, whatever it was; the secret, codes and password stay.
pub proof fn law_mfa_status(set_up: AuthStoreView, enabled: AuthStoreView, disabled: AuthStoreView)
    requires
        !set_up.mfa_enabled,
        mfa_set(set_up, enabled, true),
        mfa_set(enabled, disabled, false),
    ensures
        mfa_status_of(Some(set_up)) == Ok::<bool, Seq<char>>(false),
        mfa_status_of(Some(enabled)) == Ok::<bool, Seq<char>>(true),
        mfa_status_of(Some(disabled)) == Ok::<bool, Seq<char>>(false),
        disabled.mfa_secret == set_up.mfa_secret && disabled.recovery_codes == set_up.recovery_codes
            && disabled.master_password_hash == set_up.master_password_hash,
{
}

impl View for AuthStore {
    type V = AuthStoreView;

    open spec fn view(&self) -> AuthStoreView {
        AuthStoreView {
            master_password_hash: self.master_password_hash@,
            email: self.email@,
            mfa_secret: opt_view(self.mfa_secret),
            mfa_enabled: self.mfa_enabled,
            recovery_codes: strings(self.recovery_codes@),
            created_at: self.created_at@,
            updated_at: self.updated_at@,
        }
    }
}

/// What `setup` hands back: the recovery codes, the authenticator URI and the TOTP secret.
#[derive(Debug)]
pub struct AuthSetupResult {
    pub recovery_codes: Vec<String>,
    pub totp_uri: String,
    pub mfa_secret: String,
}

/// Failed logins of one identifier and, once locked, the moment (milliseconds since the Unix
/// epoch) the lock ends.
#[derive(Clone, Copy, Debug)]
pub struct LoginAttempt {
    pub count: u32,
    pub locked_until: Option<u128>,
}

/// A `LoginAttempt` stored under its identifier.
#[derive(Debug)]
pub struct AttemptRecord {
    pub identifier: String,
    pub attempt: LoginAttempt,
}

impl View for AttemptRecord {
    type V = AttemptRecord;

    open spec fn view(&self) -> AttemptRecord {
        *self
    }
}

impl Keyed for AttemptRecord {
    open spec fn key(&self) -> Seq<char> {
        self.identifier@
    }

    fn key_string(&self) -> (r: &String) {
        &self.identifier
    }

    fn duplicate(&self) -> (r: Self) {
        AttemptRecord { identifier: self.identifier.clone(), attempt: self.attempt }
    }
}

/// Failed logins recorded so far.
pub open spec fn count_of(a: Option<LoginAttempt>) -> nat {
    match a {
        Some(x) => x.count as nat,
        None => 0,
    }
}

/// The end of the lock, if any.
pub open spec fn locked_until_of(a: Option<LoginAttempt>) -> Option<u128> {
    match a {
        Some(x) => x.locked_until,
        None => None,
    }
}

/// The attempt record after one more failed login at `now`: the count goes up by one, and
/// reaching the maximum locks until `now` plus the lockout.
pub open spec fn failed_once(prev: Option<LoginAttempt>, now: u64) -> LoginAttempt {
    let count = count_of(prev) + 1;
    LoginAttempt {
        count: count as u32,
        locked_until: if count >= MAX_LOGIN_ATTEMPTS {
            Some((now + LOCKOUT_MILLIS) as u128)
        } else {
            locked_until_of(prev)
        },
    }
}

/// The refusal of a locked identifier, with the whole seconds left.
pub open spec fn lockout_message(remaining_ms: nat) -> Seq<char> {
    "Account locked. Try again in "@ + decimal(remaining_ms / 1000) + " seconds"@
}

/// The refusal of the failed login that locks.
pub open spec fn locking_message() -> Seq<char> {
    "Too many failed attempts. Account locked for 5 minutes."@
}

/// A lock that ends no later than a clock reading plus the lockout.
pub open spec fn lock_bounded(a: Option<LoginAttempt>) -> bool {
    locked_until_of(a) matches Some(t) ==> t <= u64::MAX + LOCKOUT_MILLIS
}

/// The position of the first occurrence of `x` in `s`, or -1.
pub open spec fn first_index(s: Seq<Seq<char>>, x: Seq<char>) -> int
    decreases s.len(),
{
    if s.len() == 0 {
        -1
    } else if first_index(s.drop_last(), x) >= 0 {
        first_index(s.drop_last(), x)
    } else if s.last() == x {
        s.len() - 1
    } else {
        -1
    }
}

proof fn lemma_first_index_none(s: Seq<Seq<char>>, x: Seq<char>, i: int)
    requires
        0 <= i <= s.len(),
        forall|k: int| 0 <= k < i ==> #[trigger] s[k] != x,
    ensures
        first_index(s.take(i), x) == -1,
    decreases i,
{
    if i > 0 {
        assert(s.take(i).drop_last() == s.take(i - 1));
        lemma_first_index_none(s, x, i - 1);
    } else {
        assert(s.take(0).len() == 0);
    }
}

proof fn lemma_first_index_hit(s: Seq<Seq<char>>, x: Seq<char>, i: int)
    requires
        0 <= i < s.len(),
        first_index(s.take(i), x) == -1,
        s[i] == x,
    ensures
        first_index(s, x) == i,
    decreases s.len(),
{
    if s.len() == i + 1 {
        assert(s.drop_last() == s.take(i));
    } else {
        let d = s.drop_last();
        assert(d.take(i) == s.take(i));
        lemma_first_index_hit(d, x, i);
    }
}

/// Whether a TOTP secret and account name make an authenticator URI: the secret decodes to at
/// least 16 bytes and the account holds no `:`.
pub open spec fn uri_ok(secret: Seq<char>, email: Seq<char>) -> bool {
    &&& base32_decoded(secret) matches Some(b) && b.len() >= 16
    &&& !email.contains(':')
}

/// The authenticator URI of a secret and account name.
pub open spec fn totp_uri_of(secret: Seq<char>, email: Seq<char>) -> Seq<char> {
    match base32_decoded(secret) {
        Some(b) => totp_url_of(b, TOTP_DIGITS, TOTP_STEP, totp_issuer(), email),
        None => Seq::empty(),
    }
}

/// The issuer, as a string.
fn issuer_str() -> (s: &'static str)
    ensures
        s@ == totp_issuer(),
        !s@.contains(':'),
{
    proof {
        reveal_strlit("BrowserWorkspace");
        assert(totp_issuer().len() == 16);
        assert forall|i: int| 0 <= i < 16 implies totp_issuer()[i] != ':' by {}
    }
    "BrowserWorkspace"
}

/// Whether `s` holds a `:`.
fn has_colon(s: &str) -> (r: bool)
    ensures
        r == s@.contains(':'),
{
    let cs = chars_of(s);
    let mut i: usize = 0;
    while i < cs.len()
        invariant
            0 <= i <= cs@.len(),
            cs@ == s@,
            forall|k: int| 0 <= k < i ==> cs@[k] != ':',
        decreases cs.len() - i,
    {
        if cs[i] == ':' {
            assert(s@[i as int] == ':');
            return true;
        }
        i = i + 1;
    }
    false
}

/// The authenticator URI for a TOTP secret (base32) and account name.
pub fn generate_totp_uri(secret: &str, email: &str) -> (u: String)
    requires
        uri_ok(secret@, email@),
    ensures
        u@ == totp_uri_of(secret@, email@),
{
    let bytes = decode_totp_secret(secret);
    let issuer = issuer_str();
    match bytes {
        Some(b) => totp_url(&b, TOTP_DIGITS, TOTP_SKEW, TOTP_STEP, issuer, email),
        None => String::new(),
    }
}

/// The authenticator URI where the secret and account make one, else `None`.
pub fn totp_uri_for(secret: &str, email: &str) -> (r: Option<String>)
    ensures
        r is None <==> !uri_ok(secret@, email@),
        r matches Some(u) ==> u@ == totp_uri_of(secret@, email@),
{
    match decode_totp_secret(secret) {
        Some(b) => {
            if b.len() >= 16 && !has_colon(email) {
                Some(generate_totp_uri(secret, email))
            } else {
                None
            }
        },
        None => None,
    }
}

/// What a checked one-time code amounts to: accepted, refused, or the clock's error.
pub fn totp_verdict(check: Result<bool, String>) -> (r: Result<(), String>)
    ensures
        match check {
            Ok(true) => r is Ok,
            Ok(false) => r matches Err(e) && e@ == "Invalid TOTP code"@,
            Err(m) => r matches Err(e) && e@ == "TOTP error: "@ + m@,
        },
{
    match check {
        Ok(true) => Ok(()),
        Ok(false) => Err("Invalid TOTP code".to_string()),
        Err(m) => {
            let mut v: Vec<char> = chars_of("TOTP error: ");
            let mv = chars_of(m.as_str());
            let mut i: usize = 0;
            while i < mv.len()
                invariant
                    0 <= i <= mv@.len(),
                    mv@ == m@,
                    v@ == "TOTP error: "@ + m@.take(i as int),
                decreases mv.len() - i,
            {
                v.push(mv[i]);
                i = i + 1;
                assert(m@.take(i as int) == m@.take(i - 1).push(m@[i - 1]));
            }
            assert(m@.take(m@.len() as int) == m@);
            Err(string_of(&v))
        },
    }
}

/// `prefix` followed by `s`.
fn prefixed(prefix: &str, s: &str) -> (r: String)
    ensures
        r@ == prefix@ + s@,
{
    let mut v = chars_of(prefix);
    let sv = chars_of(s);
    let mut i: usize = 0;
    while i < sv.len()
        invariant
            0 <= i <= sv@.len(),
            sv@ == s@,
            v@ == prefix@ + s@.take(i as int),
        decreases sv.len() - i,
    {
        v.push(sv[i]);
        i = i + 1;
        assert(s@.take(i as int) == s@.take(i - 1).push(s@[i - 1]));
    }
    assert(s@.take(s@.len() as int) == s@);
    string_of(&v)
}

/// One recovery code: `RECOVERY_CODE_LEN` (ten) characters drawn at random from the recovery alphabet.
fn generate_recovery_code() -> (c: String)
    ensures
        valid_recovery_code(c@),
{
    let alphabet = chars_of("ABCDEFGHJKLMNPQRSTUVWXYZ23456789");
    proof {
        reveal_strlit("ABCDEFGHJKLMNPQRSTUVWXYZ23456789");
    }
    assert(alphabet@.len() == 32);
    let mut out: Vec<char> = Vec::new();
    let mut k: usize = 0;
    while k < RECOVERY_CODE_LEN
        invariant
            k <= RECOVERY_CODE_LEN,
            out@.len() == k,
            alphabet@ == recovery_alphabet(),
            alphabet@.len() == 32,
            forall|j: int| 0 <= j < k ==> recovery_alphabet().contains(#[trigger] out@[j]),
        decreases RECOVERY_CODE_LEN - k,
    {
        let i = random_index(alphabet.len());
        let ch = alphabet[i];
        assert(recovery_alphabet()[i as int] == ch);
        out.push(ch);
        k = k + 1;
    }
    string_of(&out)
}

/// `RECOVERY_CODE_COUNT` (ten) fresh recovery codes.
pub fn generate_recovery_codes() -> (codes: Vec<String>)
    ensures
        codes@.len() == RECOVERY_CODE_COUNT,
        forall|i: int| 0 <= i < codes@.len() ==> valid_recovery_code(#[trigger] codes@[i]@),
{
    let mut codes: Vec<String> = Vec::new();
    let mut k: usize = 0;
    while k < RECOVERY_CODE_COUNT
        invariant
            k <= RECOVERY_CODE_COUNT,
            codes@.len() == k,
            forall|i: int| 0 <= i < k ==> valid_recovery_code(#[trigger] codes@[i]@),
        decreases RECOVERY_CODE_COUNT - k,
    {
        codes.push(generate_recovery_code());
        k = k + 1;
    }
    codes
}

/// The master password, TOTP settings and recovery codes, with the failed-login bookkeeping.
pub struct AuthManager {
    pub store: Option<AuthStore>,
    pub login_attempts: Table<AttemptRecord>,
}

impl AuthManager {
    /// The stored record, by its view.
    pub open spec fn store_view(&self) -> Option<AuthStoreView> {
        match self.store {
            Some(s) => Some(s@),
            None => None,
        }
    }

    /// The failed-login record of `id`.
    pub open spec fn attempt(&self, id: Seq<char>) -> Option<LoginAttempt> {
        match lookup(self.login_attempts.rows@, id) {
            Some(r) => Some(r.attempt),
            None => None,
        }
    }

    /// Identifiers are unique and every lock ends within a lockout of some clock reading.
    pub open spec fn wf(&self) -> bool {
        &&& self.login_attempts.wf()
        &&& forall|k: Seq<char>| #[trigger] lock_bounded(self.attempt(k))
    }

    /// The manager of a stored record (or of none yet), with no failed logins.
    pub fn new(store: Option<AuthStore>) -> (m: Self)
        ensures
            m.wf(),
            m.store == store,
            forall|k: Seq<char>| #[trigger] m.attempt(k) is None,
    {
        AuthManager { store, login_attempts: Table::new() }
    }

    /// Whether a master password has been set.
    pub fn is_setup(&self) -> (b: bool)
        ensures
            b == self.store.is_some(),
    {
        self.store.is_some()
    }

    /// Sets the master password and account e-mail, with a fresh TOTP secret (MFA off) and ten
    /// recovery codes. Fails when already set up, or when hashing fails (only on a password of more
    /// than `MAX_HASHED_PASSWORD_CHARS` characters).
    pub fn setup(&mut self, password: &str, email: &str) -> (r: Result<AuthSetupResult, String>)
        requires
            old(self).wf(),
            !email@.contains(':'),
        ensures
            final(self).wf(),
            final(self).login_attempts == old(self).login_attempts,
            old(self).store is Some ==> (r matches Err(e) && e@ == "Auth already configured"@
                && final(self).store == old(self).store),
            old(self).store is None && password@.len() <= MAX_HASHED_PASSWORD_CHARS ==> r is Ok,
            old(self).store is None ==> match r {
                Ok(res) => final(self).store_view() matches Some(s) && {
                    &&& argon2_verifies(password@, s.master_password_hash)
                    &&& phc_error_of(s.master_password_hash) is None
                    &&& s.email == email@
                    &&& s.mfa_secret == Some(res.mfa_secret@)
                    &&& uri_ok(res.mfa_secret@, email@)
                    &&& !s.mfa_enabled
                    &&& s.recovery_codes == strings(res.recovery_codes@)
                    &&& s.recovery_codes.len() == RECOVERY_CODE_COUNT
                    &&& forall|i: int| 0 <= i < s.recovery_codes.len()
                        ==> valid_recovery_code(#[trigger] s.recovery_codes[i])
                    &&& s.created_at == s.updated_at
                    &&& res.totp_uri@ == totp_uri_of(res.mfa_secret@, email@)
                },
                Err(e) => e@.take(12) == "Hash error: "@ && final(self).store is None,
            },
    {
        if self.store.is_some() {
            return Err("Auth already configured".to_string());
        }
        let hash = match hash_password(password) {
            Ok(h) => h,
            Err(m) => {
                let e = prefixed("Hash error: ", m.as_str());
                proof {
                    reveal_strlit("Hash error: ");
                    assert(e@.take(12) == "Hash error: "@);
                }
                return Err(e);
            },
        };
        let secret = generate_totp_secret();
        let recovery_codes = generate_recovery_codes();
        let now = now_rfc3339();
        let store = AuthStore {
            master_password_hash: hash,
            email: email.to_owned(),
            mfa_secret: Some(secret.clone()),
            mfa_enabled: false,
            recovery_codes: copy_strings(&recovery_codes),
            created_at: now.clone(),
            updated_at: now,
        };
        self.store = Some(store);
        let totp_uri = generate_totp_uri(secret.as_str(), email);
        assert(strings(recovery_codes@).len() == RECOVERY_CODE_COUNT);
        assert forall|i: int| 0 <= i < strings(recovery_codes@).len() implies valid_recovery_code(
            #[trigger] strings(recovery_codes@)[i],
        ) by {
            assert(strings(recovery_codes@)[i] == recovery_codes@[i]@);
        }
        assert forall|k: Seq<char>| #[trigger] lock_bounded(self.attempt(k)) by {
            assert(lock_bounded(old(self).attempt(k)));
        }
        Ok(AuthSetupResult { recovery_codes, totp_uri, mfa_secret: secret })
    }

    /// Checks `password` against the master password.
    pub fn verify_password(&self, password: &str) -> (r: Result<(), String>)
        ensures
            unit_result_view(r) == password_verdict(self.store_view(), password@),
    {
        match &self.store {
            None => Err("Auth not configured".to_string()),
            Some(s) => match phc_parse_error(s.master_password_hash.as_str()) {
                Some(m) => Err(prefixed("Parse error: ", m.as_str())),
                None => {
                    if argon2_verify(password, s.master_password_hash.as_str()) {
                        Ok(())
                    } else {
                        Err("Invalid password".to_string())
                    }
                },
            },
        }
    }

    /// Refuses an identifier whose lock has not ended at `now` (milliseconds since the Unix
    /// epoch); a lock that has ended is cleared together with its count.
    pub fn check_lockout_at(&mut self, identifier: &str, now: u64) -> (r: Result<(), String>)
        requires
            old(self).wf(),
        ensures
            final(self).wf(),
            final(self).store == old(self).store,
            match locked_until_of(old(self).attempt(identifier@)) {
                Some(t) => if now < t {
                    &&& r matches Err(e) && e@ == lockout_message((t - now) as nat)
                    &&& final(self).login_attempts == old(self).login_attempts
                } else {
                    &&& r is Ok
                    &&& final(self).attempt(identifier@) is None
                    &&& forall|k: Seq<char>| k != identifier@ ==> #[trigger] final(self).attempt(k)
                        == old(self).attempt(k)
                },
                None => r is Ok && final(self).login_attempts == old(self).login_attempts,
            },
    {
        let locked: Option<u128> = match self.login_attempts.get(identifier) {
            Some(rec) => rec.attempt.locked_until,
            None => None,
        };
        match locked {
            Some(t) => {
                if (now as u128) < t {
                    assert(lock_bounded(self.attempt(identifier@)));
                    let remaining: u128 = (t - now as u128) / 1000;
                    assert(remaining <= u64::MAX);
                    let secs = decimal_string(remaining as u64);
                    let msg = prefixed("Account locked. Try again in ", secs.as_str());
                    let full = concat_str(msg.as_str(), " seconds");
                    Err(full)
                } else {
                    let ghost before = self.login_attempts.rows@;
                    self.login_attempts.remove_key(identifier);
                    proof {
                        lemma_lookup_removed(before, identifier@, identifier@);
                        assert forall|k: Seq<char>| k != identifier@ implies #[trigger] self.attempt(k)
                            == old(self).attempt(k) by {
                            lemma_lookup_removed(before, identifier@, k);
                        }
                        assert forall|k: Seq<char>| #[trigger] lock_bounded(self.attempt(k)) by {
                            lemma_lookup_removed(before, identifier@, k);
                            assert(lock_bounded(old(self).attempt(k)));
                        }
                    }
                    Ok(())
                }
            },
            None => Ok(()),
        }
    }

    /// What a lockout check of `id` at time `now` does, taking the manager from `before` to
    /// `after` with result `r`: refused while the lock has not ended at `now` (nothing changes),
    /// passed once it has (the record of `id` is cleared, every other record kept), and passed
    /// without change when `id` is not locked.
    pub open spec fn lockout_checked(before: AuthManager, after: AuthManager, id: Seq<char>, now: u64, r: Result<(), String>) -> bool {
        &&& after.store == before.store
        &&& match locked_until_of(before.attempt(id)) {
            Some(t) => if now < t {
                &&& r matches Err(e) && e@ == lockout_message((t - now) as nat)
                &&& after.login_attempts == before.login_attempts
            } else {
                &&& r is Ok
                &&& after.attempt(id) is None
                &&& forall|k: Seq<char>| k != id ==> #[trigger] after.attempt(k) == before.attempt(k)
            },
            None => r is Ok && after.login_attempts == before.login_attempts,
        }
    }

    /// `check_lockout_at` at the current time: the outcome is that of `check_lockout_at` at the
    /// moment the clock gave, which is not claimed.
    pub fn check_lockout(&mut self, identifier: &str) -> (r: Result<(), String>)
        requires
            old(self).wf(),
        ensures
            final(self).wf(),
            final(self).store == old(self).store,
            exists|now: u64| #[trigger] Self::lockout_checked(*old(self), *final(self), identifier@, now, r),
            locked_until_of(old(self).attempt(identifier@)) is None ==> r is Ok
                && final(self).login_attempts == old(self).login_attempts,
            r is Err ==> final(self).login_attempts == old(self).login_attempts,
            r is Ok ==> final(self).attempt(identifier@) is None || final(self).login_attempts
                == old(self).login_attempts,
            forall|k: Seq<char>| k != identifier@ ==> #[trigger] final(self).attempt(k) == old(self).attempt(k),
    {
        let now = now_unix_millis();
        let r = self.check_lockout_at(identifier, now);
        assert(Self::lockout_checked(*old(self), *self, identifier@, now, r));
        r
    }

    /// Failed logins recorded for `identifier`.
    pub fn failed_attempts(&self, identifier: &str) -> (n: u32)
        requires
            self.wf(),
        ensures
            n == count_of(self.attempt(identifier@)),
    {
        match self.login_attempts.get(identifier) {
            Some(rec) => rec.attempt.count,
            None => 0,
        }
    }

    /// Records a failed login at `now`; the one that reaches the maximum locks the identifier for
    /// the lockout and is refused.
    pub fn record_failed_attempt_at(&mut self, identifier: &str, now: u64) -> (r: Result<(), String>)
        requires
            old(self).wf(),
            count_of(old(self).attempt(identifier@)) < u32::MAX,
        ensures
            final(self).wf(),
            final(self).store == old(self).store,
            final(self).attempt(identifier@) == Some(failed_once(old(self).attempt(identifier@), now)),
            forall|k: Seq<char>| k != identifier@ ==> #[trigger] final(self).attempt(k) == old(self).attempt(k),
            count_of(old(self).attempt(identifier@)) + 1 >= MAX_LOGIN_ATTEMPTS ==> (r matches Err(e) && e@
                == locking_message()),
            count_of(old(self).attempt(identifier@)) + 1 < MAX_LOGIN_ATTEMPTS ==> r is Ok,
    {
        let prev: Option<LoginAttempt> = match self.login_attempts.get(identifier) {
            Some(rec) => Some(rec.attempt),
            None => None,
        };
        let count: u32 = match prev {
            Some(a) => a.count + 1,
            None => 1,
        };
        let locked_until: Option<u128> = if count >= MAX_LOGIN_ATTEMPTS {
            Some(now as u128 + LOCKOUT_MILLIS as u128)
        } else {
            match prev {
                Some(a) => a.locked_until,
                None => None,
            }
        };
        let rec = AttemptRecord { identifier: identifier.to_owned(), attempt: LoginAttempt { count, locked_until } };
        let ghost g = rec;
        let ghost before = self.login_attempts.rows@;
        assert(prev == old(self).attempt(identifier@));
        self.login_attempts.upsert(rec);
        proof {
            lemma_lookup_upserted(before, g, identifier@);
            assert forall|k: Seq<char>| k != identifier@ implies #[trigger] self.attempt(k) == old(self).attempt(k) by {
                lemma_lookup_upserted(before, g, k);
            }
            assert forall|k: Seq<char>| #[trigger] lock_bounded(self.attempt(k)) by {
                lemma_lookup_upserted(before, g, k);
                assert(lock_bounded(old(self).attempt(k)));
            }
        }
        if count >= MAX_LOGIN_ATTEMPTS {
            Err("Too many failed attempts. Account locked for 5 minutes.".to_string())
        } else {
            Ok(())
        }
    }

    /// `record_failed_attempt_at` at the current time.
    pub fn record_failed_attempt(&mut self, identifier: &str) -> (r: Result<(), String>)
        requires
            old(self).wf(),
            count_of(old(self).attempt(identifier@)) < u32::MAX,
        ensures
            final(self).wf(),
            final(self).store == old(self).store,
            exists|now: u64| final(self).attempt(identifier@) == Some(#[trigger] failed_once(old(self).attempt(identifier@), now)),
            forall|k: Seq<char>| k != identifier@ ==> #[trigger] final(self).attempt(k) == old(self).attempt(k),
            count_of(old(self).attempt(identifier@)) + 1 >= MAX_LOGIN_ATTEMPTS ==> (r matches Err(e) && e@
                == locking_message()),
            count_of(old(self).attempt(identifier@)) + 1 < MAX_LOGIN_ATTEMPTS ==> r is Ok,
    {
        let now = now_unix_millis();
        self.record_failed_attempt_at(identifier, now)
    }

    /// Forgets the failed logins of `identifier`.
    pub fn reset_attempts(&mut self, identifier: &str)
        requires
            old(self).wf(),
        ensures
            final(self).wf(),
            final(self).store == old(self).store,
            final(self).attempt(identifier@) is None,
            forall|k: Seq<char>| k != identifier@ ==> #[trigger] final(self).attempt(k) == old(self).attempt(k),
    {
        let ghost before = self.login_attempts.rows@;
        self.login_attempts.remove_key(identifier);
        proof {
            lemma_lookup_removed(before, identifier@, identifier@);
            assert forall|k: Seq<char>| k != identifier@ implies #[trigger] self.attempt(k) == old(self).attempt(k) by {
                lemma_lookup_removed(before, identifier@, k);
            }
            assert forall|k: Seq<char>| #[trigger] lock_bounded(self.attempt(k)) by {
                lemma_lookup_removed(before, identifier@, k);
                assert(lock_bounded(old(self).attempt(k)));
            }
        }
    }
}

impl AuthManager {
    /// Whether the stored TOTP secret makes an authenticator URI for the stored account.
    pub open spec fn secret_usable(&self) -> bool {
        match self.store_view() {
            Some(s) => match s.mfa_secret {
                Some(x) => uri_ok(x, s.email),
                None => false,
            },
            None => false,
        }
    }

    /// Whether checking a one-time code reaches a stored secret that decodes.
    pub open spec fn reaches_secret_check(&self) -> bool {
        match self.store_view() {
            Some(s) => match s.mfa_secret {
                Some(x) => s.mfa_enabled && base32_decoded(x) is Some,
                None => false,
            },
            None => false,
        }
    }

    /// Whether the stored TOTP secret and account can be handed to a TOTP check: a secret that
    /// does not decode is refused before that, one that decodes must be usable.
    pub open spec fn totp_checkable(&self) -> bool {
        self.reaches_secret_check() ==> self.secret_usable()
    }

    /// What `get_totp_uri` answers: the URI of the stored secret, or why there is none.
    pub open spec fn totp_uri_answer(&self, r: Result<String, String>) -> bool {
        match self.store_view() {
            None => r matches Err(e) && e@ == "Auth not configured"@,
            Some(s) => match s.mfa_secret {
                None => r matches Err(e) && e@ == "MFA not configured"@,
                Some(x) => r matches Ok(u) && u@ == totp_uri_of(x, s.email),
            },
        }
    }

    /// Whether the stored TOTP secret makes an authenticator URI.
    pub fn is_secret_usable(&self) -> (b: bool)
        ensures
            b == self.secret_usable(),
    {
        match &self.store {
            Some(s) => match &s.mfa_secret {
                Some(x) => totp_uri_for(x.as_str(), s.email.as_str()).is_some(),
                None => false,
            },
            None => false,
        }
    }

    /// Checks a one-time code when MFA is on; with MFA off every code passes.
    pub fn verify_totp(&self, code: &str) -> (r: Result<(), String>)
        requires
            self.totp_checkable(),
        ensures
            match self.store_view() {
                None => r matches Err(e) && e@ == "Auth not configured"@,
                Some(s) => if !s.mfa_enabled {
                    r is Ok
                } else {
                    match s.mfa_secret {
                        None => r matches Err(e) && e@ == "MFA not configured"@,
                        Some(x) => if base32_decoded(x) is None {
                            r matches Err(e) && e@ == "Invalid secret"@
                        } else {
                            &&& (r is Ok || (r matches Err(e) && (e@ == "Invalid TOTP code"@ || e@.take(12)
                                == "TOTP error: "@)))
                            &&& (r is Ok ==> exists|t: u64| #[trigger] totp_code_of(base32_decoded(x).unwrap(), TOTP_DIGITS, TOTP_STEP, t) == code@)
                        },
                    }
                },
            },
    {
        match &self.store {
            None => Err("Auth not configured".to_string()),
            Some(s) => {
                if !s.mfa_enabled {
                    return Ok(());
                }
                match &s.mfa_secret {
                    None => Err("MFA not configured".to_string()),
                    Some(x) => match decode_totp_secret(x.as_str()) {
                        None => Err("Invalid secret".to_string()),
                        Some(bytes) => {
                            let issuer = issuer_str();
                            let check = totp_check_current(
                                &bytes,
                                TOTP_DIGITS,
                                TOTP_SKEW,
                                TOTP_STEP,
                                issuer,
                                s.email.as_str(),
                                code,
                            );
                            let ghost g = check;
                            let r = totp_verdict(check);
                            proof {
                                reveal_strlit("TOTP error: ");
                                if let Err(m) = g {
                                    assert(("TOTP error: "@ + m@).take(12) == "TOTP error: "@);
                                }
                            }
                            r
                        },
                    },
                }
            },
        }
    }

    /// `verify_totp` where the stored secret can be checked; `None` where it cannot.
    pub fn verify_totp_checked(&self, code: &str) -> (r: Option<Result<(), String>>)
        ensures
            r is None <==> !self.totp_checkable(),
    {
        if self.needs_usable_secret() && !self.is_secret_usable() {
            None
        } else {
            Some(self.verify_totp(code))
        }
    }

    /// Whether a TOTP check would reach a secret that decodes.
    fn needs_usable_secret(&self) -> (b: bool)
        ensures
            b == self.reaches_secret_check(),
    {
        match &self.store {
            Some(s) => s.mfa_enabled && match &s.mfa_secret {
                Some(x) => decode_totp_secret(x.as_str()).is_some(),
                None => false,
            },
            None => false,
        }
    }

    /// Turns MFA on and hands back the authenticator URI.
    pub fn enable_mfa(&mut self) -> (r: Result<String, String>)
        requires
            old(self).wf(),
            old(self).store is Some ==> old(self).secret_usable(),
        ensures
            final(self).wf(),
            final(self).login_attempts == old(self).login_attempts,
            match old(self).store_view() {
                None => (r matches Err(e) && e@ == "Auth not configured"@) && final(self).store is None,
                Some(s) => final(self).store_view() matches Some(t) && mfa_set(s, t, true) && (r matches Ok(u) && u@ == totp_uri_of(s.mfa_secret.unwrap(), s.email)),
            },
    {
        let r = match &mut self.store {
            None => Err("Auth not configured".to_string()),
            Some(s) => {
                s.mfa_enabled = true;
                s.updated_at = now_rfc3339();
                let u = match &s.mfa_secret {
                    Some(x) => generate_totp_uri(x.as_str(), s.email.as_str()),
                    None => String::new(),
                };
                Ok(u)
            },
        };
        proof {
            lemma_wf_kept(*old(self), *self);
        }
        r
    }

    /// `enable_mfa` where the stored secret makes a URI; `None`, with nothing changed, where it
    /// does not.
    pub fn enable_mfa_checked(&mut self) -> (r: Option<Result<String, String>>)
        requires
            old(self).wf(),
        ensures
            final(self).wf(),
            r is None <==> (old(self).store is Some && !old(self).secret_usable()),
            r is None ==> final(self).store == old(self).store,
            final(self).login_attempts == old(self).login_attempts,
    {
        if self.store.is_some() && !self.is_secret_usable() {
            None
        } else {
            Some(self.enable_mfa())
        }
    }

    /// Turns MFA off.
    pub fn disable_mfa(&mut self) -> (r: Result<(), String>)
        requires
            old(self).wf(),
        ensures
            final(self).wf(),
            final(self).login_attempts == old(self).login_attempts,
            match old(self).store_view() {
                None => (r matches Err(e) && e@ == "Auth not configured"@) && final(self).store is None,
                Some(s) => r is Ok && (final(self).store_view() matches Some(t) && mfa_set(s, t, false)),
            },
    {
        let r = match &mut self.store {
            None => Err("Auth not configured".to_string()),
            Some(s) => {
                s.mfa_enabled = false;
                s.updated_at = now_rfc3339();
                Ok(())
            },
        };
        proof {
            lemma_wf_kept(*old(self), *self);
        }
        r
    }

    /// The unused recovery codes.
    pub fn get_recovery_codes(&self) -> (r: Result<Vec<String>, String>)
        ensures
            match self.store_view() {
                None => r matches Err(e) && e@ == "Auth not configured"@,
                Some(s) => r matches Ok(v) && strings(v@) == s.recovery_codes,
            },
    {
        match &self.store {
            None => Err("Auth not configured".to_string()),
            Some(s) => Ok(copy_strings(&s.recovery_codes)),
        }
    }

    /// Whether MFA is on.
    pub fn get_mfa_status(&self) -> (r: Result<bool, String>)
        ensures
            match r {
                Ok(b) => mfa_status_of(self.store_view()) == Ok::<bool, Seq<char>>(b),
                Err(e) => mfa_status_of(self.store_view()) == Err::<bool, Seq<char>>(e@),
            },
    {
        match &self.store {
            None => Err("Auth not configured".to_string()),
            Some(s) => Ok(s.mfa_enabled),
        }
    }

    /// The authenticator URI of the stored secret.
    pub fn get_totp_uri(&self) -> (r: Result<String, String>)
        requires
            self.store_view() matches Some(s) && s.mfa_secret is Some ==> self.secret_usable(),
        ensures
            self.totp_uri_answer(r),
    {
        match &self.store {
            None => Err("Auth not configured".to_string()),
            Some(s) => match &s.mfa_secret {
                None => Err("MFA not configured".to_string()),
                Some(x) => Ok(generate_totp_uri(x.as_str(), s.email.as_str())),
            },
        }
    }

    /// `get_totp_uri` where the stored secret makes a URI; `None` where it does not.
    pub fn get_totp_uri_checked(&self) -> (r: Option<Result<String, String>>)
        ensures
            r is None <==> (self.store_view() matches Some(s) && s.mfa_secret is Some && !self.secret_usable()),
            r matches Some(x) ==> self.totp_uri_answer(x),
    {
        let reachable = match &self.store {
            Some(s) => s.mfa_secret.is_some(),
            None => false,
        };
        if reachable && !self.is_secret_usable() {
            None
        } else {
            Some(self.get_totp_uri())
        }
    }
}

/// What `verify_password` answers for a stored record (or none) and a password.
pub open spec fn password_verdict(store: Option<AuthStoreView>, password: Seq<char>) -> Result<(), Seq<char>> {
    match store {
        None => Err("Auth not configured"@),
        Some(s) => match phc_error_of(s.master_password_hash) {
            Some(m) => Err("Parse error: "@ + m),
            None => if argon2_verifies(password, s.master_password_hash) {
                Ok(())
            } else {
                Err("Invalid password"@)
            },
        },
    }
}

/// A result with its error text as a character sequence.
pub open spec fn unit_result_view(r: Result<(), String>) -> Result<(), Seq<char>> {
    match r {
        Ok(()) => Ok(()),
        Err(e) => Err(e@),
    }
}

/// `after` is `before` with a new password hash that accepts `password`, and possibly a new
/// update time.
pub open spec fn rehashed(before: AuthStoreView, after: AuthStoreView, password: Seq<char>) -> bool {
    &&& phc_error_of(after.master_password_hash) is None
    &&& argon2_verifies(password, after.master_password_hash)
    &&& after == AuthStoreView {
        master_password_hash: after.master_password_hash,
        updated_at: after.updated_at,
        ..before
    }
}

/// A view of the strings of a vector after removing one of them.
proof fn lemma_strings_remove(v: Seq<String>, i: int)
    requires
        0 <= i < v.len(),
    ensures
        strings(v.remove(i)) == strings(v).remove(i),
{
    assert(strings(v.remove(i)) =~= strings(v).remove(i));
}

impl AuthManager {
    /// Uses a recovery code: it is struck off the list and the master password is replaced by
    /// `new_password`. An unknown code, or a failed hash, changes nothing.
    pub fn recover_access(&mut self, recovery_code: &str, new_password: &str) -> (r: Result<(), String>)
        requires
            old(self).wf(),
        ensures
            final(self).wf(),
            final(self).login_attempts == old(self).login_attempts,
            match old(self).store_view() {
                None => (r matches Err(e) && e@ == "Auth not configured"@) && final(self).store is None,
                Some(s) => {
                    let i = first_index(s.recovery_codes, recovery_code@);
                    if i < 0 {
                        (r matches Err(e) && e@ == "Invalid recovery code"@) && final(self).store
                            == old(self).store
                    } else {
                        &&& (new_password@.len() <= MAX_HASHED_PASSWORD_CHARS ==> r is Ok)
                        &&& match r {
                            Ok(()) => final(self).store_view() matches Some(t) && rehashed(
                                AuthStoreView { recovery_codes: s.recovery_codes.remove(i), ..s },
                                t,
                                new_password@,
                            ),
                            Err(e) => e@.take(12) == "Hash error: "@ && final(self).store == old(self).store,
                        }
                    }
                },
            },
    {
        let pos: Option<usize> = match &self.store {
            None => {
                return Err("Auth not configured".to_string());
            },
            Some(s) => {
                let codes = &s.recovery_codes;
                let mut found: Option<usize> = None;
                let mut i: usize = 0;
                while i < codes.len()
                    invariant_except_break
                        found is None,
                    invariant
                        0 <= i <= codes@.len(),
                        forall|k: int| 0 <= k < i ==> #[trigger] strings(codes@)[k] != recovery_code@,
                    ensures
                        (found matches Some(j) && j == i && i < codes@.len() && strings(codes@)[i as int]
                            == recovery_code@) || (found is None && i == codes@.len()),
                    decreases codes.len() - i,
                {
                    if str_eq(codes[i].as_str(), recovery_code) {
                        found = Some(i);
                        break;
                    }
                    i = i + 1;
                }
                proof {
                    let sv = strings(codes@);
                    match found {
                        Some(j) => {
                            lemma_first_index_none(sv, recovery_code@, j as int);
                            lemma_first_index_hit(sv, recovery_code@, j as int);
                        },
                        None => {
                            lemma_first_index_none(sv, recovery_code@, sv.len() as int);
                            assert(sv.take(sv.len() as int) == sv);
                        },
                    }
                }
                found
            },
        };
        match pos {
            None => Err("Invalid recovery code".to_string()),
            Some(i) => {
                let hash = match hash_password(new_password) {
                    Ok(h) => h,
                    Err(m) => {
                        let e = prefixed("Hash error: ", m.as_str());
                        proof {
                            reveal_strlit("Hash error: ");
                            assert(e@.take(12) == "Hash error: "@);
                        }
                        return Err(e);
                    },
                };
                let now = now_rfc3339();
                let r = match &mut self.store {
                    Some(s) => {
                        proof {
                            lemma_strings_remove(s.recovery_codes@, i as int);
                        }
                        s.recovery_codes.remove(i);
                        s.master_password_hash = hash;
                        s.updated_at = now;
                        Ok(())
                    },
                    None => Ok(()),
                };
                proof {
                    lemma_wf_kept(*old(self), *self);
                }
                r
            },
        }
    }

    /// Replaces the master password, after checking the old one.
    pub fn change_password(&mut self, old_password: &str, new_password: &str) -> (r: Result<(), String>)
        requires
            old(self).wf(),
        ensures
            final(self).wf(),
            final(self).login_attempts == old(self).login_attempts,
            password_verdict(old(self).store_view(), old_password@) is Err ==> unit_result_view(r)
                == password_verdict(old(self).store_view(), old_password@) && final(self).store
                == old(self).store,
            password_verdict(old(self).store_view(), old_password@) is Ok && new_password@.len()
                <= MAX_HASHED_PASSWORD_CHARS ==> r is Ok,
            password_verdict(old(self).store_view(), old_password@) is Ok ==> match r {
                Ok(()) => old(self).store_view() matches Some(s) && (final(self).store_view() matches Some(t)
                    && rehashed(s, t, new_password@)),
                Err(e) => e@.take(12) == "Hash error: "@ && final(self).store == old(self).store,
            },
    {
        match self.verify_password(old_password) {
            Err(e) => {
                return Err(e);
            },
            Ok(()) => {},
        }
        let hash = match hash_password(new_password) {
            Ok(h) => h,
            Err(m) => {
                let e = prefixed("Hash error: ", m.as_str());
                proof {
                    reveal_strlit("Hash error: ");
                    assert(e@.take(12) == "Hash error: "@);
                }
                return Err(e);
            },
        };
        let now = now_rfc3339();
        match &mut self.store {
            Some(s) => {
                s.master_password_hash = hash;
                s.updated_at = now;
            },
            None => {},
        }
        proof {
            lemma_wf_kept(*old(self), *self);
        }
        Ok(())
    }
}

/// Well-formedness depends on the failed-login records alone.
proof fn lemma_wf_kept(a: AuthManager, b: AuthManager)
    requires
        a.wf(),
        a.login_attempts == b.login_attempts,
    ensures
        b.wf(),
{
    assert forall|k: Seq<char>| #[trigger] lock_bounded(b.attempt(k)) by {
        assert(lock_bounded(a.attempt(k)));
    }
}

/// `a` followed by `b`.
fn concat_str(a: &str, b: &str) -> (r: String)
    ensures
        r@ == a@ + b@,
{
    prefixed(a, b)
}

} // verus!

verus! {

/// The failed-login record after failed logins at `times`, one after another, from `start`.
pub open spec fn after_failures(start: Option<LoginAttempt>, times: Seq<u64>) -> Option<LoginAttempt>
    decreases times.len(),
{
    if times.len() == 0 {
        start
    } else {
        Some(failed_once(after_failures(start, times.drop_last()), times.last()))
    }
}

/// Failed logins from a clean record: after `n` of them the count is `n`; the identifier is
/// locked exactly once `n` reaches the maximum, until the latest failure plus the lockout; and the
/// failure that makes the count reach the maximum, and every later one, is the one refused.
pub proof fn law_failures_lock(times: Seq<u64>)
    requires
        times.len() < u32::MAX,
    ensures
        count_of(after_failures(None, times)) == times.len(),
        times.len() < MAX_LOGIN_ATTEMPTS ==> locked_until_of(after_failures(None, times)) is None,
        times.len() >= MAX_LOGIN_ATTEMPTS ==> locked_until_of(after_failures(None, times)) == Some(
            (times.last() + LOCKOUT_MILLIS) as u128,
        ),
        times.len() > 0 ==> (count_of(after_failures(None, times.drop_last())) + 1 >= MAX_LOGIN_ATTEMPTS
            <==> times.len() >= MAX_LOGIN_ATTEMPTS),
    decreases times.len(),
{
    if times.len() > 0 {
        law_failures_lock(times.drop_last());
    }
}

/// Once failed logins have reached the maximum, a lockout check within the lockout after the
/// latest failure is refused, and one from the end of the lockout on passes.
pub proof fn law_lock_window(times: Seq<u64>, now: u64)
    requires
        MAX_LOGIN_ATTEMPTS <= times.len() < u32::MAX,
        times.last() <= now,
    ensures
        locked_until_of(after_failures(None, times)) matches Some(t) && (now < t <==> now < times.last()
            + LOCKOUT_MILLIS) && (now < t ==> t - now <= LOCKOUT_MILLIS),
{
    law_failures_lock(times);
}

/// A hash that parses and that Argon2 accepts the password against makes `verify_password` pass:
/// after `setup`, `change_password` or `recover_access` succeed, the password they were given
/// is accepted.
pub proof fn law_new_password_verifies(s: AuthStoreView, password: Seq<char>)
    requires
        phc_error_of(s.master_password_hash) is None,
        argon2_verifies(password, s.master_password_hash),
    ensures
        password_verdict(Some(s), password) == Ok::<(), Seq<char>>(()),
{
}

/// `first_index` finds the first occurrence, and -1 exactly where there is none.
pub proof fn lemma_first_index(s: Seq<Seq<char>>, x: Seq<char>)
    ensures
        first_index(s, x) == -1 <==> !s.contains(x),
        first_index(s, x) >= 0 ==> first_index(s, x) < s.len() && s[first_index(s, x)] == x && forall|k: int|
            0 <= k < first_index(s, x) ==> s[k] != x,
        first_index(s, x) >= -1,
    decreases s.len(),
{
    if s.len() > 0 {
        let d = s.drop_last();
        lemma_first_index(d, x);
        if first_index(d, x) >= 0 {
            assert(s[first_index(d, x)] == d[first_index(d, x)]);
            assert forall|k: int| 0 <= k < first_index(s, x) implies s[k] != x by {
                assert(s[k] == d[k]);
            }
        } else if s.last() == x {
            assert(s[s.len() - 1] == x);
            assert forall|k: int| 0 <= k < s.len() - 1 implies s[k] != x by {
                assert(s[k] == d[k]);
                if s[k] == x {
                    assert(d.contains(x));
                }
            }
        } else {
            if s.contains(x) {
                let k = choose|k: int| 0 <= k < s.len() && s[k] == x;
                assert(d[k] == x);
            }
        }
    }
}

/// A recovery code that occurs once is struck off by its use: the same code is refused the next
/// time.
pub proof fn law_recovery_code_single_use(codes: Seq<Seq<char>>, code: Seq<char>)
    requires
        first_index(codes, code) >= 0,
        forall|i: int, j: int| 0 <= i < j < codes.len() && codes[i] == code ==> codes[j] != code,
    ensures
        first_index(codes.remove(first_index(codes, code)), code) == -1,
{
    lemma_first_index(codes, code);
    let i = first_index(codes, code);
    let r = codes.remove(i);
    lemma_first_index(r, code);
    if r.contains(code) {
        let k = choose|k: int| 0 <= k < r.len() && r[k] == code;
        if k < i {
            assert(codes[k] == code);
        } else {
            assert(codes[k + 1] == code);
        }
    }
}

} // verus!
