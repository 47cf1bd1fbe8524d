use vstd::prelude::*;
use crate::clock::{new_uuid, now_unix_parts, rfc3339_from_timestamp, rfc3339_of};
use crate::text::{str_eq, strings};
use jsonwebtoken::{DecodingKey, EncodingKey, Header, Validation};
use serde_json::Value;

verus! {

/// Lifetime of an access token, in seconds (fifteen minutes).
pub const ACCESS_TTL_SECS: i64 = 900;

/// Lifetime of a refresh token, in seconds (seven days).
pub const REFRESH_TTL_SECS: i64 = 604_800;

/// How many revoked tokens the stored session record keeps.
pub const MAX_REVOKED_KEPT: usize = 100;

/// The claims of a session token; `jti` identifies the token, so that no two tokens are alike.
#[derive(Debug)]
pub struct Claims {
    pub sub: String,
    pub exp: usize,
    pub iat: usize,
    pub token_type: String,
    pub jti: String,
}

impl Claims {
    /// An exact copy.
    pub fn duplicate(&self) -> (r: Self)
        ensures
            r == *self,
    {
        Claims {
            sub: self.sub.clone(),
            exp: self.exp,
            iat: self.iat,
            token_type: self.token_type.clone(),
            jti: self.jti.clone(),
        }
    }
}

/// A refresh session handed out, with its expiry and creation times (RFC 3339).
#[derive(Debug)]
pub struct RefreshToken {
    pub token: String,
    pub expires_at: String,
    pub created_at: String,
}

impl RefreshToken {
    /// An exact copy.
    pub fn duplicate(&self) -> (r: Self)
        ensures
            r == *self,
    {
        RefreshToken { token: self.token.clone(), expires_at: self.expires_at.clone(), created_at: self.created_at.clone() }
    }
}

/// The persisted session record: refresh sessions handed out and tokens revoked.
#[derive(Debug)]
pub struct SessionStore {
    pub active_refresh_tokens: Vec<RefreshToken>,
    pub revoked_tokens: Vec<String>,
}

impl SessionStore {
    /// No sessions, nothing revoked.
    pub fn empty() -> (s: Self)
        ensures
            s.active_refresh_tokens@.len() == 0,
            s.revoked_tokens@.len() == 0,
    {
        SessionStore { active_refresh_tokens: Vec::new(), revoked_tokens: Vec::new() }
    }
}

/// Claims for `user` issued at `now` (seconds since the Unix epoch) that expire `ttl` seconds
/// later, of the given kind, with a fresh identifier.
pub open spec fn issued(c: Claims, user: Seq<char>, now: i64, ttl: i64, kind: Seq<char>) -> bool {
    &&& c.sub@ == user
    &&& c.exp == (now + ttl) as usize
    &&& c.iat == now as usize
    &&& c.token_type@ == kind
    &&& c.jti@.len() == 36
}

fn issue(user_id: &str, now_secs: i64, ttl: i64, token_type: &str) -> (c: Claims)
    requires
        0 <= ttl,
        now_secs + ttl <= i64::MAX,
    ensures
        issued(c, user_id@, now_secs, ttl, token_type@),
{
    let exp = now_secs + ttl;
    Claims {
        sub: user_id.to_owned(),
        exp: exp as usize,
        iat: now_secs as usize,
        token_type: token_type.to_owned(),
        jti: new_uuid(),
    }
}

/// The revoked list after appending `token` and keeping its last `MAX_REVOKED_KEPT` entries.
pub open spec fn kept_revoked(list: Seq<Seq<char>>, token: Seq<char>) -> Seq<Seq<char>> {
    let l = list.push(token);
    if l.len() > MAX_REVOKED_KEPT {
        l.subrange(l.len() - MAX_REVOKED_KEPT, l.len() as int)
    } else {
        l
    }
}

/// The compact JSON Web Token that jsonwebtoken's `encode` writes, with the default header
/// (HS256), for the claims `sub`, `exp`, `iat`, `token_type` and `jti` signed with `secret`.
pub uninterp spec fn jwt_of(sub: Seq<char>, exp: usize, iat: usize, token_type: Seq<char>, jti: Seq<char>, secret: Seq<char>) -> Seq<char>;

/// What jsonwebtoken's `decode` with `Validation::default()` and `secret` reads from `token`,
/// every check but the expiry one applied: the claims `sub`, `exp`, `iat`, `token_type` and
/// `jti` of a token whose HS256 signature checks, whose payload has `exp` and no audience, and
/// whose five claims are a string, two unsigned numbers and two strings; `None` otherwise.
pub uninterp spec fn jwt_claims_of(token: Seq<char>, secret: Seq<char>) -> Option<(Seq<char>, usize, usize, Seq<char>, Seq<char>)>;

/// The claims as the five values a token carries.
pub open spec fn claims_view(c: Claims) -> (Seq<char>, usize, usize, Seq<char>, Seq<char>) {
    (c.sub@, c.exp, c.iat, c.token_type@, c.jti@)
}

/// `jsonwebtoken::encode` with the default header (HS256) and the key `secret`, of the claims
/// written as a JSON object; the error comes back as its message. HS256 signing of a JSON object
/// of strings and numbers cannot fail (`encode` fails only on a key of another algorithm family
/// or on claims that do not serialize), so a token always comes back. Claimed of it: it is
/// `jwt_of` the claims, and reading it back with the same secret gives the claims.
#[verifier::external_body]
fn encode_jwt(c: &Claims, secret: &str) -> (r: Result<String, String>)
    ensures
        r is Ok,
        r matches Ok(t) ==> t@ == jwt_of(c.sub@, c.exp, c.iat, c.token_type@, c.jti@, secret@) && jwt_claims_of(
            t@,
            secret@,
        ) == Some(claims_view(*c)),
{
    let mut m = serde_json::Map::new();
    m.insert("sub".to_string(), Value::from(c.sub.as_str()));
    m.insert("exp".to_string(), Value::from(c.exp));
    m.insert("iat".to_string(), Value::from(c.iat));
    m.insert("token_type".to_string(), Value::from(c.token_type.as_str()));
    m.insert("jti".to_string(), Value::from(c.jti.as_str()));
    match jsonwebtoken::encode(&Header::default(), &m, &EncodingKey::from_secret(secret.as_bytes())) {
        Ok(t) => Ok(t),
        Err(e) => Err(e.to_string()),
    }
}

/// `jsonwebtoken::decode` with `Validation::default()` and the key `secret`, read as a JSON
/// value: its error comes back as its message, and a payload without a string `sub`, numbers
/// `exp` and `iat` and strings `token_type` and `jti` gives `Ok(None)`. The expiry check reads the clock
/// (the crate panics on a clock before the epoch), so which tokens pass is not claimed; claimed
/// of every outcome is that the claims read are `jwt_claims_of` the token, and that `Ok(None)`
/// comes only where it has none.
#[verifier::external_body]
fn decode_jwt(token: &str, secret: &str) -> (r: Result<Option<Claims>, String>)
    ensures
        r matches Ok(Some(c)) ==> jwt_claims_of(token@, secret@) == Some(claims_view(c)),
        r matches Ok(None) ==> jwt_claims_of(token@, secret@) is None,
{
    let c = match jsonwebtoken::decode::<Value>(token, &DecodingKey::from_secret(secret.as_bytes()), &Validation::default()) {
        Ok(d) => d.claims,
        Err(e) => return Err(e.to_string()),
    };
    match (c["sub"].as_str(), c["exp"].as_u64(), c["iat"].as_u64(), c["token_type"].as_str(), c["jti"].as_str()) {
        (Some(s), Some(x), Some(i), Some(t), Some(j)) => {
            Ok(Some(Claims { sub: s.into(), exp: x as usize, iat: i as usize, token_type: t.into(), jti: j.into() }))
        },
        _ => Ok(None),
    }
}

/// Whether `d` is an outcome that decoding `token` with `secret` can give.
pub open spec fn decode_agrees(token: Seq<char>, secret: Seq<char>, d: Result<Option<Claims>, String>) -> bool {
    &&& (d matches Ok(Some(c)) ==> jwt_claims_of(token, secret) == Some(claims_view(c)))
    &&& (d matches Ok(None) ==> jwt_claims_of(token, secret) is None)
}

/// The token for `user` issued at `now` (seconds since the Unix epoch) that expires `ttl`
/// seconds later, of the given kind, with identifier `jti`, signed with `secret`.
pub open spec fn token_for(user: Seq<char>, now: i64, ttl: i64, kind: Seq<char>, jti: Seq<char>, secret: Seq<char>) -> Seq<char> {
    jwt_of(user, (now + ttl) as usize, now as usize, kind, jti, secret)
}

/// `t` is a token for `user` issued at `now`, expiring `ttl` seconds later, of the given kind,
/// signed with `secret`, with an identifier of 36 characters; reading it back gives its claims.
pub open spec fn issued_token(t: Seq<char>, user: Seq<char>, now: i64, ttl: i64, kind: Seq<char>, secret: Seq<char>) -> bool {
    exists|jti: Seq<char>|
        #![trigger token_for(user, now, ttl, kind, jti, secret)]
        jti.len() == 36 && t == token_for(user, now, ttl, kind, jti, secret) && jwt_claims_of(t, secret) == Some(
            (user, (now + ttl) as usize, now as usize, kind, jti),
        )
}

/// What `verify_token` answers for `token` given what decoding it gave, against a set of
/// revoked tokens: a decoding error, malformed claims, a refusal of a revoked refresh token, or
/// the claims.
pub open spec fn token_verdict(revoked: Set<Seq<char>>, token: Seq<char>, decoded: Result<Option<Claims>, String>) -> Result<Claims, Seq<char>> {
    match decoded {
        Err(e) => Err("Invalid token: "@ + e@),
        Ok(None) => Err("Invalid token: malformed claims"@),
        Ok(Some(c)) => if c.token_type@ == "refresh"@ && revoked.contains(token) {
            Err("Token revoked"@)
        } else {
            Ok(c)
        },
    }
}

/// The tokens of the refresh sessions handed out.
pub open spec fn handed_out(active: Seq<RefreshToken>) -> Seq<Seq<char>> {
    active.map_values(|rt: RefreshToken| rt.token@)
}

/// The revoked list after revoking each of `tokens` in turn, as `revoke_token` does.
pub open spec fn kept_all(list: Seq<Seq<char>>, tokens: Seq<Seq<char>>) -> Seq<Seq<char>>
    decreases tokens.len(),
{
    if tokens.len() == 0 {
        list
    } else {
        kept_revoked(kept_all(list, tokens.drop_last()), tokens.last())
    }
}

/// The refresh sessions `after` are `before` with one more session for `user`, opened at
/// `now_secs` and `now_nanos` and handed out as `r`: an access token for fifteen minutes and a
/// refresh token for seven days, signed with `secret`, the refresh token recorded with its
/// expiry and creation times. Signing does not fail, so the session is always opened.
pub open spec fn session_created(
    before: Seq<RefreshToken>,
    after: Seq<RefreshToken>,
    secret: Seq<char>,
    user: Seq<char>,
    now_secs: i64,
    now_nanos: u32,
    r: Result<(String, String), String>,
) -> bool {
    match r {
        Ok(p) => {
            &&& issued_token(p.0@, user, now_secs, ACCESS_TTL_SECS, "access"@, secret)
            &&& issued_token(p.1@, user, now_secs, REFRESH_TTL_SECS, "refresh"@, secret)
            &&& after.len() == before.len() + 1
            &&& after.drop_last() == before
            &&& after.last().token@ == p.1@
            &&& after.last().expires_at@ == rfc3339_of((now_secs + REFRESH_TTL_SECS) as i64, now_nanos)
            &&& after.last().created_at@ == rfc3339_of(now_secs, now_nanos)
        },
        Err(e) => false,
    }
}

/// A claims result with its error as a character sequence.
pub open spec fn claims_result_view(r: Result<Claims, String>) -> Result<Claims, Seq<char>> {
    match r {
        Ok(c) => Ok(c),
        Err(e) => Err(e@),
    }
}

/// `prefix` followed by `s`.
fn prefixed(prefix: &str, s: &str) -> (r: String)
    ensures
        r@ == prefix@ + s@,
{
    let mut v = crate::text::chars_of(prefix);
    crate::text::push_str(&mut v, s);
    crate::text::string_of(&v)
}

/// The last `n` entries of `v`.
fn keep_last(v: &Vec<String>, n: usize) -> (r: Vec<String>)
    requires
        n <= v@.len(),
    ensures
        r@ == v@.subrange(v@.len() - n, v@.len() as int),
{
    let start = v.len() - n;
    let mut r: Vec<String> = Vec::new();
    let mut i: usize = start;
    while i < v.len()
        invariant
            start <= i <= v@.len(),
            start == v@.len() - n,
            r@ == v@.subrange(start as int, i as int),
        decreases v.len() - i,
    {
        r.push(v[i].clone());
        i = i + 1;
    }
    r
}

/// A signing secret: three random UUIDs written one after another.
pub fn generate_secret() -> (s: String)
    ensures
        s@.len() == 108,
{
    let a = new_uuid();
    let b = new_uuid();
    let c = new_uuid();
    let mut v = crate::text::chars_of(a.as_str());
    crate::text::push_str(&mut v, b.as_str());
    crate::text::push_str(&mut v, c.as_str());
    crate::text::string_of(&v)
}

/// Issued sessions and revoked tokens, with the secret the tokens are signed with.
#[derive(Debug)]
pub struct SessionManager {
    pub secret: String,
    pub revoked: Vec<String>,
    pub store: SessionStore,
}

impl SessionManager {
    /// The tokens refused as revoked.
    pub open spec fn revoked_set(&self) -> Set<Seq<char>> {
        strings(self.revoked@).to_set()
    }

    /// A manager with the signing secret and the stored session record (or an empty one); the
    /// tokens the record lists as revoked are refused.
    pub fn new(secret: String, store: Option<SessionStore>) -> (m: Self)
        ensures
            m.secret == secret,
            match store {
                Some(s) => m.store == s && m.revoked_set() == strings(s.revoked_tokens@).to_set(),
                None => m.store.active_refresh_tokens@.len() == 0 && m.store.revoked_tokens@.len() == 0
                    && m.revoked_set() == Set::<Seq<char>>::empty(),
            },
    {
        match store {
            Some(s) => {
                let revoked = crate::table::copy_strings(&s.revoked_tokens);
                SessionManager { secret, revoked, store: s }
            },
            None => {
                let m = SessionManager { secret, revoked: Vec::new(), store: SessionStore::empty() };
                assert(m.revoked_set() =~= Set::<Seq<char>>::empty());
                m
            },
        }
    }

    /// Whether `token` has been revoked.
    pub fn is_revoked(&self, token: &str) -> (b: bool)
        ensures
            b == self.revoked_set().contains(token@),
    {
        let mut i: usize = 0;
        while i < self.revoked.len()
            invariant
                0 <= i <= self.revoked@.len(),
                forall|k: int| 0 <= k < i ==> #[trigger] strings(self.revoked@)[k] != token@,
            decreases self.revoked.len() - i,
        {
            if str_eq(self.revoked[i].as_str(), token) {
                assert(strings(self.revoked@)[i as int] == token@);
                return true;
            }
            i = i + 1;
        }
        proof {
            if strings(self.revoked@).contains(token@) {
                let k = choose|k: int| 0 <= k < strings(self.revoked@).len() && strings(self.revoked@)[k] == token@;
                assert(strings(self.revoked@)[k] != token@);
            }
        }
        false
    }

    /// Adds `token` to the revoked set.
    fn insert_revoked(&mut self, token: &str)
        ensures
            final(self).revoked_set() == old(self).revoked_set().insert(token@),
            final(self).store == old(self).store,
            final(self).secret == old(self).secret,
    {
        if !self.is_revoked(token) {
            let ghost before = self.revoked@;
            self.revoked.push(token.to_owned());
            assert(strings(self.revoked@) == strings(before).push(token@));
            proof {
                strings(before).lemma_push_to_set_commute(token@);
            }
        } else {
            assert(self.revoked_set() =~= old(self).revoked_set().insert(token@));
        }
    }

    /// Revokes `token`: it is refused from now on, and the stored record lists it last among at
    /// most `MAX_REVOKED_KEPT` revoked tokens.
    pub fn revoke_token(&mut self, token: &str)
        ensures
            final(self).revoked_set() == old(self).revoked_set().insert(token@),
            strings(final(self).store.revoked_tokens@) == kept_revoked(strings(old(self).store.revoked_tokens@), token@),
            final(self).store.active_refresh_tokens == old(self).store.active_refresh_tokens,
            final(self).secret == old(self).secret,
    {
        self.insert_revoked(token);
        let ghost before = strings(self.store.revoked_tokens@);
        self.store.revoked_tokens.push(token.to_owned());
        assert(strings(self.store.revoked_tokens@) == before.push(token@));
        if self.store.revoked_tokens.len() > MAX_REVOKED_KEPT {
            let kept = keep_last(&self.store.revoked_tokens, MAX_REVOKED_KEPT);
            let ghost l = self.store.revoked_tokens@;
            self.store.revoked_tokens = kept;
            assert(strings(self.store.revoked_tokens@) =~= strings(l).subrange(
                strings(l).len() - MAX_REVOKED_KEPT,
                strings(l).len() as int,
            ));
        }
    }

    /// What revoking every session does, from `before` to `after`: each refresh token handed
    /// out is revoked in turn as `revoke_token` revokes it (earlier revocations are kept in the
    /// stored list as far as its bound allows), and no session is left.
    pub open spec fn all_revoked(before: SessionManager, after: SessionManager) -> bool {
        &&& after.secret == before.secret
        &&& after.store.active_refresh_tokens@.len() == 0
        &&& after.revoked_set() == before.revoked_set().union(handed_out(before.store.active_refresh_tokens@).to_set())
        &&& strings(after.store.revoked_tokens@) == kept_all(
            strings(before.store.revoked_tokens@),
            handed_out(before.store.active_refresh_tokens@),
        )
    }

    /// What trading `token` for a new session does, from `before` to `after`, given what decoding
    /// it gave and the time: a token `verify_token` refuses is refused, and a revoked refresh
    /// token that reads back (a rotated token used again) also revokes every session; a token
    /// that is not a refresh token is refused; a refresh token is revoked and a new session for
    /// its user is opened.
    pub open spec fn refreshed(
        before: SessionManager,
        after: SessionManager,
        token: Seq<char>,
        decoded: Result<Option<Claims>, String>,
        now_secs: i64,
        now_nanos: u32,
        r: Result<(String, String), String>,
    ) -> bool {
        match token_verdict(before.revoked_set(), token, decoded) {
            Err(e) => (r matches Err(x) && x@ == e) && if decoded matches Ok(Some(c)) && c.token_type@ == "refresh"@ {
                Self::all_revoked(before, after)
            } else {
                after == before
            },
            Ok(c) => if c.token_type@ != "refresh"@ {
                (r matches Err(x) && x@ == "Invalid token type"@) && after == before
            } else {
                &&& r is Ok
                &&& after.secret == before.secret
                &&& after.revoked_set() == before.revoked_set().insert(token)
                &&& strings(after.store.revoked_tokens@) == kept_revoked(strings(before.store.revoked_tokens@), token)
                &&& session_created(
                    before.store.active_refresh_tokens@,
                    after.store.active_refresh_tokens@,
                    before.secret@,
                    c.sub@,
                    now_secs,
                    now_nanos,
                    r,
                )
            },
        }
    }

    /// Opens a session for `user_id` at `now_secs` and `now_nanos`: an access token for fifteen
    /// minutes and a refresh token for seven days, the refresh token recorded as handed out.
    pub fn create_session_at(&mut self, user_id: &str, now_secs: i64, now_nanos: u32) -> (r: Result<(String, String), String>)
        requires
            now_secs <= i64::MAX - REFRESH_TTL_SECS,
        ensures
            r is Ok,
            session_created(
                old(self).store.active_refresh_tokens@,
                final(self).store.active_refresh_tokens@,
                old(self).secret@,
                user_id@,
                now_secs,
                now_nanos,
                r,
            ),
            final(self).store.revoked_tokens == old(self).store.revoked_tokens,
            final(self).revoked == old(self).revoked,
            final(self).secret == old(self).secret,
    {
        let access = issue(user_id, now_secs, ACCESS_TTL_SECS, "access");
        let refresh = issue(user_id, now_secs, REFRESH_TTL_SECS, "refresh");
        let ghost ja = access.jti@;
        let ghost jr = refresh.jti@;
        let a = match encode_jwt(&access, self.secret.as_str()) {
            Ok(t) => t,
            Err(e) => {
                return Err(jwt_error(e.as_str()));
            },
        };
        let t = match encode_jwt(&refresh, self.secret.as_str()) {
            Ok(t) => t,
            Err(e) => {
                return Err(jwt_error(e.as_str()));
            },
        };
        let rt = RefreshToken {
            token: t.clone(),
            expires_at: rfc3339_from_timestamp(now_secs + REFRESH_TTL_SECS, now_nanos),
            created_at: rfc3339_from_timestamp(now_secs, now_nanos),
        };
        self.store.active_refresh_tokens.push(rt);
        assert(self.store.active_refresh_tokens@.drop_last() == old(self).store.active_refresh_tokens@);
        assert(a@ == token_for(user_id@, now_secs, ACCESS_TTL_SECS, "access"@, ja, self.secret@));
        assert(t@ == token_for(user_id@, now_secs, REFRESH_TTL_SECS, "refresh"@, jr, self.secret@));
        Ok((a, t))
    }

    /// `create_session_at` at the current time.
    pub fn create_session(&mut self, user_id: &str) -> (r: Result<(String, String), String>)
        ensures
            r is Ok,
            exists|now_secs: i64, now_nanos: u32| #[trigger] session_created(
                old(self).store.active_refresh_tokens@,
                final(self).store.active_refresh_tokens@,
                old(self).secret@,
                user_id@,
                now_secs,
                now_nanos,
                r,
            ),
            final(self).store.revoked_tokens == old(self).store.revoked_tokens,
            final(self).revoked == old(self).revoked,
            final(self).secret == old(self).secret,
    {
        let (secs, nanos) = now_unix_parts();
        self.create_session_at(user_id, secs, nanos)
    }

    /// What `verify_token` answers given what decoding `token` gave: a decoding error or
    /// malformed claims are refused, and so is a refresh token that has been revoked; otherwise
    /// its claims come back.
    pub fn check_decoded(&self, token: &str, decoded: Result<Option<Claims>, String>) -> (r: Result<Claims, String>)
        ensures
            claims_result_view(r) == token_verdict(self.revoked_set(), token@, decoded),
    {
        match decoded {
            Err(e) => Err(prefixed("Invalid token: ", e.as_str())),
            Ok(None) => Err("Invalid token: malformed claims".to_string()),
            Ok(Some(c)) => {
                if str_eq(c.token_type.as_str(), "refresh") && self.is_revoked(token) {
                    Err("Token revoked".to_string())
                } else {
                    Ok(c)
                }
            },
        }
    }

    /// Decodes `token` with the signing secret and checks it as `check_decoded` does. Whether an
    /// unexpired token passes depends on the clock; the answer is that of `check_decoded` for an
    /// outcome decoding can give, so claims that come back are those the token carries.
    pub fn verify_token(&self, token: &str) -> (r: Result<Claims, String>)
        ensures
            exists|d: Result<Option<Claims>, String>| #[trigger] decode_agrees(token@, self.secret@, d)
                && claims_result_view(r) == token_verdict(self.revoked_set(), token@, d),
            r matches Ok(c) ==> jwt_claims_of(token@, self.secret@) == Some(claims_view(c)),
            jwt_claims_of(token@, self.secret@) is None ==> r is Err,
            (jwt_claims_of(token@, self.secret@) matches Some(c) && c.3 == "refresh"@ && self.revoked_set().contains(
                token@,
            )) ==> r is Err,
    {
        let d = decode_jwt(token, self.secret.as_str());
        let ghost g = d;
        let r = self.check_decoded(token, d);
        assert(decode_agrees(token@, self.secret@, g));
        r
    }

    /// Trades a refresh token, given what decoding it gave, for a new session at `now_secs` and
    /// `now_nanos`, as `refreshed` describes.
    pub fn refresh_session_at(
        &mut self,
        refresh_token: &str,
        decoded: Result<Option<Claims>, String>,
        now_secs: i64,
        now_nanos: u32,
    ) -> (r: Result<(String, String), String>)
        requires
            now_secs <= i64::MAX - REFRESH_TTL_SECS,
        ensures
            Self::refreshed(*old(self), *final(self), refresh_token@, decoded, now_secs, now_nanos, r),
    {
        let reuse = match &decoded {
            Ok(Some(c)) => str_eq(c.token_type.as_str(), "refresh"),
            _ => false,
        };
        let claims = match self.check_decoded(refresh_token, decoded) {
            Err(e) => {
                if reuse {
                    self.revoke_all();
                }
                return Err(e);
            },
            Ok(c) => c,
        };
        if !str_eq(claims.token_type.as_str(), "refresh") {
            return Err("Invalid token type".to_string());
        }
        self.revoke_token(refresh_token);
        self.create_session_at(claims.sub.as_str(), now_secs, now_nanos)
    }

    /// Decodes `refresh_token` and trades it for a new session at the current time, as
    /// `refresh_session_at` does for an outcome decoding can give.
    pub fn refresh_session(&mut self, refresh_token: &str) -> (r: Result<(String, String), String>)
        ensures
            exists|d: Result<Option<Claims>, String>, now_secs: i64, now_nanos: u32|
                #![trigger Self::refreshed(*old(self), *final(self), refresh_token@, d, now_secs, now_nanos, r)]
                decode_agrees(refresh_token@, old(self).secret@, d) && Self::refreshed(
                    *old(self),
                    *final(self),
                    refresh_token@,
                    d,
                    now_secs,
                    now_nanos,
                    r,
                ),
    {
        let d = decode_jwt(refresh_token, self.secret.as_str());
        let ghost g = d;
        let (secs, nanos) = now_unix_parts();
        let r = self.refresh_session_at(refresh_token, d, secs, nanos);
        assert(decode_agrees(refresh_token@, old(self).secret@, g));
        assert(Self::refreshed(*old(self), *self, refresh_token@, g, secs, nanos, r));
        r
    }

    /// Revokes every refresh token handed out, as `revoke_token` revokes each, and leaves no
    /// session.
    pub fn revoke_all(&mut self)
        ensures
            Self::all_revoked(*old(self), *final(self)),
    {
        let n = self.store.active_refresh_tokens.len();
        let ghost active = old(self).store.active_refresh_tokens@;
        let mut i: usize = 0;
        while i < n
            invariant
                0 <= i <= n,
                n == active.len(),
                self.store.active_refresh_tokens@ == active,
                active == old(self).store.active_refresh_tokens@,
                self.secret == old(self).secret,
                self.revoked_set() == old(self).revoked_set().union(handed_out(active.take(i as int)).to_set()),
                strings(self.store.revoked_tokens@) == kept_all(
                    strings(old(self).store.revoked_tokens@),
                    handed_out(active.take(i as int)),
                ),
            decreases n - i,
        {
            let t = self.store.active_refresh_tokens[i].token.clone();
            let ghost before = self.revoked_set();
            self.revoke_token(t.as_str());
            proof {
                let h = handed_out(active.take(i as int));
                let h2 = handed_out(active.take(i + 1));
                assert(h2 =~= h.push(t@));
                h.lemma_push_to_set_commute(t@);
                assert(self.revoked_set() =~= old(self).revoked_set().union(h2.to_set()));
                assert(h2.drop_last() =~= h);
            }
            i = i + 1;
        }
        assert(active.take(n as int) =~= active);
        self.store.active_refresh_tokens.clear();
    }
}

/// `"JWT error: "` followed by the message of a signing error.
fn jwt_error(m: &str) -> (e: String)
    ensures
        e@.len() >= 11 && e@.take(11) == "JWT error: "@,
{
    let e = prefixed("JWT error: ", m);
    proof {
        reveal_strlit("JWT error: ");
        assert(("JWT error: "@ + m@).take(11) == "JWT error: "@);
    }
    e
}

/// A revoked refresh token is refused by `verify_token`, whatever its claims say beyond its
/// kind.
pub proof fn law_revoked_refresh_refused(revoked: Set<Seq<char>>, token: Seq<char>, c: Claims)
    requires
        revoked.contains(token),
        c.token_type@ == "refresh"@,
    ensures
        token_verdict(revoked, token, Ok(Some(c))) == Err::<Claims, Seq<char>>("Token revoked"@),
{
}

/// A refresh token trades for a new session once: after the trade it is revoked, so the same
/// token with the same claims is refused the next time.
pub proof fn law_refresh_single_use(revoked: Set<Seq<char>>, token: Seq<char>, c: Claims)
    requires
        token_verdict(revoked, token, Ok(Some(c))) is Ok,
        c.token_type@ == "refresh"@,
    ensures
        token_verdict(revoked.insert(token), token, Ok(Some(c))) == Err::<Claims, Seq<char>>("Token revoked"@),
{
}

/// Using a rotated refresh token again is refused and revokes the whole family: every refresh
/// token handed out until then is revoked, so the successor of the reused token is refused too.
pub proof fn law_refresh_reuse_revokes_family(
    before: SessionManager,
    after: SessionManager,
    token: Seq<char>,
    c: Claims,
    now_secs: i64,
    now_nanos: u32,
    r: Result<(String, String), String>,
    successor: Seq<char>,
    sc: Claims,
)
    requires
        SessionManager::refreshed(before, after, token, Ok(Some(c)), now_secs, now_nanos, r),
        c.token_type@ == "refresh"@,
        before.revoked_set().contains(token),
        handed_out(before.store.active_refresh_tokens@).contains(successor),
        sc.token_type@ == "refresh"@,
    ensures
        r is Err,
        after.store.active_refresh_tokens@.len() == 0,
        token_verdict(after.revoked_set(), successor, Ok(Some(sc))) == Err::<Claims, Seq<char>>("Token revoked"@),
{
}

/// After revoking every session, each refresh token that had been handed out is refused, and so
/// is every token revoked before.
pub proof fn law_revoke_all_refuses(before: SessionManager, after: SessionManager, token: Seq<char>, c: Claims)
    requires
        SessionManager::all_revoked(before, after),
        handed_out(before.store.active_refresh_tokens@).contains(token) || before.revoked_set().contains(token),
        c.token_type@ == "refresh"@,
    ensures
        token_verdict(after.revoked_set(), token, Ok(Some(c))) == Err::<Claims, Seq<char>>("Token revoked"@),
{
}

/// Trading a refresh token whose claims read back, that is a refresh token and that has not
/// been revoked succeeds: it is revoked, and a new session for its user is opened.
pub proof fn law_valid_refresh_succeeds(
    before: SessionManager,
    after: SessionManager,
    token: Seq<char>,
    c: Claims,
    now_secs: i64,
    now_nanos: u32,
    r: Result<(String, String), String>,
)
    requires
        SessionManager::refreshed(before, after, token, Ok(Some(c)), now_secs, now_nanos, r),
        c.token_type@ == "refresh"@,
        !before.revoked_set().contains(token),
    ensures
        r is Ok,
        after.revoked_set().contains(token),
        after.store.active_refresh_tokens@.len() == before.store.active_refresh_tokens@.len() + 1,
        r matches Ok(p) && after.store.active_refresh_tokens@.last().token@ == p.1@,
{
}

proof fn lemma_kept_all_small(list: Seq<Seq<char>>, tokens: Seq<Seq<char>>)
    requires
        list.len() + tokens.len() <= MAX_REVOKED_KEPT,
    ensures
        kept_all(list, tokens) == list + tokens,
    decreases tokens.len(),
{
    if tokens.len() == 0 {
        assert(list + tokens =~= list);
    } else {
        lemma_kept_all_small(list, tokens.drop_last());
        assert((list + tokens.drop_last()).push(tokens.last()) =~= list + tokens);
    }
}

/// Revoking every session keeps what was revoked before: every earlier revoked token stays
/// refused, and while the stored list has room, it keeps its earlier entries and gains the
/// refresh tokens handed out, in order.
pub proof fn law_revoke_all_keeps_earlier(before: SessionManager, after: SessionManager, token: Seq<char>)
    requires
        SessionManager::all_revoked(before, after),
    ensures
        before.revoked_set().contains(token) ==> after.revoked_set().contains(token),
        strings(before.store.revoked_tokens@).len() + before.store.active_refresh_tokens@.len() <= MAX_REVOKED_KEPT
            ==> strings(after.store.revoked_tokens@) == strings(before.store.revoked_tokens@) + handed_out(
            before.store.active_refresh_tokens@,
        ),
{
    let l = strings(before.store.revoked_tokens@);
    let h = handed_out(before.store.active_refresh_tokens@);
    if l.len() + before.store.active_refresh_tokens@.len() <= MAX_REVOKED_KEPT {
        assert(h.len() == before.store.active_refresh_tokens@.len());
        lemma_kept_all_small(l, h);
    }
}

/// The stored revoked list stays within `MAX_REVOKED_KEPT` entries once it is, ends with the
/// token just revoked, and otherwise keeps the latest entries in order.
pub proof fn law_revoked_list_bounded(list: Seq<Seq<char>>, token: Seq<char>)
    ensures
        kept_revoked(list, token).len() == if list.len() + 1 > MAX_REVOKED_KEPT {
            MAX_REVOKED_KEPT as int
        } else {
            list.len() + 1int
        },
        kept_revoked(list, token).last() == token,
        kept_revoked(list, token) == list.push(token).subrange(
            list.len() + 1 - kept_revoked(list, token).len(),
            list.len() + 1int,
        ),
{
    let l = list.push(token);
    if l.len() > MAX_REVOKED_KEPT {
        assert(kept_revoked(list, token).last() == l[l.len() - 1]);
    } else {
        assert(l.subrange(0, l.len() as int) == l);
    }
}

} // verus!
