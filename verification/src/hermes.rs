use vstd::prelude::*;
use crate::orchestrator::ReasonCode;
use crate::text::{
    chars_of, eq_ignore_ascii_case, eq_ignore_case, slice_chars, string_of, trim, trim_chars,
};

verus! {

/// The port the control server listens on (on 127.0.0.1 only).
pub const CONTROL_PORT: u16 = 29222;

/// The HTTP methods the control server tells apart.
#[derive(PartialEq, Eq, Structural, Clone, Copy, Debug)]
pub enum Method {
    Get,
    Post,
    Options,
    Other,
}

/// What a control request asks for.
#[derive(Debug)]
pub enum Route {
    /// A CORS preflight, answered before authorization.
    Preflight,
    /// The token is missing or wrong.
    Forbidden,
    Health,
    OrchestratorStatus,
    ListProfiles,
    OpenBatch,
    OpenAll,
    OpenAllAndNavigate,
    OpenProfile(String),
    CloseProfile(String),
    NavigateProfile(String),
    CommentProfile(String),
    NotFound,
}

/// `s` with every leading repetition of `p` removed (`str::trim_start_matches`).
pub open spec fn trim_start_matches(s: Seq<char>, p: Seq<char>) -> Seq<char>
    decreases s.len(),
{
    if p.len() > 0 && p.len() <= s.len() && s.take(p.len() as int) == p {
        trim_start_matches(s.skip(p.len() as int), p)
    } else {
        s
    }
}

/// The token a header value carries: trimmed, without leading `"Bearer "`, trimmed again.
pub open spec fn presented_token(value: Seq<char>) -> Seq<char> {
    trim(trim_start_matches(trim(value), "Bearer "@))
}

/// Whether a header is one that carries the control token.
pub open spec fn is_token_header(name: Seq<char>) -> bool {
    eq_ignore_ascii_case(name, "X-Control-Token"@) || eq_ignore_ascii_case(name, "Authorization"@)
}

/// The position of the first header that carries the control token, or -1.
pub open spec fn first_token_header(headers: Seq<(String, String)>) -> int
    decreases headers.len(),
{
    if headers.len() == 0 {
        -1
    } else if first_token_header(headers.drop_last()) >= 0 {
        first_token_header(headers.drop_last())
    } else if is_token_header(headers.last().0@) {
        headers.len() - 1
    } else {
        -1
    }
}

/// A request is authorized when a control token is configured and the first header that
/// carries a token (`X-Control-Token` or `Authorization`, in any case) presents exactly it.
pub open spec fn authorized_spec(token: Option<Seq<char>>, headers: Seq<(String, String)>) -> bool {
    match token {
        None => false,
        Some(t) => {
            let i = first_token_header(headers);
            i >= 0 && presented_token(headers[i].1@) == t
        },
    }
}

proof fn lemma_first_token_header_none(headers: Seq<(String, String)>, i: int)
    requires
        0 <= i <= headers.len(),
        forall|k: int| 0 <= k < i ==> !is_token_header(#[trigger] headers[k].0@),
    ensures
        first_token_header(headers.take(i)) == -1,
    decreases i,
{
    if i > 0 {
        assert(headers.take(i).drop_last() == headers.take(i - 1));
        lemma_first_token_header_none(headers, i - 1);
    } else {
        assert(headers.take(0).len() == 0);
    }
}

proof fn lemma_first_token_header_hit(headers: Seq<(String, String)>, i: int)
    requires
        0 <= i < headers.len(),
        first_token_header(headers.take(i)) == -1,
        is_token_header(headers[i].0@),
    ensures
        first_token_header(headers) == i,
    decreases headers.len(),
{
    if headers.len() == i + 1 {
        assert(headers.drop_last() == headers.take(i));
    } else {
        let d = headers.drop_last();
        assert(d.take(i) == headers.take(i));
        lemma_first_token_header_hit(d, i);
    }
}

/// Whether a header name is `target` up to ASCII case.
pub fn header_field_matches(name: &str, target: &str) -> (b: bool)
    ensures
        b == eq_ignore_ascii_case(name@, target@),
{
    let a = chars_of(name);
    let t = chars_of(target);
    eq_ignore_case(&a, &t)
}

fn starts_with_at(s: &Vec<char>, from: usize, p: &Vec<char>) -> (b: bool)
    requires
        from <= s@.len(),
    ensures
        b == (p@.len() <= s@.len() - from && s@.subrange(from as int, from + p@.len()) == p@),
{
    if p.len() > s.len() - from {
        return false;
    }
    let mut k: usize = 0;
    while k < p.len()
        invariant
            0 <= k <= p@.len(),
            p@.len() <= s@.len() - from,
            s@.len() == s.len(),
            forall|m: int| 0 <= m < k ==> s@[from + m] == p@[m],
        decreases p.len() - k,
    {
        if s[from + k] != p[k] {
            assert(s@.subrange(from as int, from + p@.len())[k as int] != p@[k as int]);
            return false;
        }
        k = k + 1;
    }
    assert(s@.subrange(from as int, from + p@.len()) == p@);
    true
}

proof fn lemma_trim_start_matches_step(s: Seq<char>, p: Seq<char>, from: int)
    requires
        0 <= from <= s.len(),
        p.len() > 0,
        p.len() <= s.len() - from,
        s.subrange(from, from + p.len()) == p,
    ensures
        trim_start_matches(s.skip(from), p) == trim_start_matches(s.skip(from + p.len()), p),
{
    let t = s.skip(from);
    assert(t.take(p.len() as int) == p);
    assert(t.skip(p.len() as int) == s.skip(from + p.len()));
}

/// `str::trim_start_matches` with a string pattern, on characters.
pub fn trim_start_matching(s: &Vec<char>, p: &Vec<char>) -> (r: Vec<char>)
    ensures
        r@ == trim_start_matches(s@, p@),
{
    if p.len() == 0 {
        return slice_chars(s, 0, s.len());
    }
    let mut from: usize = 0;
    assert(s@.skip(0) == s@);
    while starts_with_at(s, from, p)
        invariant
            0 <= from <= s@.len(),
            p@.len() > 0,
            trim_start_matches(s@, p@) == trim_start_matches(s@.skip(from as int), p@),
        decreases s.len() - from,
    {
        proof {
            lemma_trim_start_matches_step(s@, p@, from as int);
        }
        from = from + p.len();
    }
    proof {
        let t = s@.skip(from as int);
        if p@.len() <= t.len() {
            assert(t.take(p@.len() as int) == s@.subrange(from as int, from + p@.len()));
        }
    }
    slice_chars(s, from, s.len())
}

/// The token a header value presents.
pub fn presented(value: &str) -> (r: Vec<char>)
    ensures
        r@ == presented_token(value@),
{
    let v = chars_of(value);
    let t1 = trim_chars(&v);
    let bearer = chars_of("Bearer ");
    let t2 = trim_start_matching(&t1, &bearer);
    trim_chars(&t2)
}

/// Whether a request with `headers` (name, value) presents the control token `token`.
pub fn authorized(token: &Option<String>, headers: &Vec<(String, String)>) -> (b: bool)
    ensures
        b == authorized_spec(
            match token {
                Some(t) => Some(t@),
                None => None::<Seq<char>>,
            },
            headers@,
        ),
{
    match token {
        None => false,
        Some(t) => {
            let mut i: usize = 0;
            while i < headers.len()
                invariant
                    0 <= i <= headers@.len(),
                    *token == Some(*t),
                    forall|k: int| 0 <= k < i ==> !is_token_header(#[trigger] headers@[k].0@),
                decreases headers.len() - i,
            {
                let name = headers[i].0.as_str();
                if header_field_matches(name, "X-Control-Token") || header_field_matches(name, "Authorization") {
                    proof {
                        lemma_first_token_header_none(headers@, i as int);
                        lemma_first_token_header_hit(headers@, i as int);
                    }
                    let v = presented(headers[i].1.as_str());
                    let tv = chars_of(t.as_str());
                    let r = vec_eq(&v, &tv);
                    assert(first_token_header(headers@) == i);
                    assert(v@ == presented_token(headers@[i as int].1@));
                    return r;
                }
                i = i + 1;
            }
            proof {
                lemma_first_token_header_none(headers@, headers@.len() as int);
                assert(headers@.take(headers@.len() as int) == headers@);
            }
            false
        },
    }
}

fn vec_eq(a: &Vec<char>, b: &Vec<char>) -> (r: bool)
    ensures
        r == (a@ == b@),
{
    if a.len() != b.len() {
        return false;
    }
    let mut i: usize = 0;
    while i < a.len()
        invariant
            0 <= i <= a@.len(),
            a@.len() == b@.len(),
            forall|k: int| 0 <= k < i ==> a@[k] == b@[k],
        decreases a.len() - i,
    {
        if a[i] != b[i] {
            return false;
        }
        i = i + 1;
    }
    assert(a@ =~= b@);
    true
}

/// The control token as kept in its file: the file's text, trimmed.
pub fn token_from_file(content: &str) -> (r: String)
    ensures
        r@ == trim(content@),
{
    let v = chars_of(content);
    let t = trim_chars(&v);
    string_of(&t)
}

} // verus!

verus! {

/// A route, with the profile id it names as characters.
pub enum RouteView {
    Preflight,
    Forbidden,
    Health,
    OrchestratorStatus,
    ListProfiles,
    OpenBatch,
    OpenAll,
    OpenAllAndNavigate,
    OpenProfile(Seq<char>),
    CloseProfile(Seq<char>),
    NavigateProfile(Seq<char>),
    CommentProfile(Seq<char>),
    NotFound,
}

impl View for Route {
    type V = RouteView;

    open spec fn view(&self) -> RouteView {
        match self {
            Route::Preflight => RouteView::Preflight,
            Route::Forbidden => RouteView::Forbidden,
            Route::Health => RouteView::Health,
            Route::OrchestratorStatus => RouteView::OrchestratorStatus,
            Route::ListProfiles => RouteView::ListProfiles,
            Route::OpenBatch => RouteView::OpenBatch,
            Route::OpenAll => RouteView::OpenAll,
            Route::OpenAllAndNavigate => RouteView::OpenAllAndNavigate,
            Route::OpenProfile(id) => RouteView::OpenProfile(id@),
            Route::CloseProfile(id) => RouteView::CloseProfile(id@),
            Route::NavigateProfile(id) => RouteView::NavigateProfile(id@),
            Route::CommentProfile(id) => RouteView::CommentProfile(id@),
            Route::NotFound => RouteView::NotFound,
        }
    }
}

/// Whether `s` ends with `suf`.
pub open spec fn ends_with(s: Seq<char>, suf: Seq<char>) -> bool {
    suf.len() <= s.len() && s.skip(s.len() - suf.len()) == suf
}

/// `s` without its last `n` characters.
pub open spec fn drop_end(s: Seq<char>, n: nat) -> Seq<char> {
    s.take(s.len() - n)
}

/// The route for a profile-specific path: `id` is what follows `/api/v1/profiles/`.
pub open spec fn profile_route(m: Method, id: Seq<char>) -> RouteView {
    if ends_with(id, "/open"@) && m == Method::Post {
        RouteView::OpenProfile(drop_end(id, "/open"@.len()))
    } else if ends_with(id, "/close"@) && m == Method::Post {
        RouteView::CloseProfile(drop_end(id, "/close"@.len()))
    } else if ends_with(id, "/navigate"@) && m == Method::Post {
        RouteView::NavigateProfile(drop_end(id, "/navigate"@.len()))
    } else if ends_with(id, "/comment"@) && m == Method::Post {
        RouteView::CommentProfile(drop_end(id, "/comment"@.len()))
    } else {
        RouteView::NotFound
    }
}

/// How the control server answers a request for `url` with method `m`, once it knows whether
/// the request presented the token: preflights first, then authorization, then the routes.
pub open spec fn route_spec(m: Method, url: Seq<char>, authorized: bool) -> RouteView {
    if m == Method::Options {
        RouteView::Preflight
    } else if !authorized {
        RouteView::Forbidden
    } else if url == "/api/v1/health"@ && m == Method::Get {
        RouteView::Health
    } else if url == "/api/v1/orchestrator/status"@ && m == Method::Get {
        RouteView::OrchestratorStatus
    } else if url == "/api/v1/profiles"@ && m == Method::Get {
        RouteView::ListProfiles
    } else if url == "/api/v1/profiles/open-batch"@ && m == Method::Post {
        RouteView::OpenBatch
    } else if url == "/api/v1/profiles/open-all"@ && m == Method::Post {
        RouteView::OpenAll
    } else if url == "/api/v1/profiles/open-all-and-navigate"@ && m == Method::Post {
        RouteView::OpenAllAndNavigate
    } else if "/api/v1/profiles/"@.len() <= url.len() && url.take("/api/v1/profiles/"@.len() as int)
        == "/api/v1/profiles/"@ {
        profile_route(m, url.skip("/api/v1/profiles/"@.len() as int))
    } else {
        RouteView::NotFound
    }
}

fn is_literal(v: &Vec<char>, lit: &str) -> (b: bool)
    ensures
        b == (v@ == lit@),
{
    let l = chars_of(lit);
    vec_eq(v, &l)
}

fn strip_suffix_chars(id: &Vec<char>, suf: &str) -> (r: Option<Vec<char>>)
    ensures
        match r {
            Some(x) => ends_with(id@, suf@) && x@ == drop_end(id@, suf@.len()),
            None => !ends_with(id@, suf@),
        },
{
    let s = chars_of(suf);
    if s.len() > id.len() {
        return None;
    }
    let from = id.len() - s.len();
    if starts_with_at(id, from, &s) {
        assert(id@.subrange(from as int, from + s@.len()) == id@.skip(id@.len() - s@.len()));
        Some(slice_chars(id, 0, from))
    } else {
        assert(id@.subrange(from as int, from + s@.len()) == id@.skip(id@.len() - s@.len()));
        None
    }
}

/// The route of a control request.
pub fn route(m: Method, url: &str, authorized: bool) -> (r: Route)
    ensures
        r.view() == route_spec(m, url@, authorized),
{
    if m == Method::Options {
        return Route::Preflight;
    }
    if !authorized {
        return Route::Forbidden;
    }
    let u = chars_of(url);
    if is_literal(&u, "/api/v1/health") && m == Method::Get {
        return Route::Health;
    }
    if is_literal(&u, "/api/v1/orchestrator/status") && m == Method::Get {
        return Route::OrchestratorStatus;
    }
    if is_literal(&u, "/api/v1/profiles") && m == Method::Get {
        return Route::ListProfiles;
    }
    if is_literal(&u, "/api/v1/profiles/open-batch") && m == Method::Post {
        return Route::OpenBatch;
    }
    if is_literal(&u, "/api/v1/profiles/open-all") && m == Method::Post {
        return Route::OpenAll;
    }
    if is_literal(&u, "/api/v1/profiles/open-all-and-navigate") && m == Method::Post {
        return Route::OpenAllAndNavigate;
    }
    let prefix = chars_of("/api/v1/profiles/");
    if !starts_with_at(&u, 0, &prefix) {
        return Route::NotFound;
    }
    assert(u@.subrange(0, prefix@.len() as int) == u@.take(prefix@.len() as int));
    let id = slice_chars(&u, prefix.len(), u.len());
    assert(id@ == u@.skip(prefix@.len() as int));
    if m == Method::Post {
        if let Some(x) = strip_suffix_chars(&id, "/open") {
            return Route::OpenProfile(string_of(&x));
        }
        if let Some(x) = strip_suffix_chars(&id, "/close") {
            return Route::CloseProfile(string_of(&x));
        }
        if let Some(x) = strip_suffix_chars(&id, "/navigate") {
            return Route::NavigateProfile(string_of(&x));
        }
        if let Some(x) = strip_suffix_chars(&id, "/comment") {
            return Route::CommentProfile(string_of(&x));
        }
    }
    Route::NotFound
}

/// The snake-case name of a reason code, as it appears in replies.
pub open spec fn reason_name_spec(r: ReasonCode) -> Seq<char> {
    match r {
        ReasonCode::LimitExceeded => "limit_exceeded"@,
        ReasonCode::ResourceExhausted => "resource_exhausted"@,
        ReasonCode::CircuitBreakerOpen => "circuit_breaker_open"@,
        ReasonCode::ProfileNotFound => "profile_not_found"@,
        ReasonCode::ProfileAlreadyOpen => "profile_already_open"@,
        ReasonCode::AuthFailed => "auth_failed"@,
        ReasonCode::InvalidRequest => "invalid_request"@,
        ReasonCode::ProfileCooldown => "profile_cooldown"@,
    }
}

/// The snake-case name of a reason code.
pub fn reason_name(r: ReasonCode) -> (s: String)
    ensures
        s@ == reason_name_spec(r),
{
    match r {
        ReasonCode::LimitExceeded => "limit_exceeded".to_owned(),
        ReasonCode::ResourceExhausted => "resource_exhausted".to_owned(),
        ReasonCode::CircuitBreakerOpen => "circuit_breaker_open".to_owned(),
        ReasonCode::ProfileNotFound => "profile_not_found".to_owned(),
        ReasonCode::ProfileAlreadyOpen => "profile_already_open".to_owned(),
        ReasonCode::AuthFailed => "auth_failed".to_owned(),
        ReasonCode::InvalidRequest => "invalid_request".to_owned(),
        ReasonCode::ProfileCooldown => "profile_cooldown".to_owned(),
    }
}

/// An error reply: HTTP status, error text, the reason code when there is one, and, at the
/// limit, the limit, the profiles open and when to retry, or, when resources are exhausted, the
/// reasons.
#[derive(Debug)]
pub struct ErrorReply {
    pub status: u16,
    pub error: String,
    pub reason: Option<ReasonCode>,
    pub limit: Option<usize>,
    pub active: Vec<String>,
    pub retry_after_ms: Option<u64>,
    pub details: Option<String>,
}

/// The reply to a refused request to open one profile, with `limit` the limit on open profiles
/// and `active` the profiles open: 429 at the limit, with the limit, the open profiles and a
/// retry after 5000 ms; 503 when resources are exhausted, with the reasons `msg`, or when the
/// profile is cooling down; 500 with the message otherwise.
pub fn open_refusal(reason: ReasonCode, msg: &str, limit: usize, active: Vec<String>) -> (e: ErrorReply)
    ensures
        reason == ReasonCode::LimitExceeded ==> e.status == 429 && e.error@ == "max_active_profiles_reached"@
            && e.reason == Some(ReasonCode::LimitExceeded) && e.limit == Some(limit) && e.active == active
            && e.retry_after_ms == Some(5000u64) && e.details is None,
        reason == ReasonCode::ResourceExhausted ==> e.status == 503 && e.error@ == "resource_exhausted"@
            && e.reason == Some(ReasonCode::ResourceExhausted) && e.limit is None && e.active@.len() == 0
            && e.retry_after_ms is None && (e.details matches Some(d) && d@ == msg@),
        reason == ReasonCode::CircuitBreakerOpen ==> e.status == 503 && e.error@ == "profile_cooldown"@
            && e.reason == Some(ReasonCode::CircuitBreakerOpen) && e.limit is None && e.active@.len() == 0
            && e.retry_after_ms is None && e.details is None,
        reason != ReasonCode::LimitExceeded && reason != ReasonCode::ResourceExhausted && reason
            != ReasonCode::CircuitBreakerOpen ==> e.status == 500 && e.error@ == msg@ && e.reason is None
            && e.limit is None && e.active@.len() == 0 && e.retry_after_ms is None && e.details is None,
{
    match reason {
        ReasonCode::LimitExceeded => ErrorReply {
            status: 429,
            error: "max_active_profiles_reached".to_owned(),
            reason: Some(ReasonCode::LimitExceeded),
            limit: Some(limit),
            active,
            retry_after_ms: Some(5000),
            details: None,
        },
        ReasonCode::ResourceExhausted => ErrorReply {
            status: 503,
            error: "resource_exhausted".to_owned(),
            reason: Some(ReasonCode::ResourceExhausted),
            limit: None,
            active: Vec::new(),
            retry_after_ms: None,
            details: Some(msg.to_owned()),
        },
        ReasonCode::CircuitBreakerOpen => ErrorReply {
            status: 503,
            error: "profile_cooldown".to_owned(),
            reason: Some(ReasonCode::CircuitBreakerOpen),
            limit: None,
            active: Vec::new(),
            retry_after_ms: None,
            details: None,
        },
        _ => ErrorReply {
            status: 500,
            error: msg.to_owned(),
            reason: None,
            limit: None,
            active: Vec::new(),
            retry_after_ms: None,
            details: None,
        },
    }
}

/// What an open-batch request does with one profile, given the orchestrator's verdict.
#[derive(Debug)]
pub enum BatchStep {
    Open,
    Queue,
    Reject(ReasonCode, String),
}

/// Open when allowed, queue at the limit, reject for any other reason.
pub fn batch_step(verdict: Result<(), (ReasonCode, String)>) -> (s: BatchStep)
    ensures
        match verdict {
            Ok(()) => s is Open,
            Err((r, m)) => if r == ReasonCode::LimitExceeded {
                s is Queue
            } else {
                s == BatchStep::Reject(r, m)
            },
        },
{
    match verdict {
        Ok(()) => BatchStep::Open,
        Err((ReasonCode::LimitExceeded, _)) => BatchStep::Queue,
        Err((r, m)) => BatchStep::Reject(r, m),
    }
}

/// Where the profiles of an open-batch request went: opened with their CDP port, queued with
/// their position, or rejected with an error and a reason.
#[derive(Debug)]
pub struct BatchTally {
    pub opened: Vec<(String, u16)>,
    pub queued: Vec<(String, usize)>,
    pub rejected: Vec<(String, String, String)>,
}

/// The profile ids a tally has placed, each as often as it was placed.
pub open spec fn placed(t: BatchTally) -> vstd::multiset::Multiset<Seq<char>> {
    t.opened@.map_values(|x: (String, u16)| x.0@).to_multiset().add(
        t.queued@.map_values(|x: (String, usize)| x.0@).to_multiset(),
    ).add(t.rejected@.map_values(|x: (String, String, String)| x.0@).to_multiset())
}

impl BatchTally {
    /// Nothing placed yet.
    pub fn new() -> (t: Self)
        ensures
            t.opened@.len() == 0,
            t.queued@.len() == 0,
            t.rejected@.len() == 0,
            placed(t) =~= vstd::multiset::Multiset::<Seq<char>>::empty(),
    {
        let t = BatchTally { opened: Vec::new(), queued: Vec::new(), rejected: Vec::new() };
        proof {
            assert(t.opened@.map_values(|x: (String, u16)| x.0@) =~= Seq::<Seq<char>>::empty());
            assert(t.queued@.map_values(|x: (String, usize)| x.0@) =~= Seq::<Seq<char>>::empty());
            assert(t.rejected@.map_values(|x: (String, String, String)| x.0@) =~= Seq::<Seq<char>>::empty());
            broadcast use vstd::seq_lib::group_to_multiset_ensures;
            broadcast use vstd::multiset::group_multiset_axioms;

            let e = Seq::<Seq<char>>::empty();
            assert forall|a: Seq<char>| e.to_multiset().count(a) == 0 by {
                assert(!e.contains(a));
            }
            assert(e.to_multiset() =~= vstd::multiset::Multiset::<Seq<char>>::empty());
        }
        t
    }

    /// Places a profile the orchestrator let open, given how launching it went: opened on its
    /// port, or rejected with the launch error and the reason `open_failed`.
    pub fn record_open(&mut self, id: &str, launched: Result<u16, String>)
        ensures
            placed(*final(self)) =~= placed(*old(self)).insert(id@),
            match launched {
                Ok(port) => {
                    &&& final(self).opened@.drop_last() == old(self).opened@
                    &&& final(self).opened@.last().0@ == id@ && final(self).opened@.last().1 == port
                    &&& final(self).queued == old(self).queued && final(self).rejected == old(self).rejected
                },
                Err(e) => {
                    &&& final(self).rejected@.drop_last() == old(self).rejected@
                    &&& final(self).rejected@.last().0@ == id@ && final(self).rejected@.last().1@ == e@
                    &&& final(self).rejected@.last().2@ == "open_failed"@
                    &&& final(self).opened == old(self).opened && final(self).queued == old(self).queued
                },
            },
    {
        match launched {
            Ok(port) => {
                self.opened.push((id.to_owned(), port));
                proof {
                    let f = |x: (String, u16)| x.0@;
                    assert(self.opened@.map_values(f) =~= old(self).opened@.map_values(f).push(id@));
                    vstd::seq_lib::to_multiset_build(old(self).opened@.map_values(f), id@);
                    broadcast use vstd::multiset::group_multiset_axioms;

                }
            },
            Err(e) => {
                self.rejected.push((id.to_owned(), e, "open_failed".to_owned()));
                proof {
                    let f = |x: (String, String, String)| x.0@;
                    assert(self.rejected@.map_values(f) =~= old(self).rejected@.map_values(f).push(id@));
                    vstd::seq_lib::to_multiset_build(old(self).rejected@.map_values(f), id@);
                    broadcast use vstd::multiset::group_multiset_axioms;

                }
            },
        }
    }

    /// Places a profile refused at the limit, given the position its request got in the queue:
    /// queued there, or, with queueing off, rejected as `queue_disabled` for the reason
    /// `limit_exceeded`.
    pub fn record_queue(&mut self, id: &str, position: Option<usize>)
        ensures
            placed(*final(self)) =~= placed(*old(self)).insert(id@),
            match position {
                Some(pos) => {
                    &&& final(self).queued@.drop_last() == old(self).queued@
                    &&& final(self).queued@.last().0@ == id@ && final(self).queued@.last().1 == pos
                    &&& final(self).opened == old(self).opened && final(self).rejected == old(self).rejected
                },
                None => {
                    &&& final(self).rejected@.drop_last() == old(self).rejected@
                    &&& final(self).rejected@.last().0@ == id@ && final(self).rejected@.last().1@ == "queue_disabled"@
                    &&& final(self).rejected@.last().2@ == "limit_exceeded"@
                    &&& final(self).opened == old(self).opened && final(self).queued == old(self).queued
                },
            },
    {
        match position {
            Some(pos) => {
                self.queued.push((id.to_owned(), pos));
                proof {
                    let f = |x: (String, usize)| x.0@;
                    assert(self.queued@.map_values(f) =~= old(self).queued@.map_values(f).push(id@));
                    vstd::seq_lib::to_multiset_build(old(self).queued@.map_values(f), id@);
                    broadcast use vstd::multiset::group_multiset_axioms;

                }
            },
            None => {
                self.rejected.push((id.to_owned(), "queue_disabled".to_owned(), "limit_exceeded".to_owned()));
                proof {
                    let f = |x: (String, String, String)| x.0@;
                    assert(self.rejected@.map_values(f) =~= old(self).rejected@.map_values(f).push(id@));
                    vstd::seq_lib::to_multiset_build(old(self).rejected@.map_values(f), id@);
                    broadcast use vstd::multiset::group_multiset_axioms;

                }
            },
        }
    }

    /// Places a profile refused for any reason but the limit: rejected with the refusal message
    /// and the reason's name.
    pub fn record_reject(&mut self, id: &str, reason: ReasonCode, msg: &str)
        ensures
            placed(*final(self)) =~= placed(*old(self)).insert(id@),
            final(self).rejected@.drop_last() == old(self).rejected@,
            final(self).rejected@.last().0@ == id@ && final(self).rejected@.last().1@ == msg@,
            final(self).rejected@.last().2@ == reason_name_spec(reason),
            final(self).opened == old(self).opened && final(self).queued == old(self).queued,
    {
        self.rejected.push((id.to_owned(), msg.to_owned(), reason_name(reason)));
        proof {
            let f = |x: (String, String, String)| x.0@;
            assert(self.rejected@.map_values(f) =~= old(self).rejected@.map_values(f).push(id@));
            vstd::seq_lib::to_multiset_build(old(self).rejected@.map_values(f), id@);
            broadcast use vstd::multiset::group_multiset_axioms;

        }
    }
}

/// How long a queued profile is expected to wait: 10 seconds per position.
pub fn queue_eta_ms(position: usize) -> (ms: u64)
    requires
        position * 10000 <= u64::MAX,
    ensures
        ms == position * 10000,
{
    position as u64 * 10000
}

/// The priority an open-batch request asks for: its `priority` field as a byte (the low eight
/// bits of the number), 128 when it gives none.
pub fn batch_priority(requested: Option<u64>) -> (p: u8)
    ensures
        p == (match requested {
            Some(x) => x,
            None => 128u64,
        }) as u8,
{
    let x: u64 = match requested {
        Some(x) => x,
        None => 128,
    };
    x as u8
}

} // verus!

verus! {

/// Without the token, a request is answered only as a preflight or refused: it reaches no route.
pub proof fn lemma_unauthorized_not_routed(m: Method, url: Seq<char>)
    ensures
        route_spec(m, url, false) == RouteView::Preflight || route_spec(m, url, false)
            == RouteView::Forbidden,
{
}

/// With no control token configured, no request is authorized.
pub proof fn lemma_no_token_no_access(headers: Seq<(String, String)>)
    ensures
        !authorized_spec(None, headers),
{
}

/// A preflight is answered whether or not the token is presented.
pub proof fn lemma_preflight_without_token(url: Seq<char>, auth: bool)
    ensures
        route_spec(Method::Options, url, auth) == RouteView::Preflight,
{
}

} // verus!
